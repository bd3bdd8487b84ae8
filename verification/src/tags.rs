//! Tag normalization: the unconditional coercion of a raw `tags` value
//! into a sequence of strings.

use vstd::prelude::*;

use crate::meta::{MetaVal, MetaValue};
use crate::strutil::{spec_split, spec_trim, split_char, trim_str};

verus! {

/// The abstract value of an optional borrowed front-matter value.
pub open spec fn opt_dview(t: Option<&MetaValue>) -> Option<MetaVal> {
    match t {
        Some(v) => Some(v.dview()),
        None => None,
    }
}

/// What normalization makes of a raw `tags` value: a missing or null value
/// becomes the empty sequence; a string scalar is split on commas with each
/// piece trimmed; a sequence passes through unchanged; any other shape is
/// silently discarded as the empty sequence.
pub open spec fn spec_normalize_tags(t: Option<MetaVal>) -> MetaVal {
    match t {
        Option::None => MetaVal::Items(Seq::empty()),
        Option::Some(v) => match v {
            MetaVal::Scalar(s) => MetaVal::Items(
                spec_split(s, ',').map_values(|p: Seq<char>| MetaVal::Scalar(spec_trim(p))),
            ),
            MetaVal::Items(l) => MetaVal::Items(l),
            _ => MetaVal::Items(Seq::empty()),
        },
    }
}

/// Normalizes a raw `tags` value, exactly as the normalization spec says.
pub fn normalize_tags(tags: Option<&MetaValue>) -> (r: MetaValue)
    ensures
        r.dview() == spec_normalize_tags(opt_dview(tags)),
{
    match tags {
        None => {
            let r = MetaValue::Items(Vec::new());
            proof {
                assert(r.dview()->Items_0 =~= Seq::<MetaVal>::empty());
            }
            r
        },
        Some(v) => match v {
            MetaValue::Scalar(s) => {
                let pieces = split_char(s.as_str(), ',');
                let mut out: Vec<MetaValue> = Vec::new();
                let mut i: usize = 0;
                while i < pieces.len()
                    invariant
                        0 <= i <= pieces.len(),
                        out@.len() == i as int,
                        forall|k: int| 0 <= k < i ==> (#[trigger] out@[k]).dview()
                            == MetaVal::Scalar(spec_trim(pieces.deep_view()[k])),
                    decreases pieces.len() - i,
                {
                    out.push(MetaValue::Scalar(trim_str(pieces[i].as_str())));
                    i = i + 1;
                }
                let r = MetaValue::Items(out);
                proof {
                    assert(r.dview()->Items_0 =~= pieces.deep_view().map_values(
                        |p: Seq<char>| MetaVal::Scalar(spec_trim(p)),
                    ));
                }
                r
            },
            MetaValue::Items(_) => v.clone(),
            _ => {
                let r = MetaValue::Items(Vec::new());
                proof {
                    assert(r.dview()->Items_0 =~= Seq::<MetaVal>::empty());
                }
                r
            },
        },
    }
}

} // verus!
