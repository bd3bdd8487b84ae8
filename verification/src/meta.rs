//! The model of decoded front-matter values.
//!
//! A front-matter block decodes to a string-keyed mapping whose values are
//! dynamically typed: null, booleans, numbers, strings, sequences, nested
//! mappings, or tagged values. [`MetaValue`] mirrors that shape with plain
//! library data; a number is carried as its rendered text, so that no value
//! is lost while none of the logic ever does arithmetic on it.

use vstd::prelude::*;

verus! {

broadcast use vstd::std_specs::vec::axiom_vec_index_decreases;

/// The mathematical shape of a [`MetaValue`]: the same tree over `Seq<char>`
/// and `Seq`, used by every contract that speaks about front matter.
pub ghost enum MetaVal {
    Null,
    Flag(bool),
    Number(Seq<char>),
    Scalar(Seq<char>),
    Items(Seq<MetaVal>),
    Table(Seq<(MetaVal, MetaVal)>),
    Tagged(Seq<char>, Box<MetaVal>),
}

/// One decoded front-matter value.
#[derive(Debug, PartialEq)]
pub enum MetaValue {
    /// A null scalar.
    Null,
    /// A boolean scalar.
    Flag(bool),
    /// A numeric scalar, kept as its rendered text.
    Number(String),
    /// A string scalar.
    Scalar(String),
    /// A sequence of values.
    Items(Vec<MetaValue>),
    /// A nested mapping, as a list of key/value pairs in document order.
    Table(Vec<(MetaValue, MetaValue)>),
    /// A value carrying an application-specific tag.
    Tagged(String, Box<MetaValue>),
}

impl MetaValue {
    /// The abstract value of this node and everything below it.
    pub open spec fn dview(self) -> MetaVal
        decreases self,
    {
        match self {
            MetaValue::Null => MetaVal::Null,
            MetaValue::Flag(b) => MetaVal::Flag(b),
            MetaValue::Number(s) => MetaVal::Number(s@),
            MetaValue::Scalar(s) => MetaVal::Scalar(s@),
            MetaValue::Items(vs) => MetaVal::Items(
                Seq::new(
                    vs@.len(),
                    |i: int|
                        if 0 <= i < vs.len() {
                            vs[i].dview()
                        } else {
                            MetaVal::Null
                        },
                ),
            ),
            MetaValue::Table(ps) => MetaVal::Table(
                Seq::new(
                    ps@.len(),
                    |i: int|
                        if 0 <= i < ps.len() {
                            (ps[i].0.dview(), ps[i].1.dview())
                        } else {
                            (MetaVal::Null, MetaVal::Null)
                        },
                ),
            ),
            MetaValue::Tagged(t, v) => MetaVal::Tagged(t@, Box::new(v.dview())),
        }
    }
}

impl DeepView for MetaValue {
    type V = MetaVal;

    open spec fn deep_view(&self) -> MetaVal {
        self.dview()
    }
}

/// A structural copy of a value; the copy has the same abstract value.
fn clone_value(v: &MetaValue) -> (r: MetaValue)
    ensures
        r.dview() == v.dview(),
    decreases *v,
{
    match v {
        MetaValue::Null => MetaValue::Null,
        MetaValue::Flag(b) => MetaValue::Flag(*b),
        MetaValue::Number(s) => MetaValue::Number(s.clone()),
        MetaValue::Scalar(s) => MetaValue::Scalar(s.clone()),
        MetaValue::Items(vs) => {
            let mut out: Vec<MetaValue> = Vec::new();
            let mut i: usize = 0;
            while i < vs.len()
                invariant
                    *v == MetaValue::Items(*vs),
                    i <= vs.len(),
                    out@.len() == i as int,
                    forall|k: int| 0 <= k < i ==> out@[k].dview() == vs@[k].dview(),
                decreases vs.len() - i,
            {
                proof {
                    assert(*v == MetaValue::Items(*vs));
                    assert(decreases_to!(*v => (*v)->Items_0));
                    assert((*v)->Items_0 == *vs);
                    assert(decreases_to!(*vs => vs[i as int]));
                }
                out.push(clone_value(&vs[i]));
                i = i + 1;
            }
            let r = MetaValue::Items(out);
            proof {
                assert(r.dview() matches MetaVal::Items(s) && s =~= v.dview()->Items_0);
            }
            r
        },
        MetaValue::Table(ps) => {
            let mut out: Vec<(MetaValue, MetaValue)> = Vec::new();
            let mut i: usize = 0;
            while i < ps.len()
                invariant
                    *v == MetaValue::Table(*ps),
                    i <= ps.len(),
                    out@.len() == i as int,
                    forall|k: int| 0 <= k < i ==> #[trigger] out@[k].0.dview() == ps@[k].0.dview()
                        && out@[k].1.dview() == ps@[k].1.dview(),
                decreases ps.len() - i,
            {
                proof {
                    assert(*v == MetaValue::Table(*ps));
                    assert(decreases_to!(*v => (*v)->Table_0));
                    assert((*v)->Table_0 == *ps);
                    assert(decreases_to!(*ps => ps[i as int]));
                }
                let pair = (clone_value(&ps[i].0), clone_value(&ps[i].1));
                out.push(pair);
                i = i + 1;
            }
            let r = MetaValue::Table(out);
            proof {
                assert(r.dview() matches MetaVal::Table(s) && s =~= v.dview()->Table_0);
            }
            r
        },
        MetaValue::Tagged(t, inner) => MetaValue::Tagged(t.clone(), Box::new(clone_value(&*inner))),
    }
}

impl Clone for MetaValue {
    /// A clone keeps the abstract value.
    fn clone(&self) -> (r: Self)
        ensures
            r.deep_view() == self.deep_view(),
    {
        clone_value(self)
    }
}

/// The abstract value of a key/value pair list.
pub open spec fn pview(ps: Seq<(String, MetaValue)>) -> Seq<(Seq<char>, MetaVal)> {
    Seq::new(ps.len(), |i: int| (ps[i].0@, ps[i].1.dview()))
}

/// The mapping described by a pair list, later pairs winning.
pub open spec fn pairs_map(ps: Seq<(Seq<char>, MetaVal)>) -> Map<Seq<char>, MetaVal>
    decreases ps.len(),
{
    if ps.len() == 0 {
        Map::empty()
    } else {
        pairs_map(ps.drop_last()).insert(ps.last().0, ps.last().1)
    }
}

/// No key occurs twice in the pair list.
pub open spec fn unique_keys(ps: Seq<(Seq<char>, MetaVal)>) -> bool {
    forall|i: int, j: int| 0 <= i < j < ps.len() ==> (#[trigger] ps[i]).0 != (#[trigger] ps[j]).0
}

/// The mapping of a pair list holds exactly the listed keys, and under
/// unique keys each pair gives its key's value.
pub proof fn lemma_pairs_map(ps: Seq<(Seq<char>, MetaVal)>, k: Seq<char>)
    ensures
        pairs_map(ps).contains_key(k) <==> exists|i: int| 0 <= i < ps.len() && (#[trigger] ps[i]).0 == k,
        unique_keys(ps) ==> forall|i: int|
            0 <= i < ps.len() && (#[trigger] ps[i]).0 == k ==> pairs_map(ps)[k] == ps[i].1,
    decreases ps.len(),
{
    if ps.len() > 0 {
        lemma_pairs_map(ps.drop_last(), k);
        assert forall|i: int| 0 <= i < ps.len() && (#[trigger] ps[i]).0 == k
            implies pairs_map(ps).contains_key(k) by {
            if i < ps.len() - 1 {
                assert(ps.drop_last()[i] == ps[i]);
            }
        }
        if pairs_map(ps).contains_key(k) {
            if ps.last().0 == k {
                assert(ps[ps.len() - 1].0 == k);
            } else {
                let i = choose|i: int| 0 <= i < ps.drop_last().len() && (#[trigger] ps.drop_last()[i]).0 == k;
                assert(ps[i].0 == k);
            }
        }
        if unique_keys(ps) {
            assert(unique_keys(ps.drop_last())) by {
                assert(forall|i: int| 0 <= i < ps.len() - 1 ==> ps.drop_last()[i] == ps[i]);
            }
            assert forall|i: int| 0 <= i < ps.len() && (#[trigger] ps[i]).0 == k
                implies pairs_map(ps)[k] == ps[i].1 by {
                if i == ps.len() - 1 {
                } else {
                    assert(ps.drop_last()[i] == ps[i]);
                    assert(ps.last().0 != k);
                }
            }
        }
    }
}

/// Under unique keys, each pair gives its key's value in the mapping.
pub proof fn lemma_pairs_map_index(ps: Seq<(Seq<char>, MetaVal)>, i: int)
    requires
        unique_keys(ps),
        0 <= i < ps.len(),
    ensures
        pairs_map(ps).contains_key(ps[i].0),
        pairs_map(ps)[ps[i].0] == ps[i].1,
    decreases ps.len(),
{
    if i == ps.len() - 1 {
    } else {
        assert(unique_keys(ps.drop_last())) by {
            assert(forall|n: int| 0 <= n < ps.len() - 1 ==> ps.drop_last()[n] == ps[n]);
        }
        assert(ps.drop_last()[i] == ps[i]);
        lemma_pairs_map_index(ps.drop_last(), i);
        assert(ps.last().0 != ps[i].0);
    }
}

/// Looks a key up in a pair list with unique keys.
pub fn map_get<'a>(ps: &'a Vec<(String, MetaValue)>, key: &str) -> (r: Option<&'a MetaValue>)
    requires
        unique_keys(pview(ps@)),
    ensures
        match r {
            Some(v) => pairs_map(pview(ps@)).contains_key(key@) && v.dview() == pairs_map(
                pview(ps@),
            )[key@],
            None => !pairs_map(pview(ps@)).contains_key(key@),
        },
{
    let owned = key.to_owned();
    let mut i: usize = 0;
    while i < ps.len()
        invariant
            0 <= i <= ps.len(),
            unique_keys(pview(ps@)),
            owned@ == key@,
            forall|k: int| 0 <= k < i ==> (#[trigger] pview(ps@)[k]).0 != key@,
        decreases ps.len() - i,
    {
        if ps[i].0 == owned {
            proof {
                assert(pview(ps@)[i as int].0 == key@);
                assert(pview(ps@)[i as int].1 == ps@[i as int].1.dview());
                lemma_pairs_map_index(pview(ps@), i as int);
            }
            return Some(&ps[i].1);
        }
        proof {
            assert(pview(ps@)[i as int].0 == ps@[i as int].0@);
        }
        i = i + 1;
    }
    proof {
        lemma_pairs_map(pview(ps@), key@);
    }
    None
}

/// Removes every pair with the given key, then appends the pair
/// `(key, val)`: in the mapping this is exactly `insert`.
pub fn map_set(ps: Vec<(String, MetaValue)>, key: String, val: MetaValue) -> (r: Vec<
    (String, MetaValue),
>)
    requires
        unique_keys(pview(ps@)),
    ensures
        unique_keys(pview(r@)),
        pairs_map(pview(r@)) == pairs_map(pview(ps@)).insert(key@, val.dview()),
        pairs_map(pview(r@)).contains_key(key@),
        pairs_map(pview(r@))[key@] == val.dview(),
{
    let mut out: Vec<(String, MetaValue)> = Vec::new();
    let mut i: usize = 0;
    proof {
        assert(pview(ps@).take(0) =~= Seq::<(Seq<char>, MetaVal)>::empty());
        assert(pview(out@) =~= Seq::<(Seq<char>, MetaVal)>::empty());
        assert(pairs_map(pview(out@)) =~= pairs_map(pview(ps@).take(0)).remove(key@));
    }
    while i < ps.len()
        invariant
            0 <= i <= ps.len(),
            unique_keys(pview(ps@)),
            unique_keys(pview(out@)),
            forall|n: int| 0 <= n < out@.len() ==> (#[trigger] pview(out@)[n]).0 != key@,
            forall|n: int| 0 <= n < out@.len() ==> pairs_map(pview(ps@).take(i as int)).contains_key(
                (#[trigger] pview(out@)[n]).0,
            ),
            pairs_map(pview(out@)) == pairs_map(pview(ps@).take(i as int)).remove(key@),
        decreases ps.len() - i,
    {
        let ghost whole = pview(ps@);
        let ghost cur = whole[i as int];
        proof {
            assert(whole.take(i as int + 1).drop_last() =~= whole.take(i as int));
            assert(whole.take(i as int + 1).last() == cur);
        }
        let keep = !(ps[i].0 == key);
        if keep {
            let ghost prev = pview(out@);
            let item = (ps[i].0.clone(), clone_value(&ps[i].1));
            let ghost iv = (item.0@, item.1.dview());
            out.push(item);
            proof {
                assert(iv == cur);
                assert(pview(out@) =~= prev.push(cur));
                // The new key is not among the old ones: it would otherwise
                // occur earlier in `ps` as well, against unique keys.
                assert forall|n: int| 0 <= n < prev.len() implies (#[trigger] prev[n]).0 != cur.0 by {
                    if prev[n].0 == cur.0 {
                        lemma_pairs_map(whole.take(i as int), cur.0);
                        let m = choose|m: int|
                            0 <= m < whole.take(i as int).len() && (#[trigger] whole.take(
                                i as int,
                            )[m]).0 == cur.0;
                        assert(whole[m].0 == whole[i as int].0);
                    }
                }
                assert(unique_keys(pview(out@)));
                assert(prev.push(cur).drop_last() =~= prev);
                assert(pairs_map(pview(out@)) == pairs_map(prev).insert(cur.0, cur.1));
                assert(pairs_map(whole.take(i as int + 1)).remove(key@) =~= pairs_map(
                    whole.take(i as int),
                ).remove(key@).insert(cur.0, cur.1));
                lemma_pairs_map(pview(out@), cur.0);
            }
        } else {
            proof {
                assert(cur.0 == key@);
                assert(pairs_map(whole.take(i as int + 1)).remove(key@) =~= pairs_map(
                    whole.take(i as int),
                ).remove(key@));
            }
        }
        i = i + 1;
    }
    proof {
        assert(pview(ps@).take(ps@.len() as int) =~= pview(ps@));
    }
    let ghost prev = pview(out@);
    let ghost kv = key@;
    let ghost vv = val.dview();
    out.push((key, val));
    proof {
        assert(pview(out@) =~= prev.push((kv, vv)));
        assert(prev.push((kv, vv)).drop_last() =~= prev);
        assert(pairs_map(pview(out@)) == pairs_map(prev).insert(kv, vv));
        assert(pairs_map(pview(ps@)).remove(kv).insert(kv, vv) =~= pairs_map(pview(ps@)).insert(
            kv,
            vv,
        ));
        assert(unique_keys(pview(out@)));
    }
    out
}

} // verus!
