//! One journal entry: the parsed record and its parser.
//!
//! A file's lines are split at the first line equal to `---` after
//! trimming; the lines before it are decoded as front matter and the lines
//! after it are the body. When the decode fails the whole file becomes the
//! body and the diagnostic is kept on the record; the `tags` key is then
//! normalized unconditionally.

use vstd::prelude::*;

use crate::meta::{map_get, map_set, pairs_map, pview, unique_keys, MetaVal, MetaValue};
use crate::strutil::{join_range, spec_join, spec_trim, trim_str};
use crate::tags::{normalize_tags, spec_normalize_tags};
use crate::yaml::{decode_yaml_map, yaml_map_of};

verus! {

/// The content of a front-matter delimiter line, once trimmed.
pub open spec fn delim_chars() -> Seq<char> {
    seq!['-', '-', '-']
}

/// A line closes the front-matter block when its trimmed content is `---`.
pub open spec fn is_delim_line(l: Seq<char>) -> bool {
    spec_trim(l) == delim_chars()
}

/// Runtime test for a delimiter line.
pub fn line_is_delim(s: &str) -> (r: bool)
    ensures
        r == is_delim_line(s@),
{
    let t = trim_str(s);
    let d = String::from_str("---");
    proof {
        reveal_strlit("---");
        assert("---"@ =~= delim_chars());
    }
    t == d
}

/// The index of the first delimiter line, or the number of lines when no
/// line is a delimiter.
pub open spec fn delim_idx(ls: Seq<Seq<char>>) -> int
    decreases ls.len(),
{
    if ls.len() == 0 {
        0
    } else if is_delim_line(ls[0]) {
        0
    } else {
        1 + delim_idx(ls.drop_first())
    }
}

/// Whether some line is a delimiter.
pub open spec fn has_delim(ls: Seq<Seq<char>>) -> bool {
    delim_idx(ls) < ls.len()
}

proof fn lemma_delim_idx_at(ls: Seq<Seq<char>>, i: int)
    requires
        0 <= i <= ls.len(),
        forall|k: int| 0 <= k < i ==> !is_delim_line(#[trigger] ls[k]),
        i < ls.len() ==> is_delim_line(ls[i]),
    ensures
        delim_idx(ls) == i,
    decreases ls.len(),
{
    if i == 0 {
    } else {
        assert(!is_delim_line(ls[0]));
        let tl = ls.drop_first();
        assert(forall|k: int| 0 <= k < i - 1 ==> !is_delim_line(#[trigger] tl[k]));
        lemma_delim_idx_at(tl, i - 1);
    }
}

/// Finds the first delimiter line, or the line count when there is none.
pub fn find_delim(lines: &Vec<String>) -> (r: usize)
    ensures
        r as int == delim_idx(lines.deep_view()),
        r <= lines.len(),
{
    let mut i: usize = 0;
    while i < lines.len()
        invariant
            0 <= i <= lines.len(),
            forall|k: int| 0 <= k < i ==> !is_delim_line(#[trigger] lines.deep_view()[k]),
        decreases lines.len() - i,
    {
        proof {
            assert(lines.deep_view()[i as int] == lines@[i as int]@);
        }
        if line_is_delim(lines[i].as_str()) {
            proof {
                lemma_delim_idx_at(lines.deep_view(), i as int);
            }
            return i;
        }
        i = i + 1;
    }
    proof {
        lemma_delim_idx_at(lines.deep_view(), lines.len() as int);
    }
    i
}

/// The candidate front-matter block: the lines before the first delimiter,
/// or all lines when no delimiter exists.
pub open spec fn raw_block(ls: Seq<Seq<char>>) -> Seq<Seq<char>> {
    if has_delim(ls) {
        ls.take(delim_idx(ls))
    } else {
        ls
    }
}

/// What decoding the candidate block yields.
pub open spec fn decode_outcome(ls: Seq<Seq<char>>) -> Result<
    Map<Seq<char>, MetaVal>,
    Seq<char>,
> {
    yaml_map_of(spec_join(raw_block(ls)))
}

/// The lines that make up the body: after the delimiter on a successful
/// decode, nothing when a delimiter-less file decodes, and the whole file
/// when the decode fails.
pub open spec fn body_lines_for(ls: Seq<Seq<char>>, decoded_ok: bool) -> Seq<Seq<char>> {
    if !decoded_ok {
        ls
    } else if has_delim(ls) {
        ls.skip(delim_idx(ls) + 1)
    } else {
        Seq::empty()
    }
}

/// The `tags` metadata key.
pub open spec fn tags_key() -> Seq<char> {
    seq!['t', 'a', 'g', 's']
}

/// The `id` metadata key.
pub open spec fn id_key() -> Seq<char> {
    seq!['i', 'd']
}

/// The metadata of a record for a given decode outcome: the decoded
/// mapping (or the empty one), with `tags` unconditionally replaced by its
/// normalization.
pub open spec fn meta_for(out: Result<Map<Seq<char>, MetaVal>, Seq<char>>) -> Map<
    Seq<char>,
    MetaVal,
> {
    let base = match out {
        Ok(m) => m,
        Err(_) => Map::empty(),
    };
    base.insert(
        tags_key(),
        spec_normalize_tags(
            if base.contains_key(tags_key()) {
                Some(base[tags_key()])
            } else {
                None
            },
        ),
    )
}

/// The decode diagnostic of a record for a given decode outcome.
pub open spec fn err_for(out: Result<Map<Seq<char>, MetaVal>, Seq<char>>) -> Option<Seq<char>> {
    match out {
        Ok(_) => None,
        Err(e) => Some(e),
    }
}

/// The abstract value of a decode result as handed to [`Entry::assemble`].
pub open spec fn decoded_view(d: Result<Vec<(String, MetaValue)>, String>) -> Result<
    Map<Seq<char>, MetaVal>,
    Seq<char>,
> {
    match d {
        Ok(ps) => Ok(pairs_map(pview(ps@))),
        Err(e) => Err(e@),
    }
}

/// OS-reported attributes of the entry file, captured at parse time.
#[derive(Clone, Copy, Debug, PartialEq, Eq, Structural)]
pub struct FileInfo {
    /// File size in bytes.
    pub size: u64,
    /// Whole seconds of the modification time, relative to the Unix epoch.
    pub modified_secs: i64,
    /// Nanosecond part of the modification time.
    pub modified_nanos: u32,
}

/// One parsed journal entry.
#[derive(Debug, PartialEq)]
pub struct Entry {
    /// Where the entry file lives; the identity key of the record.
    pub path: String,
    /// File attributes captured at parse time.
    pub file_info: FileInfo,
    /// The decoded front matter, with `tags` always present and normalized.
    pub frontmatter: Vec<(String, MetaValue)>,
    /// The decode diagnostic, when the front matter failed to decode; its
    /// presence does not make the record invalid.
    pub frontmatter_err: Option<String>,
    /// The remaining text content, newline-joined.
    pub body: String,
}

/// The tag values of a metadata mapping that holds a `tags` sequence.
pub open spec fn tag_seq(m: Map<Seq<char>, MetaVal>) -> Seq<MetaVal> {
    m[tags_key()]->Items_0
}

/// Every item is a string scalar.
pub open spec fn all_scalars(items: Seq<MetaVal>) -> bool {
    forall|i: int| 0 <= i < items.len() ==> (#[trigger] items[i]) matches MetaVal::Scalar(_)
}

/// The identifier a metadata mapping gives: absent when the `id` key is
/// missing, not a string, or the empty string.
pub open spec fn spec_id(m: Map<Seq<char>, MetaVal>) -> Option<Seq<char>> {
    if m.contains_key(id_key()) {
        match m[id_key()] {
            MetaVal::Scalar(s) => if s.len() > 0 {
                Some(s)
            } else {
                None
            },
            _ => None,
        }
    } else {
        None
    }
}

impl Entry {
    /// The metadata mapping this record carries.
    pub open spec fn meta(self) -> Map<Seq<char>, MetaVal> {
        pairs_map(pview(self.frontmatter@))
    }

    /// A record is well formed when its front-matter keys are unique and
    /// `tags` is present and holds a sequence.
    pub open spec fn wf(self) -> bool {
        &&& unique_keys(pview(self.frontmatter@))
        &&& self.meta().contains_key(tags_key())
        &&& self.meta()[tags_key()] matches MetaVal::Items(_)
    }

    /// Parses the lines of an entry file into a record.
    pub fn from_lines(path: String, info: FileInfo, lines: &Vec<String>) -> (r: Entry)
        ensures
            r.wf(),
            r.path@ == path@,
            r.file_info == info,
            r.meta() == meta_for(decode_outcome(lines.deep_view())),
            r.frontmatter_err.deep_view() == err_for(decode_outcome(lines.deep_view())),
            r.body@ == spec_join(
                body_lines_for(lines.deep_view(), decode_outcome(lines.deep_view()) is Ok),
            ),
    {
        let idx = find_delim(lines);
        let n = lines.len();
        let raw = if idx < n {
            join_range(lines, 0, idx)
        } else {
            join_range(lines, 0, n)
        };
        proof {
            let dv = lines.deep_view();
            if idx < n {
                assert(dv.subrange(0, idx as int) =~= raw_block(dv));
            } else {
                assert(dv.subrange(0, n as int) =~= raw_block(dv));
            }
        }
        let decoded = decode_yaml_map(raw.as_str());
        Entry::assemble(path, info, lines, decoded)
    }

    /// Builds the record from the lines and the decode outcome: the exact
    /// assembly rules, verified for every possible outcome.
    pub fn assemble(
        path: String,
        info: FileInfo,
        lines: &Vec<String>,
        decoded: Result<Vec<(String, MetaValue)>, String>,
    ) -> (r: Entry)
        requires
            decoded matches Ok(ps) ==> unique_keys(pview(ps@)),
        ensures
            r.wf(),
            r.path@ == path@,
            r.file_info == info,
            r.meta() == meta_for(decoded_view(decoded)),
            r.frontmatter_err.deep_view() == err_for(decoded_view(decoded)),
            r.body@ == spec_join(body_lines_for(lines.deep_view(), decoded is Ok)),
    {
        let idx = find_delim(lines);
        let n = lines.len();
        let tags_name = String::from_str("tags");
        proof {
            reveal_strlit("tags");
            assert("tags"@ =~= tags_key());
        }
        match decoded {
            Ok(ps) => {
                let norm = {
                    let tags_raw = map_get(&ps, "tags");
                    normalize_tags(tags_raw)
                };
                let ghost nv = norm.dview();
                let fm = map_set(ps, tags_name, norm);
                let body = if idx < n {
                    let b = join_range(lines, idx + 1, n);
                    proof {
                        let dv = lines.deep_view();
                        assert(dv.subrange(idx as int + 1, n as int) =~= dv.skip(idx as int + 1));
                    }
                    b
                } else {
                    let b = String::new();
                    proof {
                        assert(body_lines_for(lines.deep_view(), true) =~= Seq::<Seq<char>>::empty());
                    }
                    b
                };
                let r = Entry {
                    path,
                    file_info: info,
                    frontmatter: fm,
                    frontmatter_err: None,
                    body,
                };
                proof {
                    assert(nv matches MetaVal::Items(_));
                    assert(r.meta() =~= meta_for(decoded_view(decoded)));
                }
                r
            },
            Err(e) => {
                let empty_fm: Vec<(String, MetaValue)> = Vec::new();
                proof {
                    assert(pview(empty_fm@) =~= Seq::<(Seq<char>, MetaVal)>::empty());
                    assert(pairs_map(pview(empty_fm@)) =~= Map::<Seq<char>, MetaVal>::empty());
                }
                let norm = normalize_tags(None);
                let ghost nv = norm.dview();
                let fm = map_set(empty_fm, tags_name, norm);
                let body = join_range(lines, 0, n);
                proof {
                    assert(lines.deep_view().subrange(0, n as int) =~= lines.deep_view());
                }
                let r = Entry {
                    path,
                    file_info: info,
                    frontmatter: fm,
                    frontmatter_err: Some(e),
                    body,
                };
                proof {
                    assert(nv matches MetaVal::Items(_));
                    assert(r.meta() =~= meta_for(decoded_view(decoded)));
                }
                r
            },
        }
    }

    /// The normalized tag strings of this record, cloned out of the
    /// metadata; `None` only if the `tags` key were missing, which a
    /// well-formed record rules out.
    pub fn get_tags(&self) -> (r: Option<Vec<String>>)
        requires
            self.wf(),
            all_scalars(tag_seq(self.meta())),
        ensures
            r matches Some(ts) && ts.deep_view() == Seq::new(
                tag_seq(self.meta()).len(),
                |i: int| tag_seq(self.meta())[i]->Scalar_0,
            ),
    {
        let val = map_get(&self.frontmatter, "tags");
        proof {
            reveal_strlit("tags");
            assert("tags"@ =~= tags_key());
        }
        match val {
            None => {
                proof {
                    assert(false);
                }
                None
            },
            Some(v) => match v {
                MetaValue::Items(vs) => {
                    let ghost items = tag_seq(self.meta());
                    proof {
                        assert(v.dview()->Items_0 =~= items);
                    }
                    let mut out: Vec<String> = Vec::new();
                    let mut i: usize = 0;
                    while i < vs.len()
                        invariant
                            0 <= i <= vs.len(),
                            out@.len() == i as int,
                            items.len() == vs@.len(),
                            all_scalars(items),
                            forall|k: int| 0 <= k < vs@.len() ==> (#[trigger] vs@[k]).dview()
                                == items[k],
                            forall|k: int| 0 <= k < i ==> (#[trigger] out@[k])@
                                == items[k]->Scalar_0,
                        decreases vs.len() - i,
                    {
                        match &vs[i] {
                            MetaValue::Scalar(s) => {
                                out.push(s.clone());
                            },
                            _ => {
                                proof {
                                    assert(items[i as int] matches MetaVal::Scalar(_));
                                    assert(false);
                                }
                            },
                        }
                        i = i + 1;
                    }
                    proof {
                        assert(out.deep_view() =~= Seq::new(
                            items.len(),
                            |i: int| items[i]->Scalar_0,
                        ));
                    }
                    Some(out)
                },
                _ => {
                    proof {
                        assert(false);
                    }
                    None
                },
            },
        }
    }

    /// Whether every normalized tag value is a string scalar; a sequence
    /// passed through with non-string items makes this false.
    pub fn tags_all_scalar(&self) -> (r: bool)
        requires
            self.wf(),
        ensures
            r == all_scalars(tag_seq(self.meta())),
    {
        let val = map_get(&self.frontmatter, "tags");
        proof {
            reveal_strlit("tags");
            assert("tags"@ =~= tags_key());
        }
        match val {
            None => {
                proof {
                    assert(false);
                }
                true
            },
            Some(v) => match v {
                MetaValue::Items(vs) => {
                    let ghost items = tag_seq(self.meta());
                    proof {
                        assert(v.dview()->Items_0 =~= items);
                    }
                    let mut i: usize = 0;
                    while i < vs.len()
                        invariant
                            0 <= i <= vs.len(),
                            items == tag_seq(self.meta()),
                            items.len() == vs@.len(),
                            forall|k: int| 0 <= k < vs@.len() ==> (#[trigger] vs@[k]).dview()
                                == items[k],
                            forall|k: int| 0 <= k < i ==> (#[trigger] items[k]) matches MetaVal::Scalar(_),
                        decreases vs.len() - i,
                    {
                        match &vs[i] {
                            MetaValue::Scalar(_) => {},
                            _ => {
                                proof {
                                    assert(!(items[i as int] matches MetaVal::Scalar(_)));
                                    assert(!all_scalars(items));
                                }
                                return false;
                            },
                        }
                        i = i + 1;
                    }
                    true
                },
                _ => {
                    proof {
                        assert(false);
                    }
                    true
                },
            },
        }
    }

    /// The identifier of this record: absent when the `id` key is missing,
    /// not a string, or empty.
    pub fn get_id(&self) -> (r: Option<String>)
        requires
            self.wf(),
        ensures
            r.deep_view() == spec_id(self.meta()),
    {
        let val = map_get(&self.frontmatter, "id");
        proof {
            reveal_strlit("id");
            assert("id"@ =~= id_key());
        }
        match val {
            None => None,
            Some(v) => match v {
                MetaValue::Scalar(s) => {
                    if s.as_str().is_empty() {
                        None
                    } else {
                        Some(s.clone())
                    }
                },
                _ => None,
            },
        }
    }
}

/// Parsing is a function of the file's lines alone: two records that both
/// satisfy the parser's contract for the same lines agree on metadata,
/// decode diagnostic, and body.
pub proof fn lemma_parse_deterministic(e1: Entry, e2: Entry, ls: Seq<Seq<char>>)
    requires
        e1.meta() == meta_for(decode_outcome(ls)),
        e1.frontmatter_err.deep_view() == err_for(decode_outcome(ls)),
        e1.body@ == spec_join(body_lines_for(ls, decode_outcome(ls) is Ok)),
        e2.meta() == meta_for(decode_outcome(ls)),
        e2.frontmatter_err.deep_view() == err_for(decode_outcome(ls)),
        e2.body@ == spec_join(body_lines_for(ls, decode_outcome(ls) is Ok)),
    ensures
        e1.meta() == e2.meta(),
        e1.frontmatter_err.deep_view() == e2.frontmatter_err.deep_view(),
        e1.body@ == e2.body@,
{
}

} // verus!
