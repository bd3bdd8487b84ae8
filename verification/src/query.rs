//! The decisions of the command-line use cases, on parsed entries: the
//! identifier listing and lookup, the tag census with its ordering, and
//! the text of a freshly created entry.

use vstd::prelude::*;

use crate::entry::{all_scalars, spec_id, tag_seq, Entry};

verus! {

/// Every entry in the collection is well formed.
pub open spec fn all_wf(es: Seq<Entry>) -> bool {
    forall|i: int| 0 <= i < es.len() ==> (#[trigger] es[i]).wf()
}

/// The identifiers the entries carry, in order, absent ones skipped.
pub open spec fn spec_ids(es: Seq<Entry>) -> Seq<Seq<char>>
    decreases es.len(),
{
    if es.len() == 0 {
        Seq::empty()
    } else {
        match spec_id(es.last().meta()) {
            Some(s) => spec_ids(es.drop_last()).push(s),
            None => spec_ids(es.drop_last()),
        }
    }
}

/// Collects the identifier of every entry that has one.
pub fn collect_ids(entries: &Vec<Entry>) -> (r: Vec<String>)
    requires
        all_wf(entries@),
    ensures
        r.deep_view() == spec_ids(entries@),
{
    let mut r: Vec<String> = Vec::new();
    let mut i: usize = 0;
    proof {
        assert(entries@.take(0) =~= Seq::<Entry>::empty());
        assert(r.deep_view() =~= Seq::<Seq<char>>::empty());
    }
    while i < entries.len()
        invariant
            0 <= i <= entries@.len(),
            all_wf(entries@),
            r.deep_view() =~= spec_ids(entries@.take(i as int)),
        decreases entries@.len() - i,
    {
        let ghost pre = entries@.take(i as int + 1);
        proof {
            assert(pre.drop_last() =~= entries@.take(i as int));
            assert(pre.last() == entries@[i as int]);
            assert(entries@[i as int].wf());
        }
        match entries[i].get_id() {
            Some(s) => {
                let ghost prev = r.deep_view();
                let ghost sv = s@;
                r.push(s);
                proof {
                    assert(r.deep_view() =~= prev.push(sv));
                }
            },
            None => {},
        }
        i = i + 1;
    }
    proof {
        assert(entries@.take(entries@.len() as int) =~= entries@);
    }
    r
}

/// Finds the first entry carrying the given identifier.
pub fn find_entry_by_id(entries: &Vec<Entry>, id: &str) -> (r: Option<usize>)
    requires
        all_wf(entries@),
    ensures
        match r {
            Some(i) => i < entries@.len() && spec_id(entries@[i as int].meta()) == Some(id@)
                && forall|k: int|
                0 <= k < i ==> spec_id((#[trigger] entries@[k]).meta()) != Some(id@),
            None => forall|k: int|
                0 <= k < entries@.len() ==> spec_id((#[trigger] entries@[k]).meta()) != Some(id@),
        },
{
    let target = id.to_owned();
    let mut i: usize = 0;
    while i < entries.len()
        invariant
            0 <= i <= entries@.len(),
            all_wf(entries@),
            target@ == id@,
            forall|k: int| 0 <= k < i ==> spec_id((#[trigger] entries@[k]).meta()) != Some(id@),
        decreases entries@.len() - i,
    {
        proof {
            assert(entries@[i as int].wf());
        }
        match entries[i].get_id() {
            Some(s) => {
                if s == target {
                    return Some(i);
                }
            },
            None => {},
        }
        i = i + 1;
    }
    None
}

/// The identifier a new entry gets: the requested name, or nothing when an
/// existing entry already carries that name.
pub fn choose_entry_id<'a>(entries: &Vec<Entry>, name: &'a str) -> (r: &'a str)
    requires
        all_wf(entries@),
    ensures
        r@ == if exists|k: int|
            0 <= k < entries@.len() && spec_id((#[trigger] entries@[k]).meta()) == Some(name@) {
            Seq::<char>::empty()
        } else {
            name@
        },
{
    match find_entry_by_id(entries, name) {
        Some(i) => {
            proof {
                assert(spec_id((entries@[i as int]).meta()) == Some(name@));
                reveal_strlit("");
                assert(""@ =~= Seq::<char>::empty());
            }
            ""
        },
        None => name,
    }
}

/// The file name of a new entry: the day stamp, a dash, the entry name,
/// and the `md` extension.
pub fn entry_filename(day: &str, name: &str) -> (r: String)
    ensures
        r@ == day@ + seq!['-'] + name@ + seq!['.', 'm', 'd'],
{
    let mut r = day.to_owned();
    r.append("-");
    r.append(name);
    r.append(".md");
    proof {
        reveal_strlit("-");
        reveal_strlit(".md");
        assert("-"@ =~= seq!['-']);
        assert(".md"@ =~= seq!['.', 'm', 'd']);
        assert(r@ =~= day@ + seq!['-'] + name@ + seq!['.', 'm', 'd']);
    }
    r
}

/// The initial text of a new entry: a front-matter block carrying the
/// given tags, identifier and publication stamp, the delimiter, and the
/// body.
pub open spec fn spec_new_entry_content(
    tags: Option<Seq<char>>,
    id: Seq<char>,
    pubdate: Seq<char>,
    body: Seq<char>,
) -> Seq<char> {
    let t = match tags {
        Some(s) => s,
        None => Seq::empty(),
    };
    seq!['t', 'a', 'g', 's', ':', ' '] + t + seq!['\n', 'i', 'd', ':', ' '] + id + seq![
        '\n',
        'p',
        'u',
        'b',
        'd',
        'a',
        't',
        'e',
        ':',
        ' ',
    ] + pubdate + seq!['\n', '-', '-', '-', '\n', '\n'] + body + seq!['\n']
}

/// Builds the initial text of a new entry.
pub fn new_entry_content(tags: Option<&str>, id: &str, pubdate: &str, body: &str) -> (r: String)
    ensures
        r@ == spec_new_entry_content(
            match tags {
                Some(t) => Some(t@),
                None => None,
            },
            id@,
            pubdate@,
            body@,
        ),
{
    let mut r = String::from_str("tags: ");
    match tags {
        Some(t) => r.append(t),
        None => (),
    }
    r.append("\nid: ");
    r.append(id);
    r.append("\npubdate: ");
    r.append(pubdate);
    r.append("\n---\n\n");
    r.append(body);
    r.append("\n");
    proof {
        reveal_strlit("tags: ");
        reveal_strlit("\nid: ");
        reveal_strlit("\npubdate: ");
        reveal_strlit("\n---\n\n");
        reveal_strlit("\n");
        assert("tags: "@ =~= seq!['t', 'a', 'g', 's', ':', ' ']);
        assert("\nid: "@ =~= seq!['\n', 'i', 'd', ':', ' ']);
        assert("\npubdate: "@ =~= seq!['\n', 'p', 'u', 'b', 'd', 'a', 't', 'e', ':', ' ']);
        assert("\n---\n\n"@ =~= seq!['\n', '-', '-', '-', '\n', '\n']);
        assert("\n"@ =~= seq!['\n']);
        assert(r@ =~= spec_new_entry_content(
            match tags {
                Some(t) => Some(t@),
                None => None,
            },
            id@,
            pubdate@,
            body@,
        ));
    }
    r
}


/// The tag strings of one entry.
pub open spec fn entry_tag_strs(e: Entry) -> Seq<Seq<char>> {
    Seq::new(tag_seq(e.meta()).len(), |i: int| tag_seq(e.meta())[i]->Scalar_0)
}

/// The tag strings of all the entries, in order.
pub open spec fn all_tags(es: Seq<Entry>) -> Seq<Seq<char>>
    decreases es.len(),
{
    if es.len() == 0 {
        Seq::empty()
    } else {
        all_tags(es.drop_last()) + entry_tag_strs(es.last())
    }
}

/// How often `t` occurs in `ts`.
pub open spec fn count_of(ts: Seq<Seq<char>>, t: Seq<char>) -> int
    decreases ts.len(),
{
    if ts.len() == 0 {
        0
    } else {
        count_of(ts.drop_last(), t) + if ts.last() == t {
            1int
        } else {
            0int
        }
    }
}

proof fn lemma_count_push(ts: Seq<Seq<char>>, t: Seq<char>, x: Seq<char>)
    ensures
        count_of(ts.push(t), x) == count_of(ts, x) + if x == t {
            1int
        } else {
            0int
        },
{
    assert(ts.push(t).drop_last() =~= ts);
}

proof fn lemma_count_bounds(ts: Seq<Seq<char>>, t: Seq<char>)
    ensures
        0 <= count_of(ts, t) <= ts.len(),
    decreases ts.len(),
{
    if ts.len() > 0 {
        lemma_count_bounds(ts.drop_last(), t);
    }
}

proof fn lemma_count_zero(ts: Seq<Seq<char>>, t: Seq<char>)
    requires
        forall|m: int| 0 <= m < ts.len() ==> (#[trigger] ts[m]) != t,
    ensures
        count_of(ts, t) == 0,
    decreases ts.len(),
{
    if ts.len() > 0 {
        assert(forall|m: int| 0 <= m < ts.len() - 1 ==> (#[trigger] ts.drop_last()[m]) == ts[m]);
        lemma_count_zero(ts.drop_last(), t);
    }
}

/// A census of the tags seen so far: each tag once, with how often it
/// occurred, and every seen tag accounted for.
pub open spec fn counts_wf(cs: Seq<(String, usize)>, seen: Seq<Seq<char>>) -> bool {
    &&& forall|a: int, b: int|
        0 <= a < b < cs.len() ==> (#[trigger] cs[a]).0@ != (#[trigger] cs[b]).0@
    &&& forall|n: int|
        0 <= n < cs.len() ==> (#[trigger] cs[n]).1 as int == count_of(seen, cs[n].0@) && cs[n].1
            >= 1
    &&& forall|m: int| 0 <= m < seen.len() ==> has_key(cs, #[trigger] seen[m])
}

/// Some pair of the census carries the key `t`.
pub open spec fn has_key(cs: Seq<(String, usize)>, t: Seq<char>) -> bool {
    exists|n: int| 0 <= n < cs.len() && (#[trigger] cs[n]).0@ == t
}

/// Accounts for one more occurrence of `key` in the census.
fn bump_count(
    counts: Vec<(String, usize)>,
    key: &String,
    Ghost(seen): Ghost<Seq<Seq<char>>>,
) -> (r: Vec<(String, usize)>)
    requires
        counts_wf(counts@, seen),
        seen.len() < usize::MAX,
    ensures
        counts_wf(r@, seen.push(key@)),
{
    let mut out: Vec<(String, usize)> = Vec::new();
    let mut i: usize = 0;
    let mut found = false;
    while i < counts.len()
        invariant
            0 <= i <= counts@.len(),
            counts_wf(counts@, seen),
            seen.len() < usize::MAX,
            out@.len() == i as int,
            forall|n: int| 0 <= n < i ==> (#[trigger] out@[n]).0@ == counts@[n].0@,
            forall|n: int|
                0 <= n < i ==> (#[trigger] out@[n]).1 as int == counts@[n].1 as int + if counts@[n].0@
                    == key@ {
                    1int
                } else {
                    0int
                },
            found <==> exists|n: int| 0 <= n < i && (#[trigger] counts@[n]).0@ == key@,
        decreases counts@.len() - i,
    {
        if counts[i].0 == *key {
            proof {
                lemma_count_bounds(seen, key@);
            }
            out.push((counts[i].0.clone(), counts[i].1 + 1));
            found = true;
        } else {
            out.push((counts[i].0.clone(), counts[i].1));
        }
        i = i + 1;
    }
    if !found {
        proof {
            assert forall|m: int| 0 <= m < seen.len() implies (#[trigger] seen[m]) != key@ by {
                if seen[m] == key@ {
                    assert(has_key(counts@, seen[m]));
                    let n = choose|n: int|
                        0 <= n < counts@.len() && (#[trigger] counts@[n]).0@ == seen[m];
                    assert(counts@[n].0@ == key@);
                }
            }
            lemma_count_zero(seen, key@);
        }
        out.push((key.clone(), 1));
    }
    proof {
        assert forall|a: int, b: int| 0 <= a < b < out@.len() implies (#[trigger] out@[a]).0@
            != (#[trigger] out@[b]).0@ by {
            assert(out@[a].0@ == counts@[a].0@);
            if b < counts@.len() {
                assert(out@[b].0@ == counts@[b].0@);
            } else {
                assert(out@[b].0@ == key@);
                assert(!(exists|n: int| 0 <= n < counts@.len() && (#[trigger] counts@[n]).0@ == key@));
            }
        }
        assert forall|n: int| 0 <= n < out@.len() implies (#[trigger] out@[n]).1 as int == count_of(
            seen.push(key@),
            out@[n].0@,
        ) && out@[n].1 >= 1 by {
            lemma_count_push(seen, key@, out@[n].0@);
        }
        assert forall|m: int| 0 <= m < seen.push(key@).len() implies has_key(
            out@,
            #[trigger] seen.push(key@)[m],
        ) by {
            if m < seen.len() {
                assert(seen.push(key@)[m] == seen[m]);
                assert(has_key(counts@, seen[m]));
                let n = choose|n: int|
                    0 <= n < counts@.len() && (#[trigger] counts@[n]).0@ == seen[m];
                assert(out@[n].0@ == seen.push(key@)[m]);
            } else {
                if found {
                    let n = choose|n: int|
                        0 <= n < counts@.len() && (#[trigger] counts@[n]).0@ == key@;
                    assert(out@[n].0@ == seen.push(key@)[m]);
                } else {
                    assert(out@[out@.len() - 1].0@ == seen.push(key@)[m]);
                }
            }
        }
    }
    out
}

proof fn lemma_all_tags_take(es: Seq<Entry>, i: int)
    requires
        0 <= i < es.len(),
    ensures
        all_tags(es.take(i + 1)) == all_tags(es.take(i)) + entry_tag_strs(es[i]),
{
    assert(es.take(i + 1).drop_last() =~= es.take(i));
    assert(es.take(i + 1).last() == es[i]);
}

proof fn lemma_all_tags_len(es: Seq<Entry>, i: int)
    requires
        0 <= i <= es.len(),
    ensures
        all_tags(es.take(i)).len() <= all_tags(es).len(),
    decreases es.len() - i,
{
    if i == es.len() {
        assert(es.take(i) =~= es);
    } else {
        lemma_all_tags_take(es, i);
        lemma_all_tags_len(es, i + 1);
    }
}

/// Counts how often each tag occurs over all the entries: each tag once,
/// with its exact count, every occurring tag present.
pub fn tag_counts(entries: &Vec<Entry>) -> (r: Vec<(String, usize)>)
    requires
        all_wf(entries@),
        forall|i: int|
            0 <= i < entries@.len() ==> all_scalars(tag_seq((#[trigger] entries@[i]).meta())),
        all_tags(entries@).len() < usize::MAX,
    ensures
        counts_wf(r@, all_tags(entries@)),
{
    let mut counts: Vec<(String, usize)> = Vec::new();
    let mut i: usize = 0;
    proof {
        assert(entries@.take(0) =~= Seq::<Entry>::empty());
    }
    while i < entries.len()
        invariant
            0 <= i <= entries@.len(),
            all_wf(entries@),
            forall|k: int|
                0 <= k < entries@.len() ==> all_scalars(tag_seq((#[trigger] entries@[k]).meta())),
            all_tags(entries@).len() < usize::MAX,
            counts_wf(counts@, all_tags(entries@.take(i as int))),
        decreases entries@.len() - i,
    {
        proof {
            assert(entries@[i as int].wf());
            assert(all_scalars(tag_seq(entries@[i as int].meta())));
        }
        let ts = match entries[i].get_tags() {
            Some(ts) => ts,
            None => {
                proof {
                    assert(false);
                }
                Vec::new()
            },
        };
        let ghost ets = entry_tag_strs(entries@[i as int]);
        let ghost base = all_tags(entries@.take(i as int));
        proof {
            assert(ts.deep_view() =~= ets);
            lemma_all_tags_take(entries@, i as int);
            lemma_all_tags_len(entries@, i as int + 1);
            assert(ets.take(0) =~= Seq::<Seq<char>>::empty());
            assert(base + ets.take(0) =~= base);
        }
        let mut j: usize = 0;
        while j < ts.len()
            invariant
                0 <= j <= ts@.len(),
                ts.deep_view() =~= ets,
                base == all_tags(entries@.take(i as int)),
                base + ets == all_tags(entries@.take(i as int + 1)),
                all_tags(entries@.take(i as int + 1)).len() <= all_tags(entries@).len(),
                all_tags(entries@).len() < usize::MAX,
                counts_wf(counts@, base + ets.take(j as int)),
            decreases ts@.len() - j,
        {
            proof {
                assert((base + ets.take(j as int)).len() < usize::MAX);
            }
            counts = bump_count(counts, &ts[j], Ghost(base + ets.take(j as int)));
            proof {
                assert(ets[j as int] == ts@[j as int]@);
                assert((base + ets.take(j as int)).push(ts@[j as int]@) =~= base + ets.take(
                    j as int + 1,
                ));
            }
            j = j + 1;
        }
        proof {
            assert(base + ets.take(ts@.len() as int) =~= base + ets);
        }
        i = i + 1;
    }
    proof {
        assert(entries@.take(entries@.len() as int) =~= entries@);
    }
    counts
}

/// Non-decreasing by count.
pub open spec fn sorted_by_count(s: Seq<(String, usize)>) -> bool {
    forall|a: int, b: int| 0 <= a < b < s.len() ==> (#[trigger] s[a]).1 <= (#[trigger] s[b]).1
}

/// Orders a census by count, keeping exactly the same pairs.
pub fn sort_by_count(counts: Vec<(String, usize)>) -> (r: Vec<(String, usize)>)
    ensures
        sorted_by_count(r@),
        r@.to_multiset() == counts@.to_multiset(),
{
    broadcast use vstd::seq_lib::group_to_multiset_ensures;

    let mut src = counts;
    let mut out: Vec<(String, usize)> = Vec::new();
    proof {
        assert(out@.to_multiset().add(src@.to_multiset()) =~= src@.to_multiset());
    }
    while src.len() > 0
        invariant
            sorted_by_count(out@),
            out@.to_multiset().add(src@.to_multiset()) == counts@.to_multiset(),
            forall|a: int, b: int|
                0 <= a < out@.len() && 0 <= b < src@.len() ==> (#[trigger] out@[a]).1
                    <= (#[trigger] src@[b]).1,
        decreases src@.len(),
    {
        let mut m: usize = 0;
        let mut q: usize = 1;
        while q < src.len()
            invariant
                0 <= m < q <= src@.len(),
                src@.len() > 0,
                forall|b: int| 0 <= b < q ==> (#[trigger] src@[b]).1 >= src@[m as int].1,
            decreases src@.len() - q,
        {
            if src[q].1 < src[m].1 {
                m = q;
            }
            q = q + 1;
        }
        let ghost old_src = src@;
        let ghost old_out = out@;
        let item = src.remove(m);
        let ghost it = old_src[m as int];
        proof {
            assert(old_src.contains(old_src[m as int]));
        }
        out.push(item);
        proof {
            broadcast use vstd::seq_lib::group_to_multiset_ensures;

            assert(src@.to_multiset() =~= old_src.to_multiset().remove(it));
            assert(out@.to_multiset() =~= old_out.to_multiset().insert(it));
            assert(out@.to_multiset().add(src@.to_multiset()) =~= counts@.to_multiset());
            assert forall|b: int| 0 <= b < src@.len() implies it.1 <= (#[trigger] src@[b]).1 by {
                if b < m {
                    assert(src@[b] == old_src[b]);
                } else {
                    assert(src@[b] == old_src[b + 1]);
                }
            }
            assert(out@[out@.len() - 1] == it);
        }
    }
    out
}

} // verus!
