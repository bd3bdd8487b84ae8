//! Verified string utilities: whitespace trimming, splitting on a
//! separator character, and newline-joining of line sequences.

use vstd::prelude::*;

use crate::chars::{is_ws_char, ws_char};

verus! {

/// `s` without its leading whitespace.
pub open spec fn trim_front(s: Seq<char>) -> Seq<char>
    decreases s.len(),
{
    if s.len() > 0 && is_ws_char(s[0]) {
        trim_front(s.drop_first())
    } else {
        s
    }
}

/// `s` without its trailing whitespace.
pub open spec fn trim_back(s: Seq<char>) -> Seq<char>
    decreases s.len(),
{
    if s.len() > 0 && is_ws_char(s.last()) {
        trim_back(s.drop_last())
    } else {
        s
    }
}

/// `s` without leading and trailing whitespace: what `str::trim` returns.
pub open spec fn spec_trim(s: Seq<char>) -> Seq<char> {
    trim_back(trim_front(s))
}

proof fn lemma_trim_front_skip(s: Seq<char>, i: int)
    requires
        0 <= i <= s.len(),
        forall|k: int| 0 <= k < i ==> is_ws_char(s[k]),
    ensures
        trim_front(s) == trim_front(s.skip(i)),
    decreases i,
{
    if i == 0 {
        assert(s.skip(0) =~= s);
    } else {
        assert(is_ws_char(s[0]));
        assert(s.drop_first() =~= s.skip(1));
        lemma_trim_front_skip(s.skip(1), i - 1);
        assert(s.skip(1).skip(i - 1) =~= s.skip(i));
    }
}

proof fn lemma_trim_back_take(s: Seq<char>, j: int)
    requires
        0 <= j <= s.len(),
        forall|k: int| j <= k < s.len() ==> is_ws_char(s[k]),
    ensures
        trim_back(s) == trim_back(s.take(j)),
    decreases s.len(),
{
    if j == s.len() {
        assert(s.take(j) =~= s);
    } else {
        assert(is_ws_char(s.last()));
        assert(s.drop_last() =~= s.take(s.len() - 1));
        lemma_trim_back_take(s.take(s.len() - 1), j);
        assert(s.take(s.len() - 1).take(j) =~= s.take(j));
    }
}

/// Strips leading and trailing whitespace, as the trimming spec says.
pub fn trim_str(s: &str) -> (r: String)
    ensures
        r@ == spec_trim(s@),
{
    let n = s.unicode_len();
    let mut i: usize = 0;
    while i < n && ws_char(s.get_char(i))
        invariant
            0 <= i <= n == s@.len(),
            forall|k: int| 0 <= k < i ==> is_ws_char(s@[k]),
        decreases n - i,
    {
        i = i + 1;
    }
    proof {
        lemma_trim_front_skip(s@, i as int);
        assert(trim_front(s@.skip(i as int)) == s@.skip(i as int));
    }
    let mut j: usize = n;
    while j > i && ws_char(s.get_char(j - 1))
        invariant
            0 <= i <= j <= n == s@.len(),
            forall|k: int| j <= k < n ==> is_ws_char(s@[k]),
        decreases j,
    {
        j = j - 1;
    }
    let sub = s.substring_char(i, j);
    let r = sub.to_owned();
    proof {
        let t = s@.skip(i as int);
        lemma_trim_back_take(t, j - i);
        assert(t.take(j - i) =~= s@.subrange(i as int, j as int));
        assert(trim_back(t.take(j - i)) == t.take(j - i));
        assert(r@ == spec_trim(s@));
    }
    r
}

/// The pieces of `s` between occurrences of the separator `c`, with `cur`
/// the piece read so far: every string yields at least one piece, and a
/// separator at the end yields a final empty piece.
pub open spec fn split_acc(s: Seq<char>, c: char, cur: Seq<char>) -> Seq<Seq<char>>
    decreases s.len(),
{
    if s.len() == 0 {
        seq![cur]
    } else if s[0] == c {
        seq![cur] + split_acc(s.drop_first(), c, Seq::empty())
    } else {
        split_acc(s.drop_first(), c, cur.push(s[0]))
    }
}

/// The pieces of `s` between occurrences of `c`: what `str::split` yields.
pub open spec fn spec_split(s: Seq<char>, c: char) -> Seq<Seq<char>> {
    split_acc(s, c, Seq::empty())
}

/// Splits `s` on the separator character `c`.
pub fn split_char(s: &str, c: char) -> (r: Vec<String>)
    ensures
        r.deep_view() == spec_split(s@, c),
{
    let n = s.unicode_len();
    let mut r: Vec<String> = Vec::new();
    let mut st: usize = 0;
    let mut k: usize = 0;
    proof {
        assert(s@.skip(0) =~= s@);
        assert(s@.subrange(0, 0) =~= Seq::<char>::empty());
        assert(r.deep_view() =~= Seq::<Seq<char>>::empty());
    }
    while k < n
        invariant
            0 <= st <= k <= n == s@.len(),
            r.deep_view() + split_acc(s@.skip(k as int), c, s@.subrange(st as int, k as int))
                =~= spec_split(s@, c),
        decreases n - k,
    {
        proof {
            assert(s@.skip(k as int)[0] == s@[k as int]);
            assert(s@.skip(k as int).drop_first() =~= s@.skip(k as int + 1));
        }
        if s.get_char(k) == c {
            let piece = s.substring_char(st, k).to_owned();
            let ghost prev = r.deep_view();
            let ghost pv = piece@;
            r.push(piece);
            st = k + 1;
            proof {
                assert(r.deep_view() =~= prev.push(pv));
                assert(s@.subrange(st as int, st as int) =~= Seq::<char>::empty());
                assert(prev.push(pv) + split_acc(s@.skip(k as int + 1), c, Seq::empty())
                    =~= prev + (seq![pv] + split_acc(s@.skip(k as int + 1), c, Seq::empty())));
            }
        } else {
            proof {
                assert(s@.subrange(st as int, k as int).push(s@[k as int]) =~= s@.subrange(
                    st as int,
                    k as int + 1,
                ));
            }
        }
        k = k + 1;
    }
    let piece = s.substring_char(st, n).to_owned();
    let ghost prev = r.deep_view();
    let ghost pv = piece@;
    r.push(piece);
    proof {
        assert(s@.skip(n as int).len() == 0);
        assert(split_acc(s@.skip(n as int), c, pv) == seq![pv]);
        assert(r.deep_view() =~= prev.push(pv));
        assert(prev.push(pv) =~= prev + seq![pv]);
    }
    r
}

/// The lines joined by single newlines, with no trailing newline.
pub open spec fn spec_join(ls: Seq<Seq<char>>) -> Seq<char>
    decreases ls.len(),
{
    if ls.len() == 0 {
        Seq::empty()
    } else if ls.len() == 1 {
        ls[0]
    } else {
        spec_join(ls.drop_last()) + seq!['\n'] + ls.last()
    }
}

/// Joins the lines of `ls` with index in `[from, to)` with `'\n'` between
/// each pair.
pub fn join_range(ls: &Vec<String>, from: usize, to: usize) -> (r: String)
    requires
        from <= to <= ls.len(),
    ensures
        r@ == spec_join(ls.deep_view().subrange(from as int, to as int)),
{
    let mut r = String::new();
    let mut i: usize = from;
    proof {
        reveal_strlit("\n");
        assert("\n"@ =~= seq!['\n']);
        assert(ls.deep_view().subrange(from as int, from as int) =~= Seq::<Seq<char>>::empty());
    }
    while i < to
        invariant
            from <= i <= to <= ls.len(),
            "\n"@ =~= seq!['\n'],
            r@ == spec_join(ls.deep_view().subrange(from as int, i as int)),
        decreases to - i,
    {
        if i > from {
            r.append("\n");
        }
        r.append(ls[i].as_str());
        proof {
            let dv = ls.deep_view();
            let cur = dv.subrange(from as int, i as int + 1);
            assert(cur.drop_last() =~= dv.subrange(from as int, i as int));
            assert(cur.last() == dv[i as int]);
            assert(dv[i as int] == ls@[i as int]@);
            if i == from {
                assert(cur =~= seq![dv[from as int]]);
            }
        }
        i = i + 1;
    }
    r
}

/// Joins all the lines with `'\n'` between each pair.
pub fn join_lines(ls: &Vec<String>) -> (r: String)
    ensures
        r@ == spec_join(ls.deep_view()),
{
    let r = join_range(ls, 0, ls.len());
    proof {
        assert(ls.deep_view().subrange(0, ls.len() as int) =~= ls.deep_view());
    }
    r
}

} // verus!
