//! The eligibility filter: which paths the walk hands to the parser.
//!
//! A path is eligible when it is not a directory and its file name's
//! extension is `md` or `txt`. The extension is read as the path's last
//! component's suffix after its last dot, a dot at the very start of the
//! component not counting.

use vstd::prelude::*;

verus! {

/// The suffix of `p` after the last occurrence of `c`; all of `p` when
/// `c` does not occur.
pub open spec fn after_last(p: Seq<char>, c: char) -> Seq<char>
    decreases p.len(),
{
    if p.len() == 0 {
        p
    } else if p.last() == c {
        Seq::empty()
    } else {
        after_last(p.drop_last(), c).push(p.last())
    }
}

/// Whether `c` occurs in `s`.
pub open spec fn has_char(s: Seq<char>, c: char) -> bool {
    exists|i: int| 0 <= i < s.len() && s[i] == c
}

/// The path's last component: what follows the last `/`.
pub open spec fn file_name_of(p: Seq<char>) -> Seq<char> {
    after_last(p, '/')
}

/// The extension of a file name: the part after the last dot, provided
/// some dot stands after the first character.
pub open spec fn ext_of(name: Seq<char>) -> Option<Seq<char>> {
    if name.len() >= 1 && has_char(name.drop_first(), '.') {
        Some(after_last(name, '.'))
    } else {
        None
    }
}

/// The `md` extension.
pub open spec fn md_ext() -> Seq<char> {
    seq!['m', 'd']
}

/// The `txt` extension.
pub open spec fn txt_ext() -> Seq<char> {
    seq!['t', 'x', 't']
}

/// A non-directory path whose extension is `md` or `txt` is eligible.
pub open spec fn spec_is_jrnl_path(p: Seq<char>, is_dir: bool) -> bool {
    &&& !is_dir
    &&& (ext_of(file_name_of(p)) == Some(md_ext()) || ext_of(file_name_of(p)) == Some(txt_ext()))
}

proof fn lemma_after_last_found(p: Seq<char>, c: char, j: int)
    requires
        0 <= j < p.len(),
        p[j] == c,
        forall|m: int| j < m < p.len() ==> p[m] != c,
    ensures
        after_last(p, c) == p.skip(j + 1),
    decreases p.len(),
{
    if j == p.len() - 1 {
        assert(p.last() == c);
        assert(p.skip(j + 1) =~= Seq::<char>::empty());
    } else {
        assert(p.last() != c);
        assert(p.drop_last()[j] == c);
        lemma_after_last_found(p.drop_last(), c, j);
        assert(p.drop_last().skip(j + 1).push(p.last()) =~= p.skip(j + 1));
    }
}

proof fn lemma_after_last_none(p: Seq<char>, c: char)
    requires
        forall|m: int| 0 <= m < p.len() ==> p[m] != c,
    ensures
        after_last(p, c) == p,
    decreases p.len(),
{
    if p.len() > 0 {
        lemma_after_last_none(p.drop_last(), c);
        assert(p.drop_last().push(p.last()) =~= p);
    }
}

/// Whether the walk hands this path to the parser: never a directory, and
/// only the `md` and `txt` extensions.
pub fn is_jrnl_path(path: &str, is_dir: bool) -> (r: bool)
    ensures
        r == spec_is_jrnl_path(path@, is_dir),
{
    if is_dir {
        return false;
    }
    let n = path.unicode_len();
    let mut k: usize = n;
    while k > 0 && path.get_char(k - 1) != '/'
        invariant
            0 <= k <= n == path@.len(),
            forall|m: int| k <= m < n ==> path@[m] != '/',
        decreases k,
    {
        k = k - 1;
    }
    let ghost name = path@.skip(k as int);
    proof {
        if k > 0 {
            lemma_after_last_found(path@, '/', k as int - 1);
        } else {
            lemma_after_last_none(path@, '/');
            assert(path@.skip(0) =~= path@);
        }
        assert(file_name_of(path@) == name);
    }
    let mut t: usize = n;
    while t > 0 && t - 1 > k && path.get_char(t - 1) != '.'
        invariant
            k <= n,
            t <= n == path@.len(),
            t >= k + 1 || t == n,
            forall|m: int| t <= m < n ==> path@[m] != '.',
        decreases t,
    {
        t = t - 1;
    }
    if t == 0 || t - 1 <= k {
        proof {
            assert(name.len() == n as int - k as int);
            if name.len() >= 1 {
                assert(t as int <= k as int + 1);
                assert forall|i: int| 0 <= i < name.drop_first().len()
                    implies name.drop_first()[i] != '.' by {
                    assert(name.drop_first()[i] == name[i + 1]);
                    assert(name[i + 1] == path@[k as int + i + 1]);
                    assert(k as int + i + 1 >= t as int);
                }
                assert(!has_char(name.drop_first(), '.'));
            }
            assert(ext_of(file_name_of(path@)) is None);
        }
        return false;
    }
    proof {
        let j = t as int - 1 - k as int;
        assert(path@[t as int - 1] == '.');
        assert(name[j] == '.');
        assert(name.drop_first()[j - 1] == '.');
        assert(has_char(name.drop_first(), '.'));
        assert forall|m: int| j < m < name.len() implies name[m] != '.' by {
            assert(name[m] == path@[k as int + m]);
        }
        lemma_after_last_found(name, '.', j);
        assert(name.skip(t as int - k as int) =~= path@.subrange(t as int, n as int));
        assert(ext_of(file_name_of(path@)) == Some(path@.subrange(t as int, n as int)));
    }
    let e = path.substring_char(t, n).to_owned();
    let md = String::from_str("md");
    let txt = String::from_str("txt");
    proof {
        reveal_strlit("md");
        reveal_strlit("txt");
        assert("md"@ =~= md_ext());
        assert("txt"@ =~= txt_ext());
    }
    e == md || e == txt
}

} // verus!
