use vstd::prelude::*;

use crate::text::{starts_with, starts_with_chars, to_chars};

verus! {

/// The last position of `c` in `s`, or -1.
pub open spec fn last_index_of(s: Seq<char>, c: char) -> int
    decreases s.len(),
{
    if s.len() == 0 {
        -1
    } else if s.last() == c {
        s.len() - 1
    } else {
        last_index_of(s.drop_last(), c)
    }
}

/// The parent of a normalized path (std's `Path::parent`): none for the
/// root `/`, `/` for a top-level entry, the part before the last `/`
/// otherwise, and the empty path for a single relative component.
pub open spec fn parent_dir(p: Seq<char>) -> Option<Seq<char>> {
    let i = last_index_of(p, '/');
    if p.len() == 0 || (p.len() == 1 && p[0] == '/') {
        None
    } else if i < 0 {
        Some(Seq::empty())
    } else if i == 0 {
        Some(seq!['/'])
    } else {
        Some(p.take(i))
    }
}

/// Whether the normalized path `p` lies at or below `base`, component by
/// component (std's `Path::starts_with`).
pub open spec fn path_starts_with(p: Seq<char>, base: Seq<char>) -> bool {
    ||| p == base
    ||| (base.len() > 0 && base.last() == '/' && starts_with(p, base))
    ||| starts_with(p, base.push('/'))
}

/// Whether `a` and `b` hold the same characters.
pub(crate) fn chars_equal(a: &Vec<char>, b: &Vec<char>) -> (r: bool)
    ensures
        r == (a@ == b@),
{
    if a.len() != b.len() {
        return false;
    }
    let r = starts_with_chars(a.as_slice(), b.as_slice());
    assert(a@.take(b@.len() as int) =~= a@);
    r
}

/// Whether the path `p` lies at or below `base` (see `path_starts_with`).
pub(crate) fn path_starts_with_exec(p: &Vec<char>, base: &Vec<char>) -> (r: bool)
    ensures
        r == path_starts_with(p@, base@),
{
    if chars_equal(p, base) {
        return true;
    }
    if base.len() > 0 && base[base.len() - 1] == '/' && starts_with_chars(p.as_slice(), base.as_slice()) {
        return true;
    }
    let mut with_slash = base.clone();
    with_slash.push('/');
    starts_with_chars(p.as_slice(), with_slash.as_slice())
}

/// The last position of `c` in `v`.
fn last_index_exec(v: &Vec<char>, c: char) -> (r: Option<usize>)
    ensures
        match r {
            Some(i) => i == last_index_of(v@, c) && i < v@.len(),
            None => last_index_of(v@, c) == -1,
        },
{
    let mut j: usize = v.len();
    assert(v@.take(j as int) =~= v@);
    while j > 0
        invariant
            j <= v@.len(),
            last_index_of(v@, c) == last_index_of(v@.take(j as int), c),
        decreases j,
    {
        if v[j - 1] == c {
            return Some(j - 1);
        }
        assert(v@.take(j as int).drop_last() =~= v@.take(j - 1));
        j = j - 1;
    }
    None
}

/// The parent of the path `p` (see `parent_dir`).
pub(crate) fn parent_exec(p: &Vec<char>) -> (r: Option<Vec<char>>)
    ensures
        match r {
            Some(q) => parent_dir(p@) == Some(q@),
            None => parent_dir(p@) is None,
        },
{
    if p.len() == 0 || (p.len() == 1 && p[0] == '/') {
        return None;
    }
    match last_index_exec(p, '/') {
        None => Some(Vec::new()),
        Some(i) => {
            if i == 0 {
                let mut root = Vec::new();
                root.push('/');
                assert(root@ =~= seq!['/']);
                Some(root)
            } else {
                let mut q = Vec::new();
                let mut k: usize = 0;
                while k < i
                    invariant
                        k <= i < p@.len(),
                        q@ =~= p@.take(k as int),
                    decreases i - k,
                {
                    q.push(p[k]);
                    k = k + 1;
                }
                Some(q)
            }
        },
    }
}

/// Whether the normalized path `path` lies at or below `base` (see
/// `path_starts_with`).
pub fn path_within(path: &str, base: &str) -> (r: bool)
    ensures
        r == path_starts_with(path@, base@),
{
    path_starts_with_exec(&to_chars(path), &to_chars(base))
}

} // verus!
