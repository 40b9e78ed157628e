use vstd::prelude::*;

use crate::text::{from_char_range, from_chars, lines, split_lines, texts, to_chars};
use crate::utils::paths::{
    chars_equal, parent_dir, parent_exec, path_starts_with, path_starts_with_exec,
};
use ignore::gitignore::GitignoreBuilder;
use ignore::Match;

verus! {

// ---------------------------------------------------------------------------
// The directories whose `.gitignore` can decide about a path
// ---------------------------------------------------------------------------

/// The directories from `p` up to `cwd` (innermost first) that lie inside
/// `cwd`: `p`, its parent, and so on, stopping at `cwd` or at the first one
/// outside it.
pub open spec fn gitignore_dirs_of(p: Seq<char>, cwd: Seq<char>) -> Seq<Seq<char>>
    decreases p.len(),
{
    if !path_starts_with(p, cwd) {
        Seq::empty()
    } else if p == cwd {
        seq![p]
    } else {
        match parent_dir(p) {
            Some(q) => if q.len() < p.len() {
                seq![p] + gitignore_dirs_of(q, cwd)
            } else {
                seq![p]
            },
            None => seq![p],
        }
    }
}

/// Appends the directories from `cur` up to `base` (see
/// `gitignore_dirs_of`).
fn push_dirs(cur: Vec<char>, base: &Vec<char>, out: &mut Vec<String>)
    ensures
        texts(final(out)@) == texts(old(out)@) + gitignore_dirs_of(cur@, base@),
    decreases cur@.len(),
{
    let ghost start = texts(out@);
    if !path_starts_with_exec(&cur, base) {
        assert(start + Seq::<Seq<char>>::empty() =~= start);
        return;
    }
    out.push(from_chars(cur.as_slice()));
    assert(texts(out@) =~= start.push(cur@));
    if chars_equal(&cur, base) {
        assert(start.push(cur@) =~= start + seq![cur@]);
        return;
    }
    match parent_exec(&cur) {
        None => {
            assert(start.push(cur@) =~= start + seq![cur@]);
        },
        Some(q) => {
            if q.len() < cur.len() {
                push_dirs(q, base, out);
                assert(start.push(cur@) + gitignore_dirs_of(q@, base@) =~= start + (seq![cur@]
                    + gitignore_dirs_of(q@, base@)));
            } else {
                assert(start.push(cur@) =~= start + seq![cur@]);
            }
        },
    }
}

/// The directories whose `.gitignore` may decide about an entry in `start`
/// (the entry's directory, or the directory itself): `start` and its
/// ancestors up to `cwd`, innermost first, as long as they lie inside
/// `cwd`. Both paths are taken as normalized (canonical) paths.
pub fn gitignore_dirs(start: &str, cwd: &str) -> (r: Vec<String>)
    ensures
        texts(r@) == gitignore_dirs_of(start@, cwd@),
{
    let base = to_chars(cwd);
    let mut out: Vec<String> = Vec::new();
    assert(texts(out@) =~= Seq::<Seq<char>>::empty());
    push_dirs(to_chars(start), &base, &mut out);
    assert(Seq::<Seq<char>>::empty() + gitignore_dirs_of(start@, cwd@) =~= gitignore_dirs_of(
        start@,
        cwd@,
    ));
    out
}

// ---------------------------------------------------------------------------
// Matching
// ---------------------------------------------------------------------------

/// `s` without its leading `c`s.
pub open spec fn strip_leading(s: Seq<char>, c: char) -> Seq<char>
    decreases s.len(),
{
    if s.len() > 0 && s[0] == c {
        strip_leading(s.drop_first(), c)
    } else {
        s
    }
}

/// The lines of a `.gitignore` file as its patterns are read: the file's
/// lines, with byte-order marks removed from the start of the first.
pub open spec fn gitignore_lines_of(text: Seq<char>) -> Seq<Seq<char>> {
    let ls = lines(text);
    if ls.len() == 0 {
        ls
    } else {
        ls.update(0, strip_leading(ls[0], '\u{feff}'))
    }
}

/// `s` without its leading `c`s.
fn strip_leading_exec(s: &str, c: char) -> (r: String)
    ensures
        r@ == strip_leading(s@, c),
{
    let v = to_chars(s);
    let mut i: usize = 0;
    assert(v@.skip(0) =~= v@);
    while i < v.len() && v[i] == c
        invariant
            i <= v@.len(),
            v@ == s@,
            strip_leading(s@, c) == strip_leading(v@.skip(i as int), c),
        decreases v.len() - i,
    {
        assert(v@.skip(i as int).drop_first() =~= v@.skip(i + 1));
        i = i + 1;
    }
    assert(v@.skip(i as int) =~= v@.subrange(i as int, v@.len() as int));
    from_char_range(v.as_slice(), i, v.len())
}

/// The lines of a `.gitignore` file (see `gitignore_lines_of`).
pub fn gitignore_lines(text: &str) -> (r: Vec<String>)
    ensures
        texts(r@) == gitignore_lines_of(text@),
{
    let mut ls = split_lines(text);
    if ls.len() > 0 {
        let first = strip_leading_exec(ls[0].as_str(), '\u{feff}');
        ls.set(0, first);
        assert(texts(ls@) =~= lines(text@).update(0, strip_leading(lines(text@)[0], '\u{feff}')));
    }
    ls
}

/// What the `.gitignore` of `dir`, holding the pattern lines `lines`, says
/// of `path`: `Some(true)` when the last matching pattern ignores it,
/// `Some(false)` when it re-includes it, `None` when none matches; or the
/// message of the error that building the matcher gave.
pub uninterp spec fn gitignore_match(
    dir: Seq<char>,
    lines: Seq<Seq<char>>,
    path: Seq<char>,
    is_dir: bool,
) -> Result<Option<bool>, Seq<char>>;

/// Calls `ignore::gitignore::GitignoreBuilder::new(dir)`, then `add_line`
/// for each line (a line that is no valid pattern is skipped, as `add`
/// does), `build`, and `Gitignore::matched(path, is_dir)`. Claimed: the
/// result is `gitignore_match` of the arguments (`Ignore` is `Some(true)`,
/// `Whitelist` is `Some(false)`, a build error is its message).
#[verifier::external_body]
fn gitignore_verdict(dir: &str, lines: &Vec<String>, path: &str, is_dir: bool) -> (r: Result<
    Option<bool>,
    String,
>)
    ensures
        match r {
            Ok(v) => gitignore_match(dir@, texts(lines@), path@, is_dir) == Ok::<
                Option<bool>,
                Seq<char>,
            >(v),
            Err(m) => gitignore_match(dir@, texts(lines@), path@, is_dir) == Err::<
                Option<bool>,
                Seq<char>,
            >(m@),
        },
{
    let mut builder = GitignoreBuilder::new(dir);
    for line in lines {
        let _ = builder.add_line(None, line);
    }
    match builder.build() {
        Ok(gitignore) => match gitignore.matched(path, is_dir) {
            Match::Ignore(_) => Ok(Some(true)),
            Match::Whitelist(_) => Ok(Some(false)),
            Match::None => Ok(None),
        },
        Err(e) => Err(e.to_string()),
    }
}

/// The decision of the `.gitignore` files of `dirs` from the `i`-th on
/// (`texts[k]` is the content of the `k`-th, when there is one): the first
/// file that ignores or re-includes `path` decides; without one the path is
/// not ignored; a matcher that cannot be built is an error.
pub open spec fn ignore_decision(
    dirs: Seq<Seq<char>>,
    files: Seq<Option<Seq<char>>>,
    path: Seq<char>,
    is_dir: bool,
    i: int,
) -> Result<bool, Seq<char>>
    decreases dirs.len() - i,
{
    if i < 0 || i >= dirs.len() || i >= files.len() {
        Ok(false)
    } else {
        match files[i] {
            None => ignore_decision(dirs, files, path, is_dir, i + 1),
            Some(text) => match gitignore_match(dirs[i], gitignore_lines_of(text), path, is_dir) {
                Err(m) => Err(m),
                Ok(Some(b)) => Ok(b),
                Ok(None) => ignore_decision(dirs, files, path, is_dir, i + 1),
            },
        }
    }
}

/// The texts of optional strings.
pub open spec fn opt_texts(v: Seq<Option<String>>) -> Seq<Option<Seq<char>>> {
    v.map_values(
        |o: Option<String>|
            match o {
                Some(s) => Some(s@),
                None => None,
            },
    )
}

/// Whether `path` is ignored by the `.gitignore` files of `dirs`, innermost
/// first (see `ignore_decision`); `files[k]` is the content of the `k`-th
/// directory's `.gitignore`, if it has one.
pub fn is_ignored(
    dirs: &Vec<String>,
    files: &Vec<Option<String>>,
    path: &str,
    is_dir: bool,
) -> (r: Result<bool, String>)
    ensures
        match r {
            Ok(b) => ignore_decision(texts(dirs@), opt_texts(files@), path@, is_dir, 0) == Ok::<
                bool,
                Seq<char>,
            >(b),
            Err(m) => ignore_decision(texts(dirs@), opt_texts(files@), path@, is_dir, 0) == Err::<
                bool,
                Seq<char>,
            >(m@),
        },
{
    let ghost ds = texts(dirs@);
    let ghost fs = opt_texts(files@);
    let mut i: usize = 0;
    while i < dirs.len() && i < files.len()
        invariant
            i <= dirs@.len(),
            ds == texts(dirs@),
            fs == opt_texts(files@),
            ignore_decision(ds, fs, path@, is_dir, 0) == ignore_decision(
                ds,
                fs,
                path@,
                is_dir,
                i as int,
            ),
        decreases dirs.len() - i,
    {
        match &files[i] {
            None => {},
            Some(text) => {
                let ls = gitignore_lines(text.as_str());
                match gitignore_verdict(dirs[i].as_str(), &ls, path, is_dir) {
                    Err(m) => return Err(m),
                    Ok(Some(b)) => return Ok(b),
                    Ok(None) => {},
                }
            },
        }
        i = i + 1;
    }
    Ok(false)
}

} // verus!
