use vstd::prelude::*;

use crate::text::{
    copy_str, find_char_from, from_char_range, index_of_from, is_blank_str, lines,
    lemma_index_of_from_is, lemma_index_of_from_none, push_str, split_lines, texts, to_chars,
    trim, trimmed, utf8_lossy, utf8_lossy_string,
};

verus! {

/// The characters a commit id may hold.
pub open spec fn is_commit_id_char(c: char) -> bool {
    ('0' <= c && c <= '9') || ('a' <= c && c <= 'z')
}

/// A commit id: not empty, and made of digits and lowercase ASCII letters.
pub open spec fn is_commit_id(s: Seq<char>) -> bool {
    s.len() > 0 && forall|i: int| 0 <= i < s.len() ==> is_commit_id_char(#[trigger] s[i])
}

/// Validate that the given commit ID is just a valid commit ID, not an
/// injection attempt: it is not empty, and every character is a digit or a
/// lowercase ASCII letter.
pub fn validate_commit_id(commit_id: &str) -> (ok: bool)
    ensures
        ok == is_commit_id(commit_id@),
{
    let v = to_chars(commit_id);
    if v.len() == 0 {
        return false;
    }
    let mut i: usize = 0;
    while i < v.len()
        invariant
            i <= v.len(),
            v@ == commit_id@,
            forall|k: int| 0 <= k < i ==> is_commit_id_char(#[trigger] v@[k]),
        decreases v.len() - i,
    {
        let c = v[i];
        if !(('0' <= c && c <= '9') || ('a' <= c && c <= 'z')) {
            assert(!is_commit_id_char(commit_id@[i as int]));
            return false;
        }
        i = i + 1;
    }
    true
}

/// Why a git request was refused.
#[derive(Debug, Clone, PartialEq, Eq)]
pub enum GitError {
    /// The commit id holds a character other than `0-9` and `a-z`.
    InvalidCommitId(String),
    /// No base branch could be found.
    NoBaseBranch,
}

impl GitError {
    /// The message reported for this error.
    pub fn message(&self) -> (m: String)
        ensures
            match self {
                GitError::InvalidCommitId(id) => m@ == "Invalid commit ID: "@ + id@,
                GitError::NoBaseBranch => m@ == "Could not determine the base branch"@,
            },
    {
        match self {
            GitError::InvalidCommitId(id) => {
                let mut m = copy_str("Invalid commit ID: ");
                push_str(&mut m, id.as_str());
                m
            },
            GitError::NoBaseBranch => copy_str("Could not determine the base branch"),
        }
    }
}

/// Refuses a commit id that `validate_commit_id` rejects; this check comes
/// before `git show` is run.
pub fn check_commit_id(commit_id: &str) -> (r: Result<(), GitError>)
    ensures
        r is Ok <==> is_commit_id(commit_id@),
        r matches Err(GitError::InvalidCommitId(id)) ==> id@ == commit_id@,
        r is Err ==> r->Err_0 is InvalidCommitId,
{
    if validate_commit_id(commit_id) {
        Ok(())
    } else {
        Err(GitError::InvalidCommitId(copy_str(commit_id)))
    }
}

/// The revision range of the commits on this branch but not on `base`.
pub fn log_range(base_branch: &str) -> (r: String)
    ensures
        r@ == base_branch@ + "..HEAD"@,
{
    let mut r = copy_str(base_branch);
    push_str(&mut r, "..HEAD");
    r
}

/// A `git log --oneline` line split at its first space into commit id and
/// message (the message is empty when there is no space).
pub open spec fn split_first_space(line: Seq<char>) -> (Seq<char>, Seq<char>) {
    let i = index_of_from(line, ' ', 0);
    if 0 <= i < line.len() {
        (line.take(i), line.skip(i + 1))
    } else {
        (line, Seq::empty())
    }
}

/// The (id, message) pairs of `git log --oneline` output, one per line.
pub open spec fn commit_list(stdout: Seq<char>) -> Seq<(Seq<char>, Seq<char>)> {
    lines(stdout).map_values(|l: Seq<char>| split_first_space(l))
}

/// Splits one line at its first space.
fn split_first_space_exec(line: &str) -> (r: (String, String))
    ensures
        (r.0@, r.1@) == split_first_space(line@),
{
    let v = to_chars(line);
    match find_char_from(v.as_slice(), ' ', 0) {
        Some(i) => {
            proof {
                lemma_index_of_from_is(line@, ' ', 0, i as int);
            }
            (from_char_range(v.as_slice(), 0, i), from_char_range(v.as_slice(), i + 1, v.len()))
        },
        None => {
            proof {
                lemma_index_of_from_none(line@, ' ', 0);
            }
            (from_char_range(v.as_slice(), 0, v.len()), String::new())
        },
    }
}

/// The commits listed by `git log --oneline --no-decorate`: one (id,
/// message) pair per line (see `commit_list`).
pub fn parse_commit_log(stdout: &str) -> (r: Vec<(String, String)>)
    ensures
        r@.len() == commit_list(stdout@).len(),
        forall|i: int|
            0 <= i < r@.len() ==> ((#[trigger] r@[i]).0@, r@[i].1@) == commit_list(stdout@)[i],
{
    let ls = split_lines(stdout);
    let mut r: Vec<(String, String)> = Vec::new();
    let mut i: usize = 0;
    while i < ls.len()
        invariant
            i <= ls.len(),
            texts(ls@) == lines(stdout@),
            r@.len() == i,
            forall|k: int|
                0 <= k < i ==> ((#[trigger] r@[k]).0@, r@[k].1@) == split_first_space(ls@[k]@),
        decreases ls.len() - i,
    {
        r.push(split_first_space_exec(ls[i].as_str()));
        i = i + 1;
    }
    proof {
        assert forall|k: int| 0 <= k < r@.len() implies ((#[trigger] r@[k]).0@, r@[k].1@)
            == commit_list(stdout@)[k] by {
            assert(lines(stdout@)[k] == texts(ls@)[k]);
        }
    }
    r
}

// ---------------------------------------------------------------------------
// Finding the base branch
// ---------------------------------------------------------------------------

/// The ways of finding the base branch, tried in this order.
#[derive(Debug, Clone, Copy, PartialEq, Eq, Structural)]
pub enum BaseBranchProbe {
    /// `CI_MERGE_REQUEST_TARGET_BRANCH_NAME` (GitLab CI).
    CiVariable,
    /// The remote's default branch, from `git symbolic-ref --short refs/remotes/origin/HEAD`.
    OriginHead,
    /// A local `main` branch, probed with `git rev-parse`.
    LocalMain,
    /// A local `master` branch, probed with `git rev-parse`.
    LocalMaster,
}

/// What to do after a probe.
#[derive(Debug, Clone, PartialEq, Eq)]
pub enum BaseBranchStep {
    /// The base branch.
    Found(String),
    /// Try the next probe.
    Next(BaseBranchProbe),
    /// Every probe failed.
    NotFound,
}

/// After reading `CI_MERGE_REQUEST_TARGET_BRANCH_NAME`: a non-empty value
/// is the base branch; otherwise ask for the remote's default branch.
pub fn after_ci_variable(value: Option<String>) -> (r: BaseBranchStep)
    ensures
        match value {
            Some(v) => if v@.len() > 0 {
                r matches BaseBranchStep::Found(b) && b@ == v@
            } else {
                r == BaseBranchStep::Next(BaseBranchProbe::OriginHead)
            },
            None => r == BaseBranchStep::Next(BaseBranchProbe::OriginHead),
        },
{
    match value {
        Some(v) => if v.as_str().is_empty() {
            BaseBranchStep::Next(BaseBranchProbe::OriginHead)
        } else {
            BaseBranchStep::Found(v)
        },
        None => BaseBranchStep::Next(BaseBranchProbe::OriginHead),
    }
}

/// After asking for the remote's default branch (`None` when git could not
/// be run; otherwise whether it succeeded and its standard output): a
/// successful, non-blank answer (decoded and trimmed) is the base branch;
/// otherwise probe for a local `main`.
pub fn after_origin_head(result: Option<(bool, Vec<u8>)>) -> (r: BaseBranchStep)
    ensures
        match result {
            Some((success, stdout)) => if success && trim(utf8_lossy(stdout@)).len() > 0 {
                r matches BaseBranchStep::Found(b) && b@ == trim(utf8_lossy(stdout@))
            } else {
                r == BaseBranchStep::Next(BaseBranchProbe::LocalMain)
            },
            None => r == BaseBranchStep::Next(BaseBranchProbe::LocalMain),
        },
{
    match result {
        Some((success, stdout)) => {
            let text = utf8_lossy_string(stdout.as_slice());
            let base = trimmed(text.as_str());
            if success && !base.as_str().is_empty() {
                BaseBranchStep::Found(base)
            } else {
                BaseBranchStep::Next(BaseBranchProbe::LocalMain)
            }
        },
        None => BaseBranchStep::Next(BaseBranchProbe::LocalMain),
    }
}

/// After probing a local branch (`main` or `master`): if it exists it is
/// the base branch; after `main` comes `master`; after `master`, nothing.
pub fn after_local_branch(probe: BaseBranchProbe, exists: bool) -> (r: BaseBranchStep)
    requires
        probe == BaseBranchProbe::LocalMain || probe == BaseBranchProbe::LocalMaster,
    ensures
        probe == BaseBranchProbe::LocalMain && exists ==> (r matches BaseBranchStep::Found(b) && b@
            == "main"@),
        probe == BaseBranchProbe::LocalMain && !exists ==> r == BaseBranchStep::Next(
            BaseBranchProbe::LocalMaster,
        ),
        probe == BaseBranchProbe::LocalMaster && exists ==> (r matches BaseBranchStep::Found(b)
            && b@ == "master"@),
        probe == BaseBranchProbe::LocalMaster && !exists ==> r == BaseBranchStep::NotFound,
{
    match probe {
        BaseBranchProbe::LocalMain => if exists {
            BaseBranchStep::Found(copy_str("main"))
        } else {
            BaseBranchStep::Next(BaseBranchProbe::LocalMaster)
        },
        _ => if exists {
            BaseBranchStep::Found(copy_str("master"))
        } else {
            BaseBranchStep::NotFound
        },
    }
}

/// Which commit ids are accepted: exactly the non-empty texts made only of
/// the digits `0`-`9` and the lowercase letters `a`-`z`, whatever their
/// length; so two accepted ids joined are accepted too, and an accepted id
/// stays accepted when one more such character is added.
pub proof fn lemma_commit_id_accepted(s: Seq<char>, t: Seq<char>, c: char)
    ensures
        is_commit_id(s) <==> (s.len() > 0 && forall|i: int|
            0 <= i < s.len() ==> ('0' <= #[trigger] s[i] <= '9' || 'a' <= s[i] <= 'z')),
        is_commit_id(s) && is_commit_id(t) ==> is_commit_id(s + t),
        is_commit_id(s) && ('0' <= c <= '9' || 'a' <= c <= 'z') ==> is_commit_id(s.push(c)),
        ('0' <= c <= '9' || 'a' <= c <= 'z') <==> is_commit_id(seq![c]),
{
    if is_commit_id(s) && is_commit_id(t) {
        assert forall|i: int| 0 <= i < (s + t).len() implies is_commit_id_char(#[trigger] (s + t)[i]) by {
            if i < s.len() {
                assert((s + t)[i] == s[i]);
            } else {
                assert((s + t)[i] == t[i - s.len()]);
            }
        }
    }
    if is_commit_id(s) && ('0' <= c <= '9' || 'a' <= c <= 'z') {
        assert forall|i: int| 0 <= i < s.push(c).len() implies is_commit_id_char(#[trigger] s.push(c)[i]) by {
            if i < s.len() {
                assert(s.push(c)[i] == s[i]);
            }
        }
    }
    assert(seq![c][0] == c);
}

} // verus!
