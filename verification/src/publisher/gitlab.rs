use vstd::prelude::*;

use crate::config::{all_digits, is_digit};
use crate::text::{
    copy_str, from_char_range, index_of_from, is_blank, is_blank_str, lemma_index_of_from,
    push_char, push_str, to_chars, trim, trim_end_char, trim_end_matches_char, trimmed,
};
use crate::utils::conversion::{tokens_text, tokens_to_human_readable};
use crate::headers::{header_value, is_header_text};
use reqwest::header::HeaderValue;

verus! {

/// The GitLab API used when `CI_API_V4_URL` is not set.
pub const DEFAULT_API_BASE: &'static str = "https://gitlab.com/api/v4";

/// The part of `s` before the first `c` (all of `s` when there is none).
pub open spec fn before_char(s: Seq<char>, c: char) -> Seq<char> {
    let i = index_of_from(s, c, 0);
    if i < 0 {
        s
    } else {
        s.take(i)
    }
}

/// The second of the fields of `s` separated by `c`, if there are two.
pub open spec fn second_field(s: Seq<char>, c: char) -> Option<Seq<char>> {
    let i = index_of_from(s, c, 0);
    if i < 0 {
        None
    } else {
        Some(before_char(s.skip(i + 1), c))
    }
}

/// The merge request to comment on: `CI_MERGE_REQUEST_IID` unless it is
/// unset or blank; otherwise, from `CI_OPEN_MERGE_REQUESTS` (a comma
/// separated list of `path!iid`), the iid of the first entry, trimmed, when
/// it is a non-empty string of ASCII digits.
pub open spec fn merge_request_iid_of(iid: Option<Seq<char>>, open_list: Option<Seq<char>>) -> Option<Seq<char>> {
    if iid is Some && !is_blank(iid->0) {
        iid
    } else {
        match open_list {
            Some(list) => match second_field(before_char(list, ','), '!') {
                Some(f) => {
                    let t = trim(f);
                    if t.len() > 0 && all_digits(t) {
                        Some(t)
                    } else {
                        None
                    }
                },
                None => None,
            },
            None => None,
        }
    }
}

/// Where the first `c` of `v[from..to]` is, or `to` when there is none.
fn find_in_range(v: &Vec<char>, c: char, from: usize, to: usize) -> (r: usize)
    requires
        from <= to <= v.len(),
    ensures
        from <= r <= to,
        index_of_from(v@.subrange(from as int, to as int), c, 0) == if r < to {
            r - from
        } else {
            -1
        },
        v@.subrange(from as int, r as int) == before_char(v@.subrange(from as int, to as int), c),
{
    let ghost s = v@.subrange(from as int, to as int);
    let mut i = from;
    while i < to && v[i] != c
        invariant
            from <= i <= to,
            to <= v.len(),
            s == v@.subrange(from as int, to as int),
            forall|k: int| from <= k < i ==> v@[k] != c,
        decreases to - i,
    {
        i = i + 1;
    }
    proof {
        lemma_index_of_from(s, c, 0);
        let j = index_of_from(s, c, 0);
        if i < to {
            assert(s[i - from] == c);
            if j != i - from {
                if j == -1 {
                } else if j < i - from {
                    assert(s[j] == v@[j + from]);
                }
            }
            assert(s.take(i - from) =~= v@.subrange(from as int, i as int));
        } else {
            if j != -1 {
                assert(s[j] == v@[j + from]);
            }
            assert(s =~= v@.subrange(from as int, i as int));
        }
    }
    i
}

/// Whether every character of `s` is an ASCII digit.
fn all_ascii_digits(s: &str) -> (b: bool)
    ensures
        b == all_digits(s@),
{
    let v = to_chars(s);
    let mut i: usize = 0;
    while i < v.len()
        invariant
            i <= v.len(),
            v@ == s@,
            forall|k: int| 0 <= k < i ==> is_digit(#[trigger] v@[k]),
        decreases v.len() - i,
    {
        if !('0' <= v[i] && v[i] <= '9') {
            return false;
        }
        i = i + 1;
    }
    true
}

/// Picks the merge request iid from the two CI variables (see
/// `merge_request_iid_of`).
pub fn merge_request_iid(iid: Option<String>, open_list: Option<String>) -> (r: Option<String>)
    ensures
        (match r {
            Some(s) => Some(s@),
            None => None,
        }) == merge_request_iid_of(
            match iid {
                Some(s) => Some(s@),
                None => None,
            },
            match open_list {
                Some(s) => Some(s@),
                None => None,
            },
        ),
{
    match iid {
        Some(s) => {
            if !is_blank_str(s.as_str()) {
                return Some(s);
            }
        },
        None => {},
    }
    let list = match open_list {
        Some(l) => l,
        None => return None,
    };
    let v = to_chars(list.as_str());
    let n = v.len();
    assert(v@.subrange(0, n as int) =~= list@);
    let first_end = find_in_range(&v, ',', 0, n);
    let ghost first = v@.subrange(0, first_end as int);
    let bang = find_in_range(&v, '!', 0, first_end);
    if bang == first_end {
        return None;
    }
    let end2 = find_in_range(&v, '!', bang + 1, first_end);
    assert(first.skip(bang + 1) =~= v@.subrange(bang + 1, first_end as int));
    let seg = from_char_range(v.as_slice(), bang + 1, end2);
    let t = trimmed(seg.as_str());
    if to_chars(t.as_str()).len() > 0 && all_ascii_digits(t.as_str()) {
        Some(t)
    } else {
        None
    }
}

/// The API base: `CI_API_V4_URL` unless it is unset or empty, else
/// `DEFAULT_API_BASE`; without trailing slashes.
pub open spec fn api_base_of(api_url: Option<Seq<char>>) -> Seq<char> {
    let base = match api_url {
        Some(u) => if u.len() > 0 {
            u
        } else {
            DEFAULT_API_BASE@
        },
        None => DEFAULT_API_BASE@,
    };
    trim_end_char(base, '/')
}

/// Picks the API base from `CI_API_V4_URL` (see `api_base_of`).
pub fn api_base(api_url: Option<String>) -> (r: String)
    ensures
        r@ == api_base_of(
            match api_url {
                Some(s) => Some(s@),
                None => None,
            },
        ),
{
    let base = match api_url {
        Some(u) => if to_chars(u.as_str()).len() > 0 {
            u
        } else {
            copy_str(DEFAULT_API_BASE)
        },
        None => copy_str(DEFAULT_API_BASE),
    };
    trim_end_matches_char(base.as_str(), '/')
}

/// Where a review is posted: the API base, the project and the merge
/// request.
#[derive(Debug, Clone, PartialEq, Eq)]
pub struct GitlabTarget {
    pub api_base: String,
    pub project_id: String,
    pub mr_iid: String,
}

impl GitlabTarget {
    /// The target named by the CI variables `CI_PROJECT_ID`,
    /// `CI_MERGE_REQUEST_IID`, `CI_OPEN_MERGE_REQUESTS` and `CI_API_V4_URL`;
    /// `None` (posting disabled) without a project or a merge request.
    pub fn from_ci(
        project_id: Option<String>,
        iid: Option<String>,
        open_list: Option<String>,
        api_url: Option<String>,
    ) -> (r: Option<Self>)
        ensures
            r is Some <==> project_id is Some && merge_request_iid_of(
                match iid {
                    Some(s) => Some(s@),
                    None => None,
                },
                match open_list {
                    Some(s) => Some(s@),
                    None => None,
                },
            ) is Some,
            r matches Some(t) ==> {
                &&& t.project_id@ == project_id->0@
                &&& Some(t.mr_iid@) == merge_request_iid_of(
                    match iid {
                        Some(s) => Some(s@),
                        None => None,
                    },
                    match open_list {
                        Some(s) => Some(s@),
                        None => None,
                    },
                )
                &&& t.api_base@ == api_base_of(
                    match api_url {
                        Some(s) => Some(s@),
                        None => None,
                    },
                )
            },
    {
        let mr = merge_request_iid(iid, open_list);
        match (project_id, mr) {
            (Some(project_id), Some(mr_iid)) => {
                Some(GitlabTarget { api_base: api_base(api_url), project_id, mr_iid })
            },
            _ => None,
        }
    }

    /// The URL that notes on the merge request are posted to.
    pub fn notes_url(&self) -> (r: String)
        ensures
            r@ == self.api_base@ + "/projects/"@ + self.project_id@ + "/merge_requests/"@
                + self.mr_iid@ + "/notes"@,
    {
        let mut r = copy_str(self.api_base.as_str());
        push_str(&mut r, "/projects/");
        push_str(&mut r, self.project_id.as_str());
        push_str(&mut r, "/merge_requests/");
        push_str(&mut r, self.mr_iid.as_str());
        push_str(&mut r, "/notes");
        r
    }
}

/// What a refused GitLab setup is reported as.
#[derive(Debug, Clone, PartialEq, Eq)]
pub enum GitlabError {
    /// The token cannot stand in an HTTP header.
    InvalidToken,
}

impl GitlabError {
    /// The message reported for this error.
    pub fn message(&self) -> (m: String)
        ensures
            m@ == "Failed to parse GitLab token into header value"@,
    {
        copy_str("Failed to parse GitLab token into header value")
    }
}

/// The `PRIVATE-TOKEN` header for a GitLab token, as a header value and as
/// text (the token itself); refused when the token holds a byte that a
/// header cannot.
pub fn token_header(token: &str) -> (r: Result<(HeaderValue, String), GitlabError>)
    ensures
        r is Ok <==> is_header_text(token@),
        r matches Ok((_, text)) ==> text@ == token@,
        r is Err ==> r == Err::<(HeaderValue, String), GitlabError>(GitlabError::InvalidToken),
{
    match header_value(token) {
        Some(v) => Ok((v, copy_str(token))),
        None => Err(GitlabError::InvalidToken),
    }
}

/// One provider's row of the telemetry summary; the cost is already
/// printed (to six decimals).
#[derive(Debug, Clone, PartialEq, Eq)]
pub struct TelemetryRow {
    pub provider: String,
    pub prompt_tokens: u32,
    pub completion_tokens: u32,
    pub cost: String,
}

/// The markdown line of one row.
pub open spec fn row_text(r: TelemetryRow) -> Seq<char> {
    "- **"@ + r.provider@ + "**: Prompt tokens: "@ + tokens_text(r.prompt_tokens as nat)
        + ", Completion tokens: "@ + tokens_text(r.completion_tokens as nat)
        + ", Total tokens: "@ + tokens_text((r.prompt_tokens + r.completion_tokens) as nat) + ", Total cost: $"@
        + r.cost@ + "\n"@
}

/// The rows' lines, in order.
pub open spec fn rows_text(rows: Seq<TelemetryRow>) -> Seq<char>
    decreases rows.len(),
{
    if rows.len() == 0 {
        Seq::empty()
    } else {
        rows_text(rows.drop_last()) + row_text(rows.last())
    }
}

/// The footer of a posted review: a rule, a heading, then one line per
/// provider.
pub open spec fn summary_text(rows: Seq<TelemetryRow>) -> Seq<char> {
    "\n\n---\n\n"@ + "### Telemetry\n\n"@ + rows_text(rows)
}

/// Generates the markdown footer that summarizes the telemetry: token
/// usage and cost per provider, in the order of `rows` (by provider name,
/// as `Telemetry::sorted_entries` gives them).
pub fn generate_summary_from_telemetry(rows: &Vec<TelemetryRow>) -> (r: String)
    requires
        forall|i: int|
            0 <= i < rows@.len() ==> #[trigger] rows@[i].prompt_tokens + rows@[i].completion_tokens
                <= u32::MAX,
    ensures
        r@ == summary_text(rows@),
{
    let mut out = copy_str("\n\n---\n\n");
    push_str(&mut out, "### Telemetry\n\n");
    let ghost head = out@;
    let mut i: usize = 0;
    assert(rows@.take(0) =~= Seq::<TelemetryRow>::empty());
    while i < rows.len()
        invariant
            i <= rows@.len(),
            head == "\n\n---\n\n"@ + "### Telemetry\n\n"@,
            out@ == head + rows_text(rows@.take(i as int)),
            forall|k: int|
                0 <= k < rows@.len() ==> #[trigger] rows@[k].prompt_tokens + rows@[k].completion_tokens
                    <= u32::MAX,
        decreases rows.len() - i,
    {
        let row = &rows[i];
        let ghost before = out@;
        assert(row.prompt_tokens + row.completion_tokens <= u32::MAX);
        push_str(&mut out, "- **");
        push_str(&mut out, row.provider.as_str());
        push_str(&mut out, "**: Prompt tokens: ");
        let a = tokens_to_human_readable(row.prompt_tokens);
        push_str(&mut out, a.as_str());
        push_str(&mut out, ", Completion tokens: ");
        let b = tokens_to_human_readable(row.completion_tokens);
        push_str(&mut out, b.as_str());
        push_str(&mut out, ", Total tokens: ");
        let c = tokens_to_human_readable(row.prompt_tokens + row.completion_tokens);
        push_str(&mut out, c.as_str());
        push_str(&mut out, ", Total cost: $");
        push_str(&mut out, row.cost.as_str());
        push_str(&mut out, "\n");
        assert(out@ =~= before + row_text(*row));
        assert(rows@.take(i + 1).drop_last() =~= rows@.take(i as int));
        assert(rows@.take(i + 1).last() == *row);
        i = i + 1;
    }
    assert(rows@.take(rows@.len() as int) =~= rows@);
    out
}

/// The body of the note: the review, a newline, then the footer.
pub fn review_body(review: &str, summary: &str) -> (r: String)
    ensures
        r@ == review@.push('\n') + summary@,
{
    let mut r = copy_str(review);
    push_char(&mut r, '\n');
    push_str(&mut r, summary);
    r
}

} // verus!
