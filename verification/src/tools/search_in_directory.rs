use vstd::prelude::*;

use crate::text::{decimal, push_char, push_decimal, push_str};
use grep::regex::RegexMatcher;

verus! {

/// The arguments of the `search_in_directory` tool.
#[derive(Debug, Clone, PartialEq, Eq)]
pub struct SearchInDirectoryToolArgs {
    pub subdirectory: Option<String>,
    pub search_pattern: String,
    pub context_lines: Option<usize>,
}

/// A single line reported by the searcher, either a match or a context line.
#[derive(Debug, Clone)]
pub struct SearchLine {
    pub line_number: u64,
    pub is_match: bool,
    pub line: String,
}

/// A search line as plain values.
pub struct SearchLineView {
    pub line_number: u64,
    pub is_match: bool,
    pub line: Seq<char>,
}

impl View for SearchLine {
    type V = SearchLineView;

    open spec fn view(&self) -> SearchLineView {
        SearchLineView { line_number: self.line_number, is_match: self.is_match, line: self.line@ }
    }
}

/// The plain view of a list of search lines.
pub open spec fn lines_view(v: Seq<SearchLine>) -> Seq<SearchLineView> {
    v.map_values(|l: SearchLine| l@)
}

/// The first position at or after `from` of a line numbered `n`, or -1.
pub open spec fn first_line_at(s: Seq<SearchLineView>, n: u64, from: int) -> int
    decreases s.len() - from,
{
    if from < 0 || from >= s.len() {
        -1
    } else if s[from].line_number == n {
        from
    } else {
        first_line_at(s, n, from + 1)
    }
}

/// Whether some line numbered `n` is a match.
pub open spec fn any_match(s: Seq<SearchLineView>, n: u64) -> bool {
    exists|k: int| 0 <= k < s.len() && #[trigger] s[k].line_number == n && s[k].is_match
}

/// `r` holds one line per line number of `s`, by increasing number; each
/// keeps the text of the first line of `s` with its number, and is a match
/// when any line of `s` with that number is.
pub open spec fn is_merged(s: Seq<SearchLineView>, r: Seq<SearchLineView>) -> bool {
    &&& forall|i: int, j: int| 0 <= i < j < r.len() ==> r[i].line_number < r[j].line_number
    &&& forall|k: int|
        0 <= k < s.len() ==> exists|i: int|
            0 <= i < r.len() && r[i].line_number == #[trigger] s[k].line_number
    &&& forall|i: int|
        0 <= i < r.len() ==> {
            let f = first_line_at(s, #[trigger] r[i].line_number, 0);
            &&& 0 <= f < s.len()
            &&& r[i].line == s[f].line
            &&& r[i].is_match == any_match(s, r[i].line_number)
        }
}

/// Where a line numbered `n` first occurs in `s.push(x)`.
proof fn lemma_first_line_push(s: Seq<SearchLineView>, x: SearchLineView, n: u64, from: int)
    requires
        0 <= from <= s.len(),
    ensures
        first_line_at(s.push(x), n, from) == if first_line_at(s, n, from) >= 0 {
            first_line_at(s, n, from)
        } else if x.line_number == n {
            s.len() as int
        } else {
            -1
        },
        first_line_at(s, n, from) >= 0 ==> from <= first_line_at(s, n, from) < s.len()
            && s[first_line_at(s, n, from)].line_number == n,
        first_line_at(s, n, from) < 0 ==> forall|k: int|
            from <= k < s.len() ==> #[trigger] s[k].line_number != n,
    decreases s.len() - from,
{
    if from < s.len() {
        assert(s.push(x)[from] == s[from]);
        lemma_first_line_push(s, x, n, from + 1);
    } else {
        assert(s.push(x)[from] == x);
        assert(first_line_at(s.push(x), n, from + 1) == -1);
    }
}

/// Sorts the lines by line number and merges lines with the same number
/// into one, which is a match when any of them is.
pub fn merge_search_lines(lines: Vec<SearchLine>) -> (r: Vec<SearchLine>)
    ensures
        is_merged(lines_view(lines@), lines_view(r@)),
{
    let ghost s = lines_view(lines@);
    let n = lines.len();
    let mut rest = lines;
    let mut out: Vec<SearchLine> = Vec::new();
    let mut k: usize = 0;
    assert(s.take(0) =~= Seq::<SearchLineView>::empty());
    while k < n
        invariant
            n == s.len(),
            k <= n,
            lines_view(rest@) == s.skip(k as int),
            rest@.len() == n - k,
            is_merged(s.take(k as int), lines_view(out@)),
        decreases n - k,
    {
        let ghost pre = s.take(k as int);
        let ghost ov = lines_view(out@);
        let ghost old_rest = rest@;
        let x = rest.remove(0);
        assert forall|i: int| 0 <= i < rest@.len() implies #[trigger] lines_view(rest@)[i] == s.skip(
            k + 1,
        )[i] by {
            assert(rest@[i] == old_rest[i + 1]);
            assert(lines_view(old_rest)[i + 1] == s.skip(k as int)[i + 1]);
        }
        assert(lines_view(rest@) =~= s.skip(k + 1));
        assert(x@ == s[k as int]) by {
            assert(s.skip(k as int)[0] == s[k as int]);
            assert(lines_view(old_rest)[0] == x@);
        }
        assert(s.take(k + 1) =~= pre.push(x@));
        let mut j: usize = 0;
        while j < out.len() && out[j].line_number < x.line_number
            invariant
                j <= out@.len(),
                ov == lines_view(out@),
                forall|i: int| 0 <= i < j ==> (#[trigger] ov[i]).line_number < x.line_number,
            decreases out.len() - j,
        {
            j = j + 1;
        }
        if j < out.len() && out[j].line_number == x.line_number {
            if x.is_match {
                out[j].is_match = true;
            }
            proof {
                let nv = lines_view(out@);
                let post = pre.push(x@);
                assert(nv =~= ov.update(
                    j as int,
                    SearchLineView { is_match: ov[j as int].is_match || x.is_match, ..ov[j as int] },
                ));
                assert forall|i: int| 0 <= i < nv.len() implies {
                    let f = first_line_at(post, #[trigger] nv[i].line_number, 0);
                    &&& 0 <= f < post.len()
                    &&& nv[i].line == post[f].line
                    &&& nv[i].is_match == any_match(post, nv[i].line_number)
                } by {
                    let m = nv[i].line_number;
                    assert(ov[i].line_number == m);
                    assert(post[pre.len() as int] == x@);
                    if i != j {
                        assert(nv[i] == ov[i]);
                        if i < j {
                            assert(ov[i].line_number < ov[j as int].line_number);
                        } else {
                            assert(ov[j as int].line_number < ov[i].line_number);
                        }
                    }
                    lemma_first_line_push(pre, x@, m, 0);
                    let f = first_line_at(pre, m, 0);
                    assert(post[f] == pre[f]);
                    if any_match(pre, m) {
                        let w = choose|w: int| 0 <= w < pre.len() && #[trigger] pre[w].line_number == m && pre[w].is_match;
                        assert(post[w] == pre[w]);
                        assert(post[w].line_number == m && post[w].is_match);
                    }
                    if any_match(post, m) {
                        let w = choose|w: int| 0 <= w < post.len() && #[trigger] post[w].line_number == m && post[w].is_match;
                        if w < pre.len() {
                            assert(post[w] == pre[w]);
                        }
                    }
                    if x.is_match && x.line_number == m {
                        assert(post[pre.len() as int].line_number == m && post[pre.len() as int].is_match);
                    }
                }
                assert forall|q: int| 0 <= q < post.len() implies exists|i: int|
                    0 <= i < nv.len() && nv[i].line_number == #[trigger] post[q].line_number by {
                    if q < pre.len() {
                        assert(post[q] == pre[q]);
                        let i = choose|i: int| 0 <= i < ov.len() && ov[i].line_number == pre[q].line_number;
                        assert(nv[i].line_number == ov[i].line_number);
                    } else {
                        assert(nv[j as int].line_number == post[q].line_number);
                    }
                }
            }
        } else {
            let ghost xv = x@;
            out.insert(j, x);
            proof {
                let nv = lines_view(out@);
                let post = pre.push(xv);
                assert(nv =~= ov.insert(j as int, xv));
                lemma_first_line_push(pre, xv, xv.line_number, 0);
                assert(first_line_at(pre, xv.line_number, 0) < 0) by {
                    if first_line_at(pre, xv.line_number, 0) >= 0 {
                        let f = first_line_at(pre, xv.line_number, 0);
                        let i = choose|i: int| 0 <= i < ov.len() && ov[i].line_number == #[trigger] pre[f].line_number;
                        if i < j {
                        } else if i == j {
                        } else {
                            assert(ov[j as int].line_number < ov[i].line_number);
                        }
                    }
                }
                assert(post[pre.len() as int] == xv);
                assert forall|i: int| 0 <= i < nv.len() implies {
                    let f = first_line_at(post, #[trigger] nv[i].line_number, 0);
                    &&& 0 <= f < post.len()
                    &&& nv[i].line == post[f].line
                    &&& nv[i].is_match == any_match(post, nv[i].line_number)
                } by {
                    let m = nv[i].line_number;
                    lemma_first_line_push(pre, xv, m, 0);
                    if i == j {
                        if any_match(pre, m) {
                            let w = choose|w: int| 0 <= w < pre.len() && #[trigger] pre[w].line_number == m && pre[w].is_match;
                        }
                        if any_match(post, m) {
                            let w = choose|w: int| 0 <= w < post.len() && #[trigger] post[w].line_number == m && post[w].is_match;
                            if w < pre.len() {
                                assert(post[w] == pre[w]);
                            }
                        }
                    } else {
                        let oi = if i < j { i } else { i - 1 };
                        assert(nv[i] == ov[oi]);
                        assert(m != xv.line_number);
                        let f = first_line_at(pre, m, 0);
                        assert(post[f] == pre[f]);
                        if any_match(pre, m) {
                            let w = choose|w: int| 0 <= w < pre.len() && #[trigger] pre[w].line_number == m && pre[w].is_match;
                            assert(post[w] == pre[w]);
                        }
                        if any_match(post, m) {
                            let w = choose|w: int| 0 <= w < post.len() && #[trigger] post[w].line_number == m && post[w].is_match;
                            assert(w < pre.len());
                            assert(post[w] == pre[w]);
                        }
                    }
                }
                assert forall|q: int| 0 <= q < post.len() implies exists|i: int|
                    0 <= i < nv.len() && nv[i].line_number == #[trigger] post[q].line_number by {
                    if q < pre.len() {
                        assert(post[q] == pre[q]);
                        let i = choose|i: int| 0 <= i < ov.len() && ov[i].line_number == pre[q].line_number;
                        if i < j {
                            assert(nv[i] == ov[i]);
                        } else {
                            assert(nv[i + 1] == ov[i]);
                        }
                    } else {
                        assert(nv[j as int] == xv);
                    }
                }
                assert forall|a: int, b: int| 0 <= a < b < nv.len() implies nv[a].line_number
                    < nv[b].line_number by {
                    if b < j {
                        assert(nv[a] == ov[a] && nv[b] == ov[b]);
                    } else if b == j {
                        assert(nv[a] == ov[a]);
                    } else if a < j {
                        assert(nv[a] == ov[a] && nv[b] == ov[b - 1]);
                        assert(ov[j as int].line_number > xv.line_number);
                    } else if a == j {
                        assert(nv[b] == ov[b - 1]);
                        assert(ov[j as int].line_number > xv.line_number);
                    } else {
                        assert(nv[a] == ov[a - 1] && nv[b] == ov[b - 1]);
                    }
                }
            }
        }
        k = k + 1;
    }
    assert(s.take(n as int) =~= s);
    out
}

/// How one search line is reported: its number, `:` for a match or `-` for
/// a context line, a space, then the line as read (with its terminator).
pub open spec fn line_text(l: SearchLineView) -> Seq<char> {
    decimal(l.line_number as nat).push(if l.is_match { ':' } else { '-' }).push(' ') + l.line
}

/// The report of a list of lines.
pub open spec fn lines_text(ls: Seq<SearchLineView>) -> Seq<char>
    decreases ls.len(),
{
    if ls.len() == 0 {
        Seq::empty()
    } else {
        lines_text(ls.drop_last()) + line_text(ls.last())
    }
}

/// The report of one file: its name and a colon on a line, its lines, then
/// an empty line.
pub open spec fn file_block(file: Seq<char>, ls: Seq<SearchLineView>) -> Seq<char> {
    (file.push(':').push('\n') + lines_text(ls)).push('\n')
}

/// The results as plain values.
pub open spec fn results_view(v: Seq<(String, Vec<SearchLine>)>) -> Seq<(Seq<char>, Seq<SearchLineView>)> {
    v.map_values(|e: (String, Vec<SearchLine>)| (e.0@, lines_view(e.1@)))
}

/// The report of the results of a search, file by file in the given order.
pub open spec fn search_report(files: Seq<(Seq<char>, Seq<SearchLineView>)>) -> Seq<char>
    decreases files.len(),
{
    if files.len() == 0 {
        Seq::empty()
    } else {
        search_report(files.drop_last()) + file_block(files.last().0, files.last().1)
    }
}

/// Formats search results like ripgrep: each file's name, then its lines
/// as `17- context` or `18: match`.
pub fn format_search_results(results: &Vec<(String, Vec<SearchLine>)>) -> (r: String)
    ensures
        r@ == search_report(results_view(results@)),
{
    let ghost rv = results_view(results@);
    let mut output = String::new();
    let mut i: usize = 0;
    assert(rv.take(0) =~= Seq::<(Seq<char>, Seq<SearchLineView>)>::empty());
    while i < results.len()
        invariant
            i <= results@.len(),
            rv == results_view(results@),
            output@ == search_report(rv.take(i as int)),
        decreases results.len() - i,
    {
        let ghost before = output@;
        let file = &results[i].0;
        let lines = &results[i].1;
        assert(rv[i as int] == (file@, lines_view(lines@)));
        push_str(&mut output, file.as_str());
        push_char(&mut output, ':');
        push_char(&mut output, '\n');
        let ghost head = output@;
        let ghost lv = lines_view(lines@);
        let mut j: usize = 0;
        assert(lv.take(0) =~= Seq::<SearchLineView>::empty());
        assert(head =~= head + lines_text(lv.take(0)));
        while j < lines.len()
            invariant
                j <= lines@.len(),
                lv == lines_view(lines@),
                output@ == head + lines_text(lv.take(j as int)),
            decreases lines.len() - j,
        {
            let l = &lines[j];
            assert(lv[j as int] == l@);
            let ghost mid = output@;
            push_decimal(&mut output, l.line_number as u128);
            push_char(&mut output, if l.is_match { ':' } else { '-' });
            push_char(&mut output, ' ');
            push_str(&mut output, l.line.as_str());
            assert(lv.take(j + 1).drop_last() =~= lv.take(j as int));
            assert(lv.take(j + 1).last() == l@);
            assert(output@ =~= mid + line_text(l@));
            assert(output@ =~= head + lines_text(lv.take(j + 1)));
            j = j + 1;
        }
        assert(lv.take(lines@.len() as int) =~= lv);
        push_char(&mut output, '\n');
        assert(rv.take(i + 1).drop_last() =~= rv.take(i as int));
        assert(rv.take(i + 1).last() == rv[i as int]);
        assert(output@ =~= before + file_block(file@, lv));
        i = i + 1;
    }
    assert(rv.take(results@.len() as int) =~= rv);
    output
}

/// The `search_in_directory` tool.
pub struct SearchInDirectoryTool {}

impl SearchInDirectoryTool {
    pub fn new() -> Self {
        Self {}
    }

    /// The name the model calls the tool by.
    pub fn name(&self) -> (r: &'static str)
        ensures
            r@ == "search_in_directory"@,
    {
        "search_in_directory"
    }

    /// What the tool does, for the model.
    pub fn description(&self) -> (r: &'static str)
        ensures
            r@ == "Search for a pattern in the current directory."@,
    {
        "Search for a pattern in the current directory."
    }

    /// The parameters the model must pass.
    pub fn required_parameters(&self) -> (r: Vec<&'static str>)
        ensures
            r@.len() == 1,
            r@[0]@ == "search_pattern"@,
    {
        let mut v = Vec::new();
        v.push("search_pattern");
        v
    }
}

/// A compiled search pattern, as the searcher uses it.
#[verifier::external_type_specification]
#[verifier::external_body]
pub struct ExRegexMatcher(RegexMatcher);

/// Why a search pattern does not compile (`None` when it does): the
/// message of the error that `RegexMatcher::new` returns for it.
pub uninterp spec fn pattern_error(pattern: Seq<char>) -> Option<Seq<char>>;

/// Calls `grep::regex::RegexMatcher::new`, which compiles the pattern with
/// the default configuration. Claimed: it succeeds exactly when
/// `pattern_error` is `None`, and otherwise fails with that message (the
/// error's `Display` text). Which patterns compile is left to the name.
#[verifier::external_body]
fn regex_matcher(pattern: &str) -> (r: Result<RegexMatcher, String>)
    ensures
        match r {
            Ok(_) => pattern_error(pattern@) is None,
            Err(m) => pattern_error(pattern@) == Some(m@),
        },
{
    match RegexMatcher::new(pattern) {
        Ok(m) => Ok(m),
        Err(e) => Err(e.to_string()),
    }
}

/// Compiles a search pattern; on failure, the message of the pattern error.
pub fn compile_search_pattern(pattern: &str) -> (r: Result<RegexMatcher, String>)
    ensures
        r is Ok <==> pattern_error(pattern@) is None,
        r matches Err(m) ==> pattern_error(pattern@) == Some(m@),
{
    regex_matcher(pattern)
}

} // verus!
