use vstd::prelude::*;

use crate::text::{
    copy_str, decimal, decimal_string, join, join_strings, pad_left, push_decimal,
    push_padded_left, push_str, texts,
};

verus! {

/// The arguments of the `read_file` tool.
#[derive(Debug, Clone, PartialEq, Eq)]
pub struct ReadFileToolArgs {
    pub file: String,
    pub start_line: Option<usize>,
    pub end_line: Option<usize>,
}

/// Read the contents of a specific file, whole or a range of lines.
pub struct ReadFileTool {}

impl ReadFileTool {
    pub fn new() -> Self {
        Self {  }
    }

    /// The name the model calls the tool by.
    pub fn name(&self) -> (r: &'static str)
        ensures
            r@ == "read_file"@,
    {
        "read_file"
    }

    /// What the tool does, for the model.
    pub fn description(&self) -> (r: &'static str)
        ensures
            r@ == "Read the contents of a specific file. Allows either reading the entire file or a specific range of lines (1-based, inclusive). Each returned line is prefixed with its line number so you can orient yourself."@,
    {
        "Read the contents of a specific file. Allows either reading the entire file or a specific range of lines (1-based, inclusive). Each returned line is prefixed with its line number so you can orient yourself."
    }

    /// The parameters the model must pass.
    pub fn required_parameters(&self) -> (r: Vec<&'static str>)
        ensures
            r@.len() == 1,
            r@[0]@ == "file"@,
    {
        let mut v = Vec::new();
        v.push("file");
        v
    }
}

/// Files larger than this many bytes are refused.
pub const MAX_FILE_BYTES: u64 = 1000000;

/// Why `read_file` refused a request.
#[derive(Debug, Clone, PartialEq, Eq)]
pub enum ReadFileError {
    /// The file does not exist.
    NotFound(String),
    /// The file is ignored by a `.gitignore`.
    Ignored(String),
    /// The file resolves outside the current directory.
    OutsideBoundary(String),
    /// The path is a directory.
    IsDirectory(String),
    /// The file is larger than 1 MB: its name and size.
    TooLarge(String, u64),
    /// `start_line` was 0.
    StartLineZero,
    /// `end_line` was 0.
    EndLineZero,
    /// `end_line` came before `start_line`: the end and the start.
    EndBeforeStart(usize, usize),
    /// `start_line` is past the last line: the file, its line count, the start.
    StartOutOfRange(String, usize, usize),
}

/// The message of a `read_file` error.
pub open spec fn read_file_error_text(e: ReadFileError) -> Seq<char> {
    match e {
        ReadFileError::NotFound(f) => "The file '"@ + f@ + "' does not exist."@,
        ReadFileError::Ignored(f) => "The file '"@ + f@ + "' is ignored by .gitignore."@,
        ReadFileError::OutsideBoundary(f) => "The file '"@ + f@
            + "' is outside of the current directory boundary."@,
        ReadFileError::IsDirectory(f) => "The path '"@ + f@ + "' is a directory, not a file."@,
        ReadFileError::TooLarge(f, n) => "The file '"@ + f@ + "' is too large ("@ + decimal(
            n as nat,
        ) + " bytes). Maximum allowed size is 1MB."@,
        ReadFileError::StartLineZero => "start_line must be >= 1."@,
        ReadFileError::EndLineZero => "end_line must be >= 1."@,
        ReadFileError::EndBeforeStart(e, s) => "end_line ("@ + decimal(e as nat)
            + ") must be >= start_line ("@ + decimal(s as nat) + ")."@,
        ReadFileError::StartOutOfRange(f, total, s) => "The file '"@ + f@ + "' has "@ + decimal(
            total as nat,
        ) + " line(s). start_line "@ + decimal(s as nat) + " is out of range."@,
    }
}

impl ReadFileError {
    /// The message reported for this error.
    pub fn message(&self) -> (m: String)
        ensures
            m@ == read_file_error_text(*self),
    {
        match self {
            ReadFileError::NotFound(f) => {
                let mut m = copy_str("The file '");
                push_str(&mut m, f.as_str());
                push_str(&mut m, "' does not exist.");
                m
            },
            ReadFileError::Ignored(f) => {
                let mut m = copy_str("The file '");
                push_str(&mut m, f.as_str());
                push_str(&mut m, "' is ignored by .gitignore.");
                m
            },
            ReadFileError::OutsideBoundary(f) => {
                let mut m = copy_str("The file '");
                push_str(&mut m, f.as_str());
                push_str(&mut m, "' is outside of the current directory boundary.");
                m
            },
            ReadFileError::IsDirectory(f) => {
                let mut m = copy_str("The path '");
                push_str(&mut m, f.as_str());
                push_str(&mut m, "' is a directory, not a file.");
                m
            },
            ReadFileError::TooLarge(f, n) => {
                let mut m = copy_str("The file '");
                push_str(&mut m, f.as_str());
                push_str(&mut m, "' is too large (");
                push_decimal(&mut m, *n as u128);
                push_str(&mut m, " bytes). Maximum allowed size is 1MB.");
                m
            },
            ReadFileError::StartLineZero => copy_str("start_line must be >= 1."),
            ReadFileError::EndLineZero => copy_str("end_line must be >= 1."),
            ReadFileError::EndBeforeStart(e, s) => {
                let mut m = copy_str("end_line (");
                push_decimal(&mut m, *e as u128);
                push_str(&mut m, ") must be >= start_line (");
                push_decimal(&mut m, *s as u128);
                push_str(&mut m, ").");
                m
            },
            ReadFileError::StartOutOfRange(f, total, s) => {
                let mut m = copy_str("The file '");
                push_str(&mut m, f.as_str());
                push_str(&mut m, "' has ");
                push_decimal(&mut m, *total as u128);
                push_str(&mut m, " line(s). start_line ");
                push_decimal(&mut m, *s as u128);
                push_str(&mut m, " is out of range.");
                m
            },
        }
    }
}

/// The checks on the path, in the order they are made.
#[derive(Debug, Clone, Copy, PartialEq, Eq, Structural)]
pub enum PathCheck {
    /// The file exists.
    Exists,
    /// No `.gitignore` excludes it.
    NotIgnored,
    /// It resolves inside the current directory.
    InsideCurrentDir,
    /// It is not a directory.
    NotDirectory,
}

/// After a check on the path: its refusal when it failed, else the next
/// check (`None` after the last one; the size and line checks of
/// `check_request` follow).
pub fn after_path_check(check: PathCheck, passed: bool, file: &str) -> (r: Result<
    Option<PathCheck>,
    ReadFileError,
>)
    ensures
        passed ==> r == Ok::<Option<PathCheck>, ReadFileError>(
            match check {
                PathCheck::Exists => Some(PathCheck::NotIgnored),
                PathCheck::NotIgnored => Some(PathCheck::InsideCurrentDir),
                PathCheck::InsideCurrentDir => Some(PathCheck::NotDirectory),
                PathCheck::NotDirectory => None,
            },
        ),
        !passed ==> match check {
            PathCheck::Exists => r matches Err(ReadFileError::NotFound(f)) && f@ == file@,
            PathCheck::NotIgnored => r matches Err(ReadFileError::Ignored(f)) && f@ == file@,
            PathCheck::InsideCurrentDir => r matches Err(ReadFileError::OutsideBoundary(f)) && f@
                == file@,
            PathCheck::NotDirectory => r matches Err(ReadFileError::IsDirectory(f)) && f@ == file@,
        },
{
    if passed {
        Ok(
            match check {
                PathCheck::Exists => Some(PathCheck::NotIgnored),
                PathCheck::NotIgnored => Some(PathCheck::InsideCurrentDir),
                PathCheck::InsideCurrentDir => Some(PathCheck::NotDirectory),
                PathCheck::NotDirectory => None,
            },
        )
    } else {
        let f = copy_str(file);
        Err(
            match check {
                PathCheck::Exists => ReadFileError::NotFound(f),
                PathCheck::NotIgnored => ReadFileError::Ignored(f),
                PathCheck::InsideCurrentDir => ReadFileError::OutsideBoundary(f),
                PathCheck::NotDirectory => ReadFileError::IsDirectory(f),
            },
        )
    }
}

/// Checks the request before the file is opened: the size limit first,
/// then the line range (lines are 1-based and inclusive).
pub fn check_request(args: &ReadFileToolArgs, file_len: u64) -> (r: Result<(), ReadFileError>)
    ensures
        file_len > MAX_FILE_BYTES ==> (r matches Err(ReadFileError::TooLarge(f, n)) && f@
            == args.file@ && n == file_len),
        file_len <= MAX_FILE_BYTES && args.start_line == Some(0usize) ==> r == Err::<
            (),
            ReadFileError,
        >(ReadFileError::StartLineZero),
        file_len <= MAX_FILE_BYTES && args.start_line != Some(0usize) && args.end_line == Some(
            0usize,
        ) ==> r == Err::<(), ReadFileError>(ReadFileError::EndLineZero),
        file_len <= MAX_FILE_BYTES && args.start_line != Some(0usize) && args.end_line != Some(
            0usize,
        ) ==> match (args.start_line, args.end_line) {
            (Some(s), Some(e)) => if e < s {
                r == Err::<(), ReadFileError>(ReadFileError::EndBeforeStart(e, s))
            } else {
                r is Ok
            },
            _ => r is Ok,
        },
{
    if file_len > MAX_FILE_BYTES {
        return Err(ReadFileError::TooLarge(args.file.clone(), file_len));
    }
    if args.start_line == Some(0usize) {
        return Err(ReadFileError::StartLineZero);
    }
    if args.end_line == Some(0usize) {
        return Err(ReadFileError::EndLineZero);
    }
    match (args.start_line, args.end_line) {
        (Some(s), Some(e)) => if e < s {
            Err(ReadFileError::EndBeforeStart(e, s))
        } else {
            Ok(())
        },
        _ => Ok(()),
    }
}

/// A line as shown to the model: its number right-aligned in six columns,
/// a colon and a space, then the line.
pub open spec fn numbered_line(no: nat, line: Seq<char>) -> Seq<char> {
    pad_left(decimal(no), 6) + ": "@ + line
}

/// How far a selector has read: the number of lines taken, the kept lines
/// (numbered), and whether reading stopped before the end.
pub struct SelectorState {
    pub line_no: nat,
    pub selected: Seq<Seq<char>>,
    pub stopped: bool,
}

/// The state of a selector.
pub open spec fn selector_state(s: LineSelector) -> SelectorState {
    SelectorState { line_no: s.line_no as nat, selected: texts(s.selected@), stopped: s.stopped_early }
}

/// Taking one more line: a line past `end` stops reading (and is not
/// kept); a line at or after `start` is kept, numbered.
pub open spec fn line_step(start: nat, end: Option<usize>, st: SelectorState, line: Seq<char>) -> SelectorState {
    let no = st.line_no + 1;
    if end is Some && no > end->0 {
        SelectorState { line_no: no, selected: st.selected, stopped: true }
    } else if no >= start {
        SelectorState { line_no: no, selected: st.selected.push(numbered_line(no, line)), stopped: false }
    } else {
        SelectorState { line_no: no, selected: st.selected, stopped: false }
    }
}

/// Taking the lines in order until reading stops.
pub open spec fn feed_lines(start: nat, end: Option<usize>, st: SelectorState, lines: Seq<Seq<char>>) -> SelectorState
    decreases lines.len(),
{
    if lines.len() == 0 || st.stopped {
        st
    } else {
        feed_lines(start, end, line_step(start, end, st, lines[0]), lines.drop_first())
    }
}

/// Lines `from` through `to` (1-based, inclusive) of `lines`, numbered.
pub open spec fn numbered_range(lines: Seq<Seq<char>>, from: nat, to: nat) -> Seq<Seq<char>> {
    Seq::new(
        if to >= from {
            (to - from + 1) as nat
        } else {
            0
        },
        |k: int| numbered_line((from + k) as nat, lines[from + k - 1]),
    )
}

/// The state after the first `m` lines were taken without stopping.
pub open spec fn state_after(lines: Seq<Seq<char>>, first: nat, m: nat) -> SelectorState {
    SelectorState { line_no: m, selected: numbered_range(lines, first, m), stopped: false }
}

/// Feeding lines from the `m`-th on (see `lemma_selection`).
proof fn lemma_feed_from(start: nat, end: Option<usize>, lines: Seq<Seq<char>>, m: nat)
    requires
        m <= lines.len(),
        end matches Some(e) ==> m <= e,
    ensures
        ({
            let first = if start == 0 {
                1
            } else {
                start
            };
            let n = lines.len();
            let r = feed_lines(start, end, state_after(lines, first, m), lines.skip(m as int));
            if end is Some && end->0 < n {
                r == SelectorState {
                    line_no: (end->0 + 1) as nat,
                    selected: numbered_range(lines, first, end->0 as nat),
                    stopped: true,
                }
            } else {
                r == state_after(lines, first, n)
            }
        }),
    decreases lines.len() - m,
{
    let first: nat = if start == 0 {
        1
    } else {
        start
    };
    let n = lines.len();
    let st = state_after(lines, first, m);
    if m == n {
        assert(lines.skip(m as int).len() == 0);
    } else {
        let rest = lines.skip(m as int);
        assert(rest[0] == lines[m as int]);
        assert(rest.drop_first() =~= lines.skip((m + 1) as int));
        let next = line_step(start, end, st, lines[m as int]);
        if end is Some && m + 1 > end->0 {
            assert(feed_lines(start, end, st, rest) == feed_lines(start, end, next, rest.drop_first()));
            assert(next.stopped);
        } else {
            if m + 1 >= first {
                assert(numbered_range(lines, first, m).push(numbered_line((m + 1) as nat, lines[m as int]))
                    =~= numbered_range(lines, first, (m + 1) as nat));
            } else {
                assert(numbered_range(lines, first, (m + 1) as nat) =~= numbered_range(lines, first, m));
            }
            assert(next == state_after(lines, first, (m + 1) as nat));
            lemma_feed_from(start, end, lines, (m + 1) as nat);
        }
    }
}

/// A selector fed the lines of a file keeps exactly the requested lines,
/// numbered: lines `start` (at least 1) through `end`, or through the last
/// line when `end` is absent or past it; reading stops early exactly when
/// `end` comes before the last line.
pub proof fn lemma_selection(start: nat, end: Option<usize>, lines: Seq<Seq<char>>)
    ensures
        ({
            let first = if start == 0 {
                1
            } else {
                start
            };
            let n = lines.len();
            let r = feed_lines(
                start,
                end,
                SelectorState { line_no: 0, selected: Seq::empty(), stopped: false },
                lines,
            );
            if end is Some && end->0 < n {
                &&& r.stopped
                &&& r.line_no == end->0 + 1
                &&& r.selected == numbered_range(lines, first, end->0 as nat)
            } else {
                &&& !r.stopped
                &&& r.line_no == n
                &&& r.selected == numbered_range(lines, first, n)
            }
        }),
{
    let first: nat = if start == 0 {
        1
    } else {
        start
    };
    assert(numbered_range(lines, first, 0) =~= Seq::<Seq<char>>::empty());
    assert(lines.skip(0) =~= lines);
    lemma_feed_from(start, end, lines, 0);
}

/// Picks the requested lines while the file is read line by line.
pub struct LineSelector {
    pub start_line: usize,
    pub end_line: Option<usize>,
    pub selected: Vec<String>,
    pub line_no: usize,
    pub stopped_early: bool,
}

impl LineSelector {
    /// A selector for lines `start_line` (default 1) through `end_line`
    /// (default: the end of the file).
    pub fn new(args: &ReadFileToolArgs) -> (r: Self)
        ensures
            r.start_line == match args.start_line {
                Some(s) => s,
                None => 1,
            },
            r.end_line == args.end_line,
            r.selected@.len() == 0,
            r.line_no == 0,
            !r.stopped_early,
            selector_state(r) == (SelectorState { line_no: 0, selected: Seq::empty(), stopped: false }),
    {
        let r = LineSelector {
            start_line: match args.start_line {
                Some(s) => s,
                None => 1,
            },
            end_line: args.end_line,
            selected: Vec::new(),
            line_no: 0,
            stopped_early: false,
        };
        assert(texts(r.selected@) =~= Seq::<Seq<char>>::empty());
        r
    }

    /// Whether another line can be counted.
    pub fn can_take_line(&self) -> (b: bool)
        ensures
            b == (self.line_no < usize::MAX),
    {
        self.line_no < usize::MAX
    }

    /// Takes the next line of the file. Returns `false` once a line past
    /// the requested range is met (reading stops there); lines in range are
    /// kept, numbered (see `line_step`).
    pub fn on_line(&mut self, line: &str) -> (more: bool)
        requires
            old(self).line_no < usize::MAX,
            !old(self).stopped_early,
        ensures
            selector_state(*final(self)) == line_step(
                old(self).start_line as nat,
                old(self).end_line,
                selector_state(*old(self)),
                line@,
            ),
            final(self).start_line == old(self).start_line,
            final(self).end_line == old(self).end_line,
            more == !final(self).stopped_early,
    {
        self.line_no = self.line_no + 1;
        if let Some(end) = self.end_line {
            if self.line_no > end {
                self.stopped_early = true;
                return false;
            }
        }
        if self.line_no >= self.start_line {
            let mut shown = String::new();
            let number = decimal_string(self.line_no as u128);
            push_padded_left(&mut shown, number.as_str(), 6);
            push_str(&mut shown, ": ");
            push_str(&mut shown, line);
            let ghost before = texts(self.selected@);
            self.selected.push(shown);
            assert(texts(self.selected@) == before.push(shown@));
        }
        true
    }
}

/// The summary shown to the user after a successful read.
pub open spec fn read_summary(
    file: Seq<char>,
    start: nat,
    end: Option<usize>,
    stopped_early: bool,
    total: nat,
) -> Seq<char> {
    if stopped_early {
        "read_file: "@ + file + " (lines "@ + decimal(start) + "-"@ + decimal(
            match end {
                Some(e) => e as nat,
                None => 0,
            },
        ) + ")"@
    } else if total == 0 {
        "read_file: "@ + file + " (empty file)"@
    } else if start == 1 && end is None {
        "read_file: "@ + file + " ("@ + decimal(total) + " lines)"@
    } else {
        let eff = match end {
            Some(e) => if e < total {
                e as nat
            } else {
                total
            },
            None => total,
        };
        "read_file: "@ + file + " (lines "@ + decimal(start) + "-"@ + decimal(eff) + " of "@
            + decimal(total) + ")"@
    }
}

impl LineSelector {
    /// The tool's result once reading has ended: when the end of the file
    /// was reached, a start line beyond the last line (or beyond 1 for an
    /// empty file) is refused; otherwise the selected lines, joined by
    /// newlines, and the summary (see `read_summary`).
    pub fn finish(self, file: &str) -> (r: Result<(String, String), ReadFileError>)
        ensures
            (!self.stopped_early && self.start_line > (if self.line_no > 1 {
                self.line_no
            } else {
                1
            })) ==> (r matches Err(ReadFileError::StartOutOfRange(f, total, s)) && f@ == file@
                && total == self.line_no && s == self.start_line),
            !(!self.stopped_early && self.start_line > (if self.line_no > 1 {
                self.line_no
            } else {
                1
            })) ==> (r matches Ok((out, summary)) && out@ == join(texts(self.selected@), "\n"@)
                && summary@ == read_summary(
                file@,
                self.start_line as nat,
                self.end_line,
                self.stopped_early,
                self.line_no as nat,
            )),
    {
        proof {
            reveal_strlit("read_file: ");
        }
        let total = self.line_no;
        if !self.stopped_early {
            let floor = if total > 1 {
                total
            } else {
                1
            };
            if self.start_line > floor {
                return Err(ReadFileError::StartOutOfRange(copy_str(file), total, self.start_line));
            }
        }
        let output = join_strings(&self.selected, "\n");
        let mut summary = copy_str("read_file: ");
        push_str(&mut summary, file);
        if self.stopped_early {
            let end = match self.end_line {
                Some(e) => e,
                None => 0,
            };
            push_str(&mut summary, " (lines ");
            push_decimal(&mut summary, self.start_line as u128);
            push_str(&mut summary, "-");
            push_decimal(&mut summary, end as u128);
            push_str(&mut summary, ")");
        } else if total == 0 {
            push_str(&mut summary, " (empty file)");
        } else if self.start_line == 1 && self.end_line.is_none() {
            push_str(&mut summary, " (");
            push_decimal(&mut summary, total as u128);
            push_str(&mut summary, " lines)");
        } else {
            let eff = match self.end_line {
                Some(e) => if e < total {
                    e
                } else {
                    total
                },
                None => total,
            };
            push_str(&mut summary, " (lines ");
            push_decimal(&mut summary, self.start_line as u128);
            push_str(&mut summary, "-");
            push_decimal(&mut summary, eff as u128);
            push_str(&mut summary, " of ");
            push_decimal(&mut summary, total as u128);
            push_str(&mut summary, ")");
        }
        Ok((output, summary))
    }
}

/// The three parts of a kept line `s` for line number `no` of text `line`:
/// the number in decimal, right-aligned with spaces in six columns (or
/// wider when it has more digits), `": "`, and the line itself, character
/// for character.
pub open spec fn shows_line(s: Seq<char>, no: nat, line: Seq<char>) -> bool {
    let cut = s.len() - line.len();
    &&& s.len() >= line.len() + 2
    &&& s.subrange(cut, s.len() as int) == line
    &&& s.subrange(cut - 2, cut) == ": "@
    &&& s.subrange(0, cut - 2).len() == (if decimal(no).len() >= 6 {
        decimal(no).len()
    } else {
        6
    })
    &&& s.subrange(cut - 2 - decimal(no).len(), cut - 2) == decimal(no)
    &&& forall|i: int| 0 <= i < cut - 2 - decimal(no).len() ==> #[trigger] s[i] == ' '
}

proof fn lemma_numbered_line_shows(no: nat, line: Seq<char>)
    ensures
        shows_line(numbered_line(no, line), no, line),
{
    let s = numbered_line(no, line);
    let head = pad_left(decimal(no), 6);
    reveal_strlit(": ");
    assert(s.subrange(s.len() - line.len(), s.len() as int) =~= line);
    assert(s.subrange(s.len() - line.len() - 2, s.len() - line.len()) =~= ": "@);
    assert(s.subrange(0, s.len() - line.len() - 2) =~= head);
    assert(head.subrange(head.len() - decimal(no).len(), head.len() as int) =~= decimal(no));
    assert(s.subrange(s.len() - line.len() - 2 - decimal(no).len(), s.len() - line.len() - 2)
        =~= decimal(no));
}

/// One step of reading: a line that is kept is appended after the lines
/// kept before, shown verbatim after its number and `": "` (no character
/// of it is dropped or changed); a line that is not kept adds nothing.
pub proof fn lemma_line_step_verbatim(start: nat, end: Option<usize>, st: SelectorState, line: Seq<char>)
    ensures
        ({
            let r = line_step(start, end, st, line);
            let no = st.line_no + 1;
            &&& r.line_no == no
            &&& r.selected.len() == st.selected.len() || r.selected.len() == st.selected.len() + 1
            &&& r.selected.take(st.selected.len() as int) == st.selected
            &&& r.selected.len() == st.selected.len() + 1 <==> (!(end is Some && no > end->0) && no >= start)
            &&& r.selected.len() == st.selected.len() + 1 ==> shows_line(r.selected.last(), no, line)
        }),
{
    let r = line_step(start, end, st, line);
    lemma_numbered_line_shows(st.line_no + 1, line);
    assert(r.selected.take(st.selected.len() as int) =~= st.selected);
}

/// Reading a whole file: the `k`-th kept line is line `first + k` of the
/// file (with `first` the start line, at least 1), shown verbatim after its
/// number and `": "`.
pub proof fn lemma_selected_lines_verbatim(start: nat, end: Option<usize>, lines: Seq<Seq<char>>)
    ensures
        ({
            let first = if start == 0 {
                1
            } else {
                start
            };
            let r = feed_lines(
                start,
                end,
                SelectorState { line_no: 0, selected: Seq::empty(), stopped: false },
                lines,
            );
            forall|k: int|
                0 <= k < r.selected.len() ==> first + k <= lines.len() && shows_line(
                    #[trigger] r.selected[k],
                    (first + k) as nat,
                    lines[first + k - 1],
                )
        }),
{
    let first: nat = if start == 0 {
        1
    } else {
        start
    };
    lemma_selection(start, end, lines);
    let r = feed_lines(
        start,
        end,
        SelectorState { line_no: 0, selected: Seq::empty(), stopped: false },
        lines,
    );
    assert forall|k: int| 0 <= k < r.selected.len() implies first + k <= lines.len() && shows_line(
        #[trigger] r.selected[k],
        (first + k) as nat,
        lines[first + k - 1],
    ) by {
        lemma_numbered_line_shows((first + k) as nat, lines[first + k - 1]);
    }
}

} // verus!
