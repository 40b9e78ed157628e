use code_review_agent::tools::read_file::{
    after_path_check, check_request, LineSelector, PathCheck, ReadFileError, ReadFileTool,
    ReadFileToolArgs,
};

fn args(start: Option<usize>, end: Option<usize>) -> ReadFileToolArgs {
    ReadFileToolArgs { file: "a.txt".to_string(), start_line: start, end_line: end }
}

fn read(a: &ReadFileToolArgs, content: &str) -> Result<(String, String), ReadFileError> {
    let mut sel = LineSelector::new(a);
    for line in content.lines() {
        assert!(sel.can_take_line());
        if !sel.on_line(line) {
            break;
        }
    }
    sel.finish(&a.file)
}

#[test]
fn requests_are_checked() {
    assert_eq!(
        check_request(&args(None, None), 1_000_001),
        Err(ReadFileError::TooLarge("a.txt".to_string(), 1_000_001))
    );
    assert_eq!(check_request(&args(None, None), 1_000_000), Ok(()));
    assert_eq!(check_request(&args(Some(0), None), 5), Err(ReadFileError::StartLineZero));
    assert_eq!(check_request(&args(None, Some(0)), 5), Err(ReadFileError::EndLineZero));
    assert_eq!(check_request(&args(Some(3), Some(2)), 5), Err(ReadFileError::EndBeforeStart(2, 3)));
    assert_eq!(check_request(&args(Some(2), Some(2)), 5), Ok(()));
    assert_eq!(
        ReadFileError::EndBeforeStart(2, 3).message(),
        "end_line (2) must be >= start_line (3)."
    );
    assert_eq!(
        ReadFileError::TooLarge("a.txt".to_string(), 7).message(),
        "The file 'a.txt' is too large (7 bytes). Maximum allowed size is 1MB."
    );
}

#[test]
fn whole_file_is_numbered() {
    let (out, summary) = read(&args(None, None), "x\ny\n").unwrap();
    assert_eq!(out, "     1: x\n     2: y");
    assert_eq!(summary, "read_file: a.txt (2 lines)");
}

#[test]
fn ranges_are_selected() {
    let content = "1\n2\n3\n4\n5\n";
    let (out, summary) = read(&args(Some(2), Some(3)), content).unwrap();
    assert_eq!(out, "     2: 2\n     3: 3");
    assert_eq!(summary, "read_file: a.txt (lines 2-3)");
    let (out, summary) = read(&args(Some(4), Some(9)), content).unwrap();
    assert_eq!(out, "     4: 4\n     5: 5");
    assert_eq!(summary, "read_file: a.txt (lines 4-5 of 5)");
    let (out, summary) = read(&args(Some(5), None), content).unwrap();
    assert_eq!(out, "     5: 5");
    assert_eq!(summary, "read_file: a.txt (lines 5-5 of 5)");
}

#[test]
fn start_past_the_end_is_refused() {
    assert_eq!(
        read(&args(Some(6), None), "1\n2\n"),
        Err(ReadFileError::StartOutOfRange("a.txt".to_string(), 2, 6))
    );
    assert_eq!(
        ReadFileError::StartOutOfRange("a.txt".to_string(), 2, 6).message(),
        "The file 'a.txt' has 2 line(s). start_line 6 is out of range."
    );
    let (out, summary) = read(&args(Some(1), None), "").unwrap();
    assert_eq!(out, "");
    assert_eq!(summary, "read_file: a.txt (empty file)");
}

#[test]
fn read_file_tool_metadata() {
    let tool = ReadFileTool::new();
    assert_eq!(tool.name(), "read_file");
    assert_eq!(tool.required_parameters(), vec!["file"]);
}

#[test]
fn refusals_have_messages() {
    let f = || "x.rs".to_string();
    assert_eq!(ReadFileError::NotFound(f()).message(), "The file 'x.rs' does not exist.");
    assert_eq!(ReadFileError::Ignored(f()).message(), "The file 'x.rs' is ignored by .gitignore.");
    assert_eq!(
        ReadFileError::OutsideBoundary(f()).message(),
        "The file 'x.rs' is outside of the current directory boundary."
    );
    assert_eq!(ReadFileError::IsDirectory(f()).message(), "The path 'x.rs' is a directory, not a file.");
    assert_eq!(ReadFileError::StartLineZero.message(), "start_line must be >= 1.");
    assert_eq!(ReadFileError::EndLineZero.message(), "end_line must be >= 1.");
}

#[test]
fn path_checks_run_in_order_and_refuse_by_kind() {
    assert_eq!(after_path_check(PathCheck::Exists, true, "a.txt"), Ok(Some(PathCheck::NotIgnored)));
    assert_eq!(
        after_path_check(PathCheck::NotIgnored, true, "a.txt"),
        Ok(Some(PathCheck::InsideCurrentDir))
    );
    assert_eq!(
        after_path_check(PathCheck::InsideCurrentDir, true, "a.txt"),
        Ok(Some(PathCheck::NotDirectory))
    );
    assert_eq!(after_path_check(PathCheck::NotDirectory, true, "a.txt"), Ok(None));
    assert_eq!(
        after_path_check(PathCheck::Exists, false, "a.txt"),
        Err(ReadFileError::NotFound("a.txt".to_string()))
    );
    assert_eq!(
        after_path_check(PathCheck::NotIgnored, false, "a.txt"),
        Err(ReadFileError::Ignored("a.txt".to_string()))
    );
    assert_eq!(
        after_path_check(PathCheck::InsideCurrentDir, false, "../x"),
        Err(ReadFileError::OutsideBoundary("../x".to_string()))
    );
    assert_eq!(
        after_path_check(PathCheck::NotDirectory, false, "src"),
        Err(ReadFileError::IsDirectory("src".to_string()))
    );
}
