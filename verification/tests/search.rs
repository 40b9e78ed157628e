use code_review_agent::tools::search_in_directory::{
    compile_search_pattern, format_search_results, merge_search_lines, SearchInDirectoryTool,
    SearchLine,
};

fn line(n: u64, is_match: bool, text: &str) -> SearchLine {
    SearchLine { line_number: n, is_match, line: text.to_string() }
}

#[test]
fn merge_sorts_and_prefers_matches() {
    let merged = merge_search_lines(vec![
        line(18, true, "b\n"),
        line(17, false, "a\n"),
        line(19, false, "c\n"),
        line(19, true, "c\n"),
        line(18, false, "b\n"),
    ]);
    let got: Vec<(u64, bool, &str)> =
        merged.iter().map(|l| (l.line_number, l.is_match, l.line.as_str())).collect();
    assert_eq!(got, vec![(17, false, "a\n"), (18, true, "b\n"), (19, true, "c\n")]);
}

#[test]
fn merge_of_nothing_is_nothing() {
    assert!(merge_search_lines(vec![]).is_empty());
}

#[test]
fn merge_keeps_context_only_lines_as_context() {
    let merged = merge_search_lines(vec![line(3, false, "x\n"), line(3, false, "x\n")]);
    assert_eq!(merged.len(), 1);
    assert!(!merged[0].is_match);
}

#[test]
fn results_are_formatted_like_ripgrep() {
    let results = vec![
        (
            "src/file.rs".to_string(),
            vec![
                line(17, false, "    let before = 1;\n"),
                line(18, true, "    let test = 2;\n"),
            ],
        ),
        ("b.rs".to_string(), vec![line(1, true, "x\n")]),
    ];
    assert_eq!(
        format_search_results(&results),
        "src/file.rs:\n17-     let before = 1;\n18:     let test = 2;\n\nb.rs:\n1: x\n\n"
    );
    assert_eq!(format_search_results(&vec![]), "");
}

#[test]
fn patterns_compile_or_report() {
    assert!(compile_search_pattern("fn \\w+").is_ok());
    let err = compile_search_pattern("(unclosed").err().expect("invalid pattern");
    assert!(!err.is_empty());
}

#[test]
fn search_tool_metadata() {
    let tool = SearchInDirectoryTool::new();
    assert_eq!(tool.name(), "search_in_directory");
    assert_eq!(tool.required_parameters(), vec!["search_pattern"]);
}
