use code_review_agent::text::{
    cut_to_bytes_exec, join_strings, replace_str, split_lines, trim_end_matches_char, trimmed,
};

#[test]
fn trimming_uses_unicode_white_space() {
    assert_eq!(trimmed(" \t\u{3000}x y\u{a0}\n"), "x y");
    assert_eq!(trimmed(&trimmed("  a  ")), "a");
    assert_eq!(trimmed(" \n "), "");
    assert_eq!(trim_end_matches_char("a///", '/'), "a");
}

#[test]
fn cutting_keeps_whole_characters() {
    assert_eq!(cut_to_bytes_exec("h\u{e9}llo", 2), "h");
    assert_eq!(cut_to_bytes_exec("h\u{e9}llo", 3), "h\u{e9}");
    assert_eq!(cut_to_bytes_exec("abc", 10), "abc");
    assert_eq!(cut_to_bytes_exec("\u{1f600}", 3), "");
}

#[test]
fn lines_joins_and_replacements() {
    assert_eq!(split_lines("a\r\nb\n\nc"), vec!["a", "b", "", "c"]);
    assert_eq!(split_lines("a\n"), vec!["a"]);
    assert!(split_lines("").is_empty());
    assert_eq!(join_strings(&vec!["a".to_string(), "b".to_string()], ", "), "a, b");
    assert_eq!(replace_str("a{x}b{x}", "{x}", "-"), "a-b-");
    assert_eq!(replace_str("aaa", "aa", "b"), "ba");
}
