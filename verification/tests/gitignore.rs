use code_review_agent::tools::gitignore::{gitignore_dirs, gitignore_lines, is_ignored};
use code_review_agent::utils::paths::path_within;

#[test]
fn directories_run_from_the_entry_up_to_the_current_one() {
    assert_eq!(gitignore_dirs("/w/a/b", "/w"), vec!["/w/a/b", "/w/a", "/w"]);
    assert_eq!(gitignore_dirs("/w", "/w"), vec!["/w"]);
    assert!(gitignore_dirs("/other/x", "/w").is_empty());
    assert!(gitignore_dirs("/wx/y", "/w").is_empty());
    assert_eq!(gitignore_dirs("/a", "/"), vec!["/a", "/"]);
}

#[test]
fn gitignore_lines_drop_a_leading_byte_order_mark() {
    assert_eq!(gitignore_lines("\u{feff}target\n*.log\r\n"), vec!["target", "*.log"]);
    assert!(gitignore_lines("").is_empty());
}

#[test]
fn innermost_deciding_file_wins() {
    let dirs = vec!["/w/a".to_string(), "/w".to_string()];
    let ignored_by_root = vec![None, Some("*.log\n".to_string())];
    assert_eq!(is_ignored(&dirs, &ignored_by_root, "/w/a/x.log", false), Ok(true));
    assert_eq!(is_ignored(&dirs, &ignored_by_root, "/w/a/x.rs", false), Ok(false));
    let reincluded = vec![Some("!x.log\n".to_string()), Some("*.log\n".to_string())];
    assert_eq!(is_ignored(&dirs, &reincluded, "/w/a/x.log", false), Ok(false));
    let comment_only = vec![Some("# x.log\n".to_string()), Some("x.log\n".to_string())];
    assert_eq!(is_ignored(&dirs, &comment_only, "/w/a/x.log", false), Ok(true));
    assert_eq!(is_ignored(&dirs, &vec![None, None], "/w/a/x.log", false), Ok(false));
}

#[test]
fn paths_lie_within_by_component() {
    assert!(path_within("/w/a", "/w"));
    assert!(path_within("/w", "/w"));
    assert!(!path_within("/wx", "/w"));
    assert!(path_within("/any", "/"));
    assert!(!path_within("/other", "/w"));
}
