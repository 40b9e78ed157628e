use code_review_agent::tools::list_directory::ListDirectoryTool;
use code_review_agent::utils::list_directory::{
    prettify_directory_listing, sort_directory_entries, DirectoryEntry,
};

fn entry(name: &str, is_file: bool, size: Option<u64>) -> DirectoryEntry {
    DirectoryEntry { name: name.to_string(), is_file, size }
}

#[test]
fn entries_sort_directories_first_ignoring_case() {
    let sorted = sort_directory_entries(vec![
        entry("zeta.rs", true, Some(1)),
        entry("Beta", false, None),
        entry("alpha.rs", true, Some(2)),
        entry("alpha", false, None),
    ]);
    let names: Vec<&str> = sorted.iter().map(|e| e.name.as_str()).collect();
    assert_eq!(names, vec!["alpha", "Beta", "alpha.rs", "zeta.rs"]);
}

#[test]
fn listing_shows_slashes_and_sizes() {
    let text = prettify_directory_listing(&[
        entry("src", false, None),
        entry("Cargo.toml", true, Some(2048)),
        entry("empty", true, None),
    ]);
    assert_eq!(text, "src/\nCargo.toml [2 KiB]\nempty");
    assert_eq!(prettify_directory_listing(&[]), "");
}

#[test]
fn list_directory_tool_metadata() {
    let tool = ListDirectoryTool::new();
    assert_eq!(tool.name(), "list_directory");
    assert!(tool.required_parameters().is_empty());
}
