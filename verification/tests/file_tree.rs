use code_review_agent::tools::file_tree::{
    file_tree_summary, FileTreeBuilder, FileTreeTool, TreeNode, MAX_ENTRIES,
};

/// Feeds a builder the entries a walk of the given layout yields: every
/// directory on the way to an entry, then the entry (files hold 5 bytes).
fn build_tree(layout: &[(&str, bool)]) -> (TreeNode, bool) {
    let mut builder = FileTreeBuilder::new("root".to_string());
    let mut seen: Vec<String> = Vec::new();
    for (rel, is_dir) in layout {
        let parts: Vec<&str> = rel.split('/').collect();
        for depth in 0..parts.len() {
            let path = parts[..=depth].join("/");
            if seen.contains(&path) {
                continue;
            }
            seen.push(path);
            let entry_is_dir = depth + 1 < parts.len() || *is_dir;
            let parents: Vec<String> = parts[..depth].iter().map(|s| s.to_string()).collect();
            let size = if entry_is_dir { None } else { Some(5) };
            assert!(builder.add_entry(&parents, parts[depth], entry_is_dir, size));
        }
    }
    builder.finish()
}

#[test]
fn empty_directory() {
    let (tree, truncated) = build_tree(&[]);
    assert!(!truncated);
    assert!(tree.children.is_empty());
}

#[test]
fn single_file() {
    let (tree, truncated) = build_tree(&[("foo.txt", false)]);
    assert!(!truncated);
    assert_eq!(tree.children.len(), 1);
    let foo = tree.child("foo.txt").unwrap();
    assert!(!foo.is_dir);
    assert_eq!(foo.size, Some(5));
}

#[test]
fn nested_directories() {
    let (tree, truncated) = build_tree(&[("a/b/c/deep.txt", false), ("a/top.txt", false)]);
    assert!(!truncated);

    let a = tree.child("a").expect("a/ exists");
    assert!(a.is_dir);
    let b = a.child("b").expect("a/b/ exists");
    assert!(b.is_dir);
    let c = b.child("c").expect("a/b/c/ exists");
    assert!(c.is_dir);
    assert!(c.child("deep.txt").is_some());

    let top = a.child("top.txt").expect("a/top.txt exists");
    assert!(!top.is_dir);
}

#[test]
fn sort_order_directories_first() {
    let (tree, _) = build_tree(&[
        ("zebra.txt", false),
        ("apple.txt", false),
        ("middle", true),
        ("first", true),
    ]);
    let names: Vec<&str> = tree.children.iter().map(|c| c.name.as_str()).collect();
    // Directories first (first, middle), then files (apple.txt, zebra.txt).
    assert_eq!(names, vec!["first", "middle", "apple.txt", "zebra.txt"]);
}

#[test]
fn render_includes_size_and_trailing_slash() {
    let (tree, truncated) = build_tree(&[("dir", true), ("file.txt", false)]);
    assert!(!truncated);
    let rendered = FileTreeTool::render_tree(&tree, truncated);
    assert!(
        rendered.contains("dir/"),
        "dir should have trailing slash: {rendered}"
    );
    assert!(
        rendered.contains("file.txt [5"),
        "file should show size: {rendered}"
    );
}

#[test]
fn render_draws_branches_and_nesting() {
    let (tree, truncated) = build_tree(&[("src/lib.rs", false), ("src/bin", true), ("README.md", false)]);
    let rendered = FileTreeTool::render_tree(&tree, truncated);
    let expected = "root\n\
        \u{251c}\u{2500}\u{2500} src/\n\
        \u{2502}   \u{251c}\u{2500}\u{2500} bin/\n\
        \u{2502}   \u{2514}\u{2500}\u{2500} lib.rs [5 B]\n\
        \u{2514}\u{2500}\u{2500} README.md [5 B]\n";
    assert_eq!(rendered, expected);
}

#[test]
fn sorting_ignores_case() {
    let (tree, _) = build_tree(&[("b.txt", false), ("A.txt", false), ("C", true), ("a", true)]);
    let names: Vec<&str> = tree.children.iter().map(|c| c.name.as_str()).collect();
    assert_eq!(names, vec!["a", "C", "A.txt", "b.txt"]);
}

#[test]
fn later_size_fills_a_placeholder() {
    let mut builder = FileTreeBuilder::new("root".to_string());
    assert!(builder.add_entry(&vec![], "f", false, None));
    assert!(builder.add_entry(&vec![], "f", false, Some(7)));
    let (tree, _) = builder.finish();
    assert_eq!(tree.children.len(), 1);
    assert_eq!(tree.child("f").unwrap().size, Some(7));
}

#[test]
fn names_stay_unique_when_inserted_twice() {
    let mut builder = FileTreeBuilder::new("root".to_string());
    assert!(builder.add_entry(&vec![], "d", true, None));
    assert!(builder.add_entry(&vec!["d".to_string()], "x", false, Some(1)));
    assert!(builder.add_entry(&vec![], "d", true, None));
    let (tree, _) = builder.finish();
    assert_eq!(tree.children.len(), 1);
    assert_eq!(tree.child("d").unwrap().children.len(), 1);
}

#[test]
fn walk_stops_after_max_entries() {
    let mut builder = FileTreeBuilder::new("root".to_string());
    for i in 0..MAX_ENTRIES {
        assert!(builder.add_entry(&vec![], &format!("f{i}"), false, Some(1)));
    }
    assert!(!builder.add_entry(&vec![], "one_more", false, Some(1)));
    assert!(!builder.add_entry(&vec![], "and_another", false, Some(1)));
    let (tree, truncated) = builder.finish();
    assert!(truncated);
    assert_eq!(tree.children.len(), MAX_ENTRIES);
    let rendered = FileTreeTool::render_tree(&tree, truncated);
    assert!(rendered.ends_with("\n... truncated: exceeded 5000 entries or 1000000 bytes.\n"));
}

#[test]
fn long_output_is_cut_at_the_byte_limit() {
    let mut builder = FileTreeBuilder::new("root".to_string());
    let long = "x".repeat(400);
    for i in 0..3000 {
        assert!(builder.add_entry(&vec![], &format!("{long}{i:05}"), false, None));
    }
    let (tree, truncated) = builder.finish();
    assert!(!truncated);
    let rendered = FileTreeTool::render_tree(&tree, truncated);
    let notice = "\n... truncated: output exceeded 1000000 bytes.\n";
    assert!(rendered.ends_with(notice));
    let body = rendered.len() - notice.len();
    assert!(body <= 1_000_000 && body > 1_000_000 - 4);
}

#[test]
fn summary_names_the_subdirectory_and_limits() {
    assert_eq!(file_tree_summary(None, false), "file_tree: .");
    assert_eq!(file_tree_summary(Some("src"), false), "file_tree: src");
    assert_eq!(
        file_tree_summary(Some("src"), true),
        "file_tree: src (truncated at 5000 entries / 1000000 bytes)"
    );
}

#[test]
fn tool_metadata() {
    let tool = FileTreeTool::new();
    assert_eq!(tool.name(), "file_tree");
    assert!(tool.required_parameters().is_empty());
}

#[test]
fn equal_lowercase_names_keep_their_order() {
    let (tree, _) = build_tree(&[("b.txt", false), ("A.txt", false), ("a.txt", false)]);
    let names: Vec<&str> = tree.children.iter().map(|c| c.name.as_str()).collect();
    assert_eq!(names, vec!["A.txt", "a.txt", "b.txt"]);
    let (tree, _) = build_tree(&[("a.txt", false), ("A.txt", false)]);
    let names: Vec<&str> = tree.children.iter().map(|c| c.name.as_str()).collect();
    assert_eq!(names, vec!["a.txt", "A.txt"]);
}

#[test]
fn sorting_twice_changes_nothing() {
    let (mut tree, truncated) = build_tree(&[("z/b", false), ("Z", true), ("a", false), ("z/A", true)]);
    let once = FileTreeTool::render_tree(&tree, truncated);
    code_review_agent::tools::file_tree::sort_children(&mut tree);
    assert_eq!(FileTreeTool::render_tree(&tree, truncated), once);
}

#[test]
fn stopped_walk_output_is_cut_too() {
    let mut builder = FileTreeBuilder::new("root".to_string());
    let long = "y".repeat(250);
    let mut added = 0;
    'walk: for d in 0..500 {
        let dir = format!("d{d:03}");
        assert!(builder.add_entry(&vec![], &dir, true, None));
        added += 1;
        for f in 0..9 {
            if added == MAX_ENTRIES {
                break 'walk;
            }
            assert!(builder.add_entry(&vec![dir.clone()], &format!("{long}{f}"), false, None));
            added += 1;
        }
    }
    assert!(!builder.add_entry(&vec![], "more", false, None));
    let (tree, truncated) = builder.finish();
    assert!(truncated);
    let rendered = FileTreeTool::render_tree(&tree, truncated);
    let notice = "\n... truncated: exceeded 5000 entries or 1000000 bytes.\n";
    assert!(rendered.ends_with(notice));
    let body = rendered.len() - notice.len();
    assert!(body <= 1_000_000 && body > 1_000_000 - 4);
}
