use code_review_agent::utils::git::{
    after_ci_variable, after_local_branch, after_origin_head, check_commit_id, log_range,
    parse_commit_log, validate_commit_id, BaseBranchProbe, BaseBranchStep, GitError,
};

#[test]
fn commit_ids_are_validated() {
    assert!(validate_commit_id("0a1b2c3d"));
    assert!(!validate_commit_id(""));
    assert!(!validate_commit_id("HEAD"));
    assert!(!validate_commit_id("--output=x"));
    assert!(validate_commit_id("abc123"));
    assert!(!validate_commit_id("ABC"));
    assert!(!validate_commit_id("abc;rm"));
    assert!(!validate_commit_id("--help"));
    assert_eq!(check_commit_id("abc"), Ok(()));
    assert_eq!(check_commit_id(""), Err(GitError::InvalidCommitId(String::new())));
    assert_eq!(check_commit_id("a b"), Err(GitError::InvalidCommitId("a b".to_string())));
    assert_eq!(GitError::InvalidCommitId("x".to_string()).message(), "Invalid commit ID: x");
    assert_eq!(GitError::NoBaseBranch.message(), "Could not determine the base branch");
}

#[test]
fn commit_log_is_parsed() {
    assert_eq!(log_range("main"), "main..HEAD");
    let log = parse_commit_log("abc123 Fix the thing\ndef456 Add more\r\nfff\n");
    assert_eq!(
        log,
        vec![
            ("abc123".to_string(), "Fix the thing".to_string()),
            ("def456".to_string(), "Add more".to_string()),
            ("fff".to_string(), "".to_string()),
        ]
    );
    assert!(parse_commit_log("").is_empty());
}

#[test]
fn base_branch_probes_in_order() {
    assert_eq!(after_ci_variable(Some("develop".to_string())), BaseBranchStep::Found("develop".to_string()));
    assert_eq!(after_ci_variable(Some(String::new())), BaseBranchStep::Next(BaseBranchProbe::OriginHead));
    assert_eq!(after_ci_variable(None), BaseBranchStep::Next(BaseBranchProbe::OriginHead));
    assert_eq!(
        after_origin_head(Some((true, b"origin/main\n".to_vec()))),
        BaseBranchStep::Found("origin/main".to_string())
    );
    assert_eq!(after_origin_head(Some((false, b"x".to_vec()))), BaseBranchStep::Next(BaseBranchProbe::LocalMain));
    assert_eq!(after_origin_head(Some((true, b"  \n".to_vec()))), BaseBranchStep::Next(BaseBranchProbe::LocalMain));
    assert_eq!(after_origin_head(None), BaseBranchStep::Next(BaseBranchProbe::LocalMain));
    assert_eq!(after_local_branch(BaseBranchProbe::LocalMain, true), BaseBranchStep::Found("main".to_string()));
    assert_eq!(
        after_local_branch(BaseBranchProbe::LocalMain, false),
        BaseBranchStep::Next(BaseBranchProbe::LocalMaster)
    );
    assert_eq!(after_local_branch(BaseBranchProbe::LocalMaster, true), BaseBranchStep::Found("master".to_string()));
    assert_eq!(after_local_branch(BaseBranchProbe::LocalMaster, false), BaseBranchStep::NotFound);
}
