use code_review_agent::publisher::gitlab::{
    api_base, generate_summary_from_telemetry, merge_request_iid, review_body, token_header,
    GitlabError, GitlabTarget, TelemetryRow,
};

fn s(x: &str) -> Option<String> {
    Some(x.to_string())
}

#[test]
fn iid_from_variable_wins() {
    assert_eq!(merge_request_iid(s("42"), s("g/p!7")), s("42"));
    assert_eq!(merge_request_iid(s(" 42 "), None), s(" 42 "));
}

#[test]
fn iid_from_open_merge_requests() {
    assert_eq!(merge_request_iid(None, s("group/project!12,group/project!13")), s("12"));
    assert_eq!(merge_request_iid(s("  "), s("g/p! 7 ")), s("7"));
    assert_eq!(merge_request_iid(s(""), s("g/p!7!x")), s("7"));
    assert_eq!(merge_request_iid(None, s("g/p!x7")), None);
    assert_eq!(merge_request_iid(None, s("g/p!")), None);
    assert_eq!(merge_request_iid(None, s("g/p,a!7")), None);
    assert_eq!(merge_request_iid(None, None), None);
}

#[test]
fn api_base_defaults_and_trims_slashes() {
    assert_eq!(api_base(None), "https://gitlab.com/api/v4");
    assert_eq!(api_base(s("")), "https://gitlab.com/api/v4");
    assert_eq!(api_base(s("https://example.com/api/v4//")), "https://example.com/api/v4");
}

#[test]
fn target_from_ci_and_notes_url() {
    assert_eq!(GitlabTarget::from_ci(None, s("1"), None, None), None);
    assert_eq!(GitlabTarget::from_ci(s("9"), None, None, None), None);
    let t = GitlabTarget::from_ci(s("9"), None, s("g/p!3"), s("https://h/api/v4/")).unwrap();
    assert_eq!(t.notes_url(), "https://h/api/v4/projects/9/merge_requests/3/notes");
}

#[test]
fn token_must_fit_a_header() {
    let (value, text) = token_header("glpat-abc123").ok().expect("valid token");
    assert_eq!(text, "glpat-abc123");
    assert_eq!(value.to_str().unwrap(), "glpat-abc123");
    assert_eq!(token_header("bad\ntoken").err(), Some(GitlabError::InvalidToken));
    assert_eq!(
        GitlabError::InvalidToken.message(),
        "Failed to parse GitLab token into header value"
    );
}

#[test]
fn summary_lists_providers() {
    let rows = vec![
        TelemetryRow {
            provider: "Lambda".to_string(),
            prompt_tokens: 1500,
            completion_tokens: 20,
            cost: "0.012000".to_string(),
        },
        TelemetryRow {
            provider: "Together".to_string(),
            prompt_tokens: 10,
            completion_tokens: 5,
            cost: "0.000100".to_string(),
        },
    ];
    assert_eq!(
        generate_summary_from_telemetry(&rows),
        "\n\n---\n\n### Telemetry\n\n\
         - **Lambda**: Prompt tokens: 1.50k, Completion tokens: 20, Total tokens: 1.52k, Total cost: $0.012000\n\
         - **Together**: Prompt tokens: 10, Completion tokens: 5, Total tokens: 15, Total cost: $0.000100\n"
    );
    assert_eq!(review_body("Looks fine", "footer"), "Looks fine\nfooter");
}
