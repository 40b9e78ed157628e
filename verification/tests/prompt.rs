use code_review_agent::constants::DEFAULT_PROMPT;
use code_review_agent::utils::prompt::{
    check_prompt_metadata, prompt_file_path, render_system_prompt, PromptFileSkip,
};

#[test]
fn template_placeholders_are_filled() {
    let commits = vec![
        ("abc".to_string(), "First".to_string()),
        ("def".to_string(), "Second".to_string()),
    ];
    let out = render_system_prompt(
        Some("S={project_structure}\nC={commits_on_this_branch}\nD={full_diff}\nS again={project_structure}".to_string()),
        "src/",
        &commits,
        "+x",
    );
    assert_eq!(out, "S=src/\nC=abc First\ndef Second\nD=+x\nS again=src/");
}

#[test]
fn default_template_is_used_without_a_file() {
    let out = render_system_prompt(None, "P", &vec![], "DIFF");
    let expected = DEFAULT_PROMPT
        .replace("{project_structure}", "P")
        .replace("{commits_on_this_branch}", "")
        .replace("{full_diff}", "DIFF");
    assert_eq!(out, expected);
}

#[test]
fn diff_text_is_not_rescanned_for_placeholders() {
    let out = render_system_prompt(Some("{full_diff}|{project_structure}".to_string()), "{full_diff}", &vec![], "D");
    assert_eq!(out, "D|D");
    let out = render_system_prompt(Some("{project_structure}|{full_diff}".to_string()), "S", &vec![], "{project_structure}");
    assert_eq!(out, "S|{project_structure}");
}

#[test]
fn prompt_file_checks() {
    assert_eq!(prompt_file_path(None), "CODE_REVIEW_AGENT.md");
    assert_eq!(prompt_file_path(Some("x.md")), "x.md");
    assert_eq!(check_prompt_metadata(false, 10), Some(PromptFileSkip::NotAFile));
    assert_eq!(check_prompt_metadata(true, 0), Some(PromptFileSkip::Empty));
    assert_eq!(check_prompt_metadata(true, 1), None);
}
