use vstd::prelude::*;

use crate::constants::DEFAULT_PROMPT;
use crate::text::{copy_str, join, join_strings, push_str, replace_all, replace_str, texts};

verus! {

/// The commits as the prompt lists them: `<id> <message>`, one per line.
pub open spec fn commits_text(commits: Seq<(String, String)>) -> Seq<char> {
    join(commits.map_values(|c: (String, String)| c.0@ + " "@ + c.1@), "\n"@)
}

/// Fills the prompt template: `{project_structure}`, then
/// `{commits_on_this_branch}`, then `{full_diff}` are replaced everywhere.
pub open spec fn filled_prompt(
    template: Seq<char>,
    project_structure: Seq<char>,
    commits: Seq<(String, String)>,
    full_diff: Seq<char>,
) -> Seq<char> {
    replace_all(
        replace_all(
            replace_all(template, "{project_structure}"@, project_structure),
            "{commits_on_this_branch}"@,
            commits_text(commits),
        ),
        "{full_diff}"@,
        full_diff,
    )
}

/// The system prompt: the loaded template, or `DEFAULT_PROMPT` when none
/// was loaded, filled with the project structure, the commits on this
/// branch and the diff.
pub fn render_system_prompt(
    template: Option<String>,
    project_structure: &str,
    commits: &Vec<(String, String)>,
    full_diff: &str,
) -> (r: String)
    ensures
        r@ == filled_prompt(
            match template {
                Some(t) => t@,
                None => DEFAULT_PROMPT@,
            },
            project_structure@,
            commits@,
            full_diff@,
        ),
{
    proof {
        reveal_strlit("{project_structure}");
        reveal_strlit("{commits_on_this_branch}");
        reveal_strlit("{full_diff}");
    }
    let base = match template {
        Some(t) => t,
        None => copy_str(DEFAULT_PROMPT),
    };
    let mut lines: Vec<String> = Vec::new();
    let mut i: usize = 0;
    while i < commits.len()
        invariant
            i <= commits.len(),
            lines@.len() == i,
            forall|k: int|
                0 <= k < i ==> (#[trigger] lines@[k])@ == commits@[k].0@ + " "@ + commits@[k].1@,
        decreases commits.len() - i,
    {
        let mut line = commits[i].0.clone();
        push_str(&mut line, " ");
        push_str(&mut line, commits[i].1.as_str());
        lines.push(line);
        i = i + 1;
    }
    assert(texts(lines@) == commits@.map_values(|c: (String, String)| c.0@ + " "@ + c.1@));
    let commits_joined = join_strings(&lines, "\n");
    let a = replace_str(base.as_str(), "{project_structure}", project_structure);
    let b = replace_str(a.as_str(), "{commits_on_this_branch}", commits_joined.as_str());
    replace_str(b.as_str(), "{full_diff}", full_diff)
}

/// The prompt file to look for: the configured path, or
/// `CODE_REVIEW_AGENT.md`.
pub fn prompt_file_path(path: Option<&str>) -> (r: String)
    ensures
        r@ == match path {
            Some(p) => p@,
            None => "CODE_REVIEW_AGENT.md"@,
        },
{
    match path {
        Some(p) => copy_str(p),
        None => copy_str("CODE_REVIEW_AGENT.md"),
    }
}

/// Why a prompt file is passed over (the default prompt is used instead).
#[derive(Debug, Clone, Copy, PartialEq, Eq, Structural)]
pub enum PromptFileSkip {
    /// The path is not a regular file.
    NotAFile,
    /// The file is empty.
    Empty,
}

/// Checks the prompt file's metadata: it must be a regular file, and not
/// empty.
pub fn check_prompt_metadata(is_file: bool, len: u64) -> (r: Option<PromptFileSkip>)
    ensures
        !is_file ==> r == Some(PromptFileSkip::NotAFile),
        is_file && len == 0 ==> r == Some(PromptFileSkip::Empty),
        is_file && len > 0 ==> r is None,
{
    if !is_file {
        Some(PromptFileSkip::NotAFile)
    } else if len == 0 {
        Some(PromptFileSkip::Empty)
    } else {
        None
    }
}

} // verus!
