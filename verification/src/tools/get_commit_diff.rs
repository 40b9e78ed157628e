use vstd::prelude::*;

use crate::text::{copy_str, push_str};

verus! {

/// The arguments of the `get_commit_diff` tool.
#[derive(Debug, Clone, PartialEq, Eq)]
pub struct GetCommitDiffToolArgs {
    pub commit_id: String,
}

/// The `get_commit_diff` tool: the patch of one commit.
pub struct GetCommitDiffTool {}

impl GetCommitDiffTool {
    pub fn new() -> Self {
        Self {}
    }

    /// The name the model calls the tool by.
    pub fn name(&self) -> (r: &'static str)
        ensures
            r@ == "get_commit_diff"@,
    {
        "get_commit_diff"
    }

    /// What the tool does, for the model.
    pub fn description(&self) -> (r: &'static str)
        ensures
            r@ == "Get the patch diff of a specific commit in the current git repository."@,
    {
        "Get the patch diff of a specific commit in the current git repository."
    }

    /// The parameters the model must pass.
    pub fn required_parameters(&self) -> (r: Vec<&'static str>)
        ensures
            r@.len() == 1,
            r@[0]@ == "commit_id"@,
    {
        let mut v = Vec::new();
        v.push("commit_id");
        v
    }

    /// The line shown to the user for a call.
    pub fn summary(commit_id: &str) -> (r: String)
        ensures
            r@ == "get_commit_diff: "@ + commit_id@,
    {
        let mut s = copy_str("get_commit_diff: ");
        push_str(&mut s, commit_id);
        s
    }
}

} // verus!
