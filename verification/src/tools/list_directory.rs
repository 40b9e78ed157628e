use vstd::prelude::*;

verus! {

/// The arguments of the `list_directory` tool.
#[derive(Debug, Clone, PartialEq, Eq)]
pub struct ListDirectoryToolArgs {
    pub subdirectory: Option<String>,
}

/// The `list_directory` tool: one level of a directory, directories first.
pub struct ListDirectoryTool {}

impl ListDirectoryTool {
    pub fn new() -> Self {
        Self {}
    }

    /// The name the model calls the tool by.
    pub fn name(&self) -> (r: &'static str)
        ensures
            r@ == "list_directory"@,
    {
        "list_directory"
    }

    /// What the tool does, for the model.
    pub fn description(&self) -> (r: &'static str)
        ensures
            r@ == "List the contents of a directory. Files will have their sizes displayed in [{filesize}] format, directories will have a trailing slash. Does not recurse into subdirectories."@,
    {
        "List the contents of a directory. Files will have their sizes displayed in [{filesize}] format, directories will have a trailing slash. Does not recurse into subdirectories."
    }

    /// The parameters the model must pass: none.
    pub fn required_parameters(&self) -> (r: Vec<&'static str>)
        ensures
            r@.len() == 0,
    {
        Vec::new()
    }
}

} // verus!
