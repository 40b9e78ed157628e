pub mod file_tree;
pub mod get_commit_diff;
pub mod gitignore;
pub mod list_directory;
pub mod read_file;
pub mod search_in_directory;

use crate::text::{copy_str, push_str};
use vstd::prelude::*;

verus! {

/// The message for a subdirectory that resolves outside the current
/// directory.
pub fn outside_boundary_message(subdirectory: &str) -> (m: String)
    ensures
        m@ == "The subdirectory '"@ + subdirectory@
            + "' is outside of the current directory boundary."@,
{
    let mut m = copy_str("The subdirectory '");
    push_str(&mut m, subdirectory);
    push_str(&mut m, "' is outside of the current directory boundary.");
    m
}

/// The message for a subdirectory that is not a directory.
pub fn not_a_directory_message(subdirectory: &str) -> (m: String)
    ensures
        m@ == "'"@ + subdirectory@ + "' is not a directory"@,
{
    let mut m = copy_str("'");
    push_str(&mut m, subdirectory);
    push_str(&mut m, "' is not a directory");
    m
}

} // verus!
