pub mod conversion;
pub mod git;
pub mod list_directory;
pub mod prompt;
pub mod paths;
