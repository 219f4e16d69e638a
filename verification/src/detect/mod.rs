pub mod git;
pub mod project;
