//! Version control.
pub mod git;
pub mod git_laws;
