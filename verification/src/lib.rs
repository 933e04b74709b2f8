//! hew: a review-first viewer for patches.
pub mod cli;
pub mod comments;
pub mod diff;
pub mod loader;
pub mod paths;
pub mod session;
pub mod str_laws;
pub mod strs;
pub mod ui;
pub mod vcs;
