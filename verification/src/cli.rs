//! What the command line asks for.
use std::path::PathBuf;
use vstd::prelude::*;

verus! {

/// The command line.
#[derive(Debug)]
pub struct Cli {
    /// Talk to a running hew session (`hew comment …`).
    pub command: Option<Command>,
    /// Patch file to review. Omit or use `-` to read from stdin.
    pub file: Option<PathBuf>,
    /// Load review comments from a sidecar JSON file before opening.
    pub comments: Option<PathBuf>,
    /// Name this session in the registry (defaults to a short id).
    pub name: Option<String>,
    /// Print the parsed changeset as JSON and exit (no TUI).
    pub json: bool,
    /// Reload the patch file and/or comments sidecar when they change on disk. (Has no effect
    /// when the patch is read from stdin.)
    pub watch: bool,
}

/// A subcommand.
#[derive(Debug)]
pub enum Command {
    /// Inspect or edit comments in a running hew session.
    Comment { action: CommentAction },
}

/// What to do with the comments of a session.
#[derive(Debug)]
pub enum CommentAction {
    /// Print the session's current review store as JSON.
    List {
        /// Target session id or name (required when several are running).
        session: Option<String>,
    },
}

} // verus!
