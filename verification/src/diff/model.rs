//! Normalized diff representation produced by the unified-patch parser.
use crate::strs;
use crate::strs::same_text;
use vstd::prelude::*;

verus! {

#[derive(Debug, Clone, Copy, PartialEq, Eq, Structural)]
pub enum Side {
    Old,
    New,
}

/// The kind of a single diff line.
#[derive(Debug, Clone, Copy, PartialEq, Eq, Structural)]
pub enum LineKind {
    Context,
    Addition,
    Deletion,
}

/// One line inside a hunk. `old_line`/`new_line` are 1-based line numbers on
/// each side, or `None` when the line does not exist on that side.
#[derive(Debug, Clone, PartialEq, Eq)]
pub struct DiffLine {
    pub kind: LineKind,
    pub old_line: Option<u32>,
    pub new_line: Option<u32>,
    pub text: String,
}

/// A contiguous block of changes (a `@@ ... @@` hunk).
#[derive(Debug, Clone, PartialEq, Eq)]
pub struct Hunk {
    pub old_start: u32,
    pub old_count: u32,
    pub new_start: u32,
    pub new_count: u32,
    /// Optional section heading captured from the hunk header (after `@@`).
    pub section: Option<String>,
    pub lines: Vec<DiffLine>,
}

/// All hunks for a single file path.
#[derive(Debug, Clone, PartialEq, Eq)]
pub struct DiffFile {
    /// Path on the old side (may equal `new_path`).
    pub old_path: String,
    /// Path on the new side.
    pub new_path: String,
    pub hunks: Vec<Hunk>,
    pub is_binary: bool,
}

/// A full changeset: many files.
#[derive(Debug, Clone, PartialEq, Eq)]
pub struct Changeset {
    pub files: Vec<DiffFile>,
}

/// What a [`DiffLine`] says.
#[verifier::ext_equal]
pub struct DiffLineV {
    pub kind: LineKind,
    pub old_line: Option<u32>,
    pub new_line: Option<u32>,
    pub text: Seq<char>,
}

/// What a [`Hunk`] says.
#[verifier::ext_equal]
pub struct HunkV {
    pub old_start: u32,
    pub old_count: u32,
    pub new_start: u32,
    pub new_count: u32,
    pub section: Option<Seq<char>>,
    pub lines: Seq<DiffLineV>,
}

/// What a [`DiffFile`] says.
#[verifier::ext_equal]
pub struct DiffFileV {
    pub old_path: Seq<char>,
    pub new_path: Seq<char>,
    pub hunks: Seq<HunkV>,
    pub is_binary: bool,
}

impl View for DiffLine {
    type V = DiffLineV;

    open spec fn view(&self) -> DiffLineV {
        DiffLineV {
            kind: self.kind,
            old_line: self.old_line,
            new_line: self.new_line,
            text: self.text@,
        }
    }
}

impl View for Hunk {
    type V = HunkV;

    open spec fn view(&self) -> HunkV {
        HunkV {
            old_start: self.old_start,
            old_count: self.old_count,
            new_start: self.new_start,
            new_count: self.new_count,
            section: strs::opt_view(self.section),
            lines: strs::views(self.lines@),
        }
    }
}

impl View for DiffFile {
    type V = DiffFileV;

    open spec fn view(&self) -> DiffFileV {
        DiffFileV {
            old_path: self.old_path@,
            new_path: self.new_path@,
            hunks: strs::views(self.hunks@),
            is_binary: self.is_binary,
        }
    }
}

impl View for Changeset {
    type V = Seq<DiffFileV>;

    open spec fn view(&self) -> Seq<DiffFileV> {
        strs::views(self.files@)
    }
}

impl DiffFileV {
    /// The path a file is shown under: the new one where there is one, else the old.
    pub open spec fn display_path(self) -> Seq<char> {
        if self.new_path != "/dev/null"@ && self.new_path.len() > 0 {
            self.new_path
        } else {
            self.old_path
        }
    }
}

impl DiffFile {
    /// Display path: prefers the new path, falling back to the old.
    pub fn display_path(&self) -> (r: &str)
        ensures
            r@ == self@.display_path(),
    {
        if !same_text(self.new_path.as_str(), "/dev/null") && !self.new_path.as_str().is_empty() {
            self.new_path.as_str()
        } else {
            self.old_path.as_str()
        }
    }
}

impl Default for Changeset {
    fn default() -> (r: Self)
        ensures
            r@ == Seq::<DiffFileV>::empty(),
    {
        Changeset { files: Vec::new() }
    }
}

impl Changeset {
    /// Whether there is no file.
    pub fn is_empty(&self) -> (r: bool)
        ensures
            r == (self@.len() == 0),
    {
        self.files.len() == 0
    }
}

} // verus!
