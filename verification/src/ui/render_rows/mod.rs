//! A changeset flattened into rows for rendering and anchoring.
pub mod box_laws;
pub mod date;
pub mod date_laws;
pub mod deletion_laws;
pub mod fill_laws;
pub mod laws;
pub mod line_laws;
pub mod listing_laws;
pub mod message_laws;
pub mod pair_laws;
pub mod place_laws;
pub mod rebuild_laws;
pub mod rows;
pub mod split;
pub mod text;
pub mod threads;
pub mod whole_laws;

pub use rows::{build_file_rows, build_rows, Row, RowKind};
pub use split::{build_file_split_rows, build_split_rows, SideCell, SplitRow, SplitRowKind};
pub use text::{char_width, sanitize_line, str_width, take_width};
pub use threads::{
    thread_lines, CommentKind, CommentLine, ComposerAnchor, ComposerKind, ComposerLine,
    ComposerSpec,
};
