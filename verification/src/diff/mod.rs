//! Diffs: their model, the unified-patch parser, and generation from two texts.
pub mod generate;
pub mod generate_laws;
pub mod grammar;
pub mod metadata_laws;
pub mod model;
pub mod parse;
pub mod parse_laws;
