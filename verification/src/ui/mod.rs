//! The terminal interface: rows, layout, state and rendering.
pub mod app;
pub mod color_laws;
pub mod highlight;
pub mod highlight_cache;
pub mod render_rows;
pub mod sidebar;
pub mod style;
pub mod theme;
pub mod tree_laws;
pub mod warm;
