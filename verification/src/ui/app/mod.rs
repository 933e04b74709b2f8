//! Application state, navigation, input and rendering.
pub mod column_laws;
pub mod comments;
pub mod compose_laws;
pub mod cursor_laws;
pub mod editor;
pub mod height_laws;
pub mod input;
pub mod key_laws;
pub mod laws;
pub mod mouse_laws;
pub mod move_laws;
pub mod nav;
pub mod paint;
pub mod render;
pub mod render_boxes;
pub mod render_lines;
pub mod review_laws;
pub mod screen_laws;
pub mod scroll_laws;
pub mod start;
pub mod start_laws;
pub mod state;
pub mod tree;
pub mod width_laws;
pub mod wrap;

pub use state::{
    App, ButtonAction, ComposeTarget, Composer, Focus, Geom, Hit, SelKey, ViewMode,
};
