//! Review comments and the log of review actions.
pub mod actions;
pub mod log_laws;
pub mod model;
pub mod store_laws;
