//! Selection engine and view model of a multi-container log viewer.

pub mod filter;
pub mod info;
pub mod input;
pub mod laws;
pub mod model;
pub mod palette;
pub mod render;
pub mod session;
pub mod source;
pub mod state;
pub mod text;
pub mod watch;
pub mod width;
