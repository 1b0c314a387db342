//! Models of window-level state.

pub mod render_object;
pub mod window;
