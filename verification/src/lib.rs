//! Herdr Pluck: an inline hint picker that finds copyable tokens in a
//! terminal pane, labels them with short keyboard hints and resolves what
//! the user types back into the text to copy.

pub mod model;
mod text;
pub mod hints;
pub mod patterns;
pub mod input;
pub mod clipboard;
pub mod renderer;
pub mod viewport;
pub mod picker;
pub mod herdr;
