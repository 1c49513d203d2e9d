//! Software rendering pieces: captured backgrounds and text clipping.

pub mod background;

pub use background::{BackgroundImage, ImageError};
pub mod text;

pub use text::ClipRectangle;
