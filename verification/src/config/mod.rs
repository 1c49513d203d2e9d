//! The lock's configuration values and their validation.

pub mod color;
pub mod model;

pub use color::{Color, ParseColorError};
pub use model::{BackgroundConfig, ValidationError};
