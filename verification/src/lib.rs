//! Luma's verified core: the authentication state machine, password input,
//! configuration checks, captured-background processing, and the opaque
//! software lock prompt.
//!
//! Time is represented by caller-provided monotonic nanosecond counters and
//! durations in nanoseconds. Pixel buffers use the ARGB8888 layout of a
//! little-endian machine, that is blue, green, red, alpha in memory.

pub mod auth;
pub mod state;
pub mod input;
mod secret;
pub mod cli;
pub mod config;
pub mod text;
pub mod daemon;
pub mod renderer;
pub mod wayland;
pub mod demo;
