//! The lock's Wayland-facing logic: compositor capabilities, output modes, the
//! opaque prompt, and the decisions of the lock's event loop.

pub mod opaque;
pub mod lock;
pub mod capabilities;
pub mod outputs;
pub mod capture;
pub mod confinement;
