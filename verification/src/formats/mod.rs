//! Format handlers.

pub mod gltf;
pub mod seed;
pub mod step;
pub mod usd;
