//! The rasterising backends, reduced to what they decide around the GPU.

pub mod budget;
pub mod error;
pub mod hybrid;
pub mod readback;
pub mod resources;
pub mod webgl;
