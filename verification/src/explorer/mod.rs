//! The Explorer shell extensions: a thumbnail provider and a preview
//! handler, reduced to what they decide and the bytes they hand over.

pub mod bitmap;
pub mod preview;
pub mod registry;
pub mod server;
pub mod stream;
