//! The desktop viewer: what a window shows, what the render thread does with
//! a request, and what an export writes.

pub mod channel;
pub mod commands;
pub mod doc;
pub mod error;
pub mod export;
pub mod frame;
pub mod menu;
pub mod paths;
pub mod watch;
pub mod windows;
pub mod worker;
