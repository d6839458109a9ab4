//! SVG output: a scene that emits markup instead of pixels.

pub mod attrs;
pub mod config;
mod drawing;
pub mod drawn;
pub mod font;
pub mod fragment;
pub mod labels;
pub mod laws;
pub mod markup;
pub mod model;
pub mod paint;
pub mod pieces;
pub mod reading;
pub mod refs;
pub mod scene;
pub mod sheet;
pub mod shown;
pub mod text;
pub mod writer;
