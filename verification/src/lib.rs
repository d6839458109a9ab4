//! Plot documents shown outside the program that drew them: an SVG emitter,
//! a desktop viewer, a thumbnailer and the shell extensions that preview a
//! file, each reduced to the decisions it makes and proved to make them.

pub mod backend;
pub mod color;
pub mod explorer;
pub mod fixed;
pub mod geometry;
pub mod numeral;
pub mod quicklook;
pub mod svg;
pub mod text;
pub mod thumbnailer;
pub mod viewer;
pub mod web;
