//! The logic behind the server's tools: workspace naming, parameter parsing,
//! contact-sheet layout and labels, generated SCAD and HTML, slicer output,
//! and library scanning.

pub mod workspace;
pub mod geometry;
pub mod params;
pub mod strength;
pub mod font;
pub mod canvas;
pub mod render;
pub mod slicer;
pub mod result;
pub mod viewer;
pub mod tools;
pub mod config;
pub mod record;
