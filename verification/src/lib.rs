//! Demiourgos core: the verified logic behind an OpenSCAD design assistant —
//! OpenSCAD diagnostics and command lines, workspace naming rules, tolerance
//! vocabulary, text utilities for generated SCAD and HTML, and mesh topology.

pub mod text;
pub mod scad;
pub mod tolerance;
pub mod server;
pub mod mesh;
