//! Driving the OpenSCAD command-line binary: named camera views, diagnostics
//! parsing, argument construction and run bookkeeping.

pub mod camera;
pub mod diagnostics;
pub mod ops;
pub mod run;
