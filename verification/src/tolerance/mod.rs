//! The tolerance vocabulary: fit classes, outcome kinds and verdicts, profile
//! identifiers, and where the tolerance store keeps its files. The Bayesian
//! calibration itself is floating-point arithmetic and stays with the caller.

pub mod fit;
pub mod outcome;
pub mod profile;
pub mod store;
