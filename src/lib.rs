//! Calibration of model parameters by a genetic algorithm.
//!
//! Genes are fixed-point integers whose scale the caller chooses, costs are
//! unsigned integers, and every rate is a fraction expressed in parts per
//! million (`RATE_SCALE` stands for one).
pub mod chromosome;
pub mod equations;
pub mod error;
pub mod ga;
pub mod laws;
pub mod random;
