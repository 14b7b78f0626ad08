//! Feed-forward perceptrons over an abstract numeric field.
//!
//! The crate is layered: [`field`] declares what a cell value must be able to
//! do, [`matrix`] is a dense two-dimensional container over such values, and
//! the two evaluator modules compute a network's output from a flat
//! parameter vector.
pub mod algebra;
pub mod exact;
pub mod field;
pub mod matrix;
pub mod neuronal_network;
pub mod neuronal_network_with_reminder;
pub mod pipeline;
