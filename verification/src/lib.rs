//! Reverse-mode automatic differentiation for fixed-shape tensors.
//!
//! A computation is built from operations on tensors.  One tensor of a
//! chain owns the tape; every operation that consumes it records itself
//! there, with its local derivatives, and hands the tape on to its result.
//! The backward pass replays the tape in reverse and leaves in every
//! tensor's gradient slot the sum of what reached it on all paths.
//!
//! * [`scalar`] and [`fixed`]: the numbers, and a fixed-point instance;
//! * [`flat`], [`rows`] and [`buffer`]: arithmetic on runs of scalars and
//!   on shaped buffers;
//! * [`unique_id`], [`tensor`], [`gradients`] and [`ops`]: identifiers,
//!   tensors, the tape with its backward pass, and the operations;
//! * [`laws`]: what holds of every tape;
//! * [`nn`]: layers up to a transformer encoder;
//! * [`numpy`]: the header and the numbers of an array file.
pub mod buffer;
pub mod fixed;
pub mod flat;
pub mod gradients;
pub mod laws;
pub mod nn;
pub mod numpy;
pub mod ops;
pub mod rows;
pub mod scalar;
pub mod tensor;
pub mod unique_id;
