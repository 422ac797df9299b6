//! Verified core of a small feed-forward network trainer.
//!
//! Floating-point arithmetic stays with the caller. What this crate decides
//! is exact: comparisons of `f32` values, carried here as their IEEE-754 bit
//! patterns, the masks of the rectifying and dropout layers, the class a
//! prediction row picks, how a dataset is cut into batches, and whether a
//! stack of layers fits together.
pub mod batching;
pub mod bits;
pub mod masking;
pub mod ranking;
pub mod topology;
