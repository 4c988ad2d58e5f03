//! Patch extraction for two-dimensional convolution.
//!
//! A convolution over a `(channels, height, width)` image becomes one dense
//! matrix product once every receptive field is unrolled into a column. This
//! crate holds that rearrangement and the shape algebra around it; every
//! executable item carries a contract that Verus proves.
//!
//! The element type is left open: the rearrangement moves cells and never
//! computes with them, so the caller supplies the element that stands for zero.
//!
//! - [`shape`]: how many window positions an axis has, and the shape of one
//!   convolution.
//! - [`unfold`]: the patch matrix and the function that builds it.
//! - [`layer`]: the convolution layer that owns filters and biases.
//! - [`laws`]: what holds of every patch matrix: where each cell comes from,
//!   how rows and columns are ordered, what padding means.
//! - [`sums`]: what the cells of a patch matrix add up to.

mod arith;
pub mod laws;
pub mod layer;
pub mod shape;
pub mod sums;
pub mod unfold;
