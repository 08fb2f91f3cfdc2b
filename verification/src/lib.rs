//! Escape-time evaluation of the Mandelbrot set over a rectangle of the
//! complex plane, in 64-bit fixed-point arithmetic.
//!
//! Every number is a [`fixed::Fixed`]: a signed count of 2^-48 units. The
//! contracts speak of those counts as mathematical integers, so each result
//! is pinned down to the last bit and does not depend on the machine.
//!
//! - [`kernel`] counts the steps that the orbit of a point stays within the
//!   bailout radius.
//! - [`viewport`] maps a pixel to the point that it stands for.
//! - [`grid`] evaluates whole grids, or single rows to be put together.
//! - [`zoom`] gives each frame of an animation its viewport and its
//!   iteration budget.

pub mod complex;
pub mod fixed;
pub mod grid;
pub mod kernel;
pub mod root;
pub mod viewport;
pub mod zoom;
