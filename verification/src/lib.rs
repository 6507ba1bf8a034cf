//! Valid (non-padded) two-dimensional convolution over dense grids of 32-bit integers.
//!
//! An [`Image`] is a fixed-size rectangular buffer stored row-major; its mathematical
//! model is a [`Grid`]. The engine offers the same multiply-accumulate computation through
//! several access patterns, all bound to one contract, [`convolves_to`].
//!
//! Sums are accumulated with two's-complement wrap-around, so every output cell is the
//! exact mathematical sum reduced modulo 2^32 ([`wrap_i32`]), whatever the order of
//! accumulation.

pub mod convolution;
pub mod engine;
pub mod error;
pub mod fixture;
pub mod grid;
pub mod image;
pub mod laws;
mod parallel;

pub use convolution::convolves_to;
pub use convolution::mul_acc;
pub use convolution::wrap_i32;
pub use engine::convolve;
pub use engine::convolve_row;
pub use engine::convolve_simple_skip_functions;
pub use engine::convolve_some_slices;
pub use engine::convolve_some_slices_par;
pub use engine::just_zero_fill;
pub use engine::naive_convolve;
pub use engine::output_shape;
pub use engine::Strategy;
pub use error::ConvolveError;
pub use fixture::counting_kernel;
pub use fixture::cycling_image;
pub use fixture::get_image_and_kernel;
pub use grid::Grid;
pub use image::row_view_mut;
pub use image::Image;
