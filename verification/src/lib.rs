//! Square-kernel convolution of single-channel raster images.
//!
//! The crate covers the integer side of the filter: which cell of a kernel a
//! weight lives in, which source pixel a sample outside the image is read
//! from, which samples make up the neighbourhood of an output pixel and in
//! what order, and how a rounded sum becomes a byte. The weighted sum itself
//! is supplied by the caller as a function from a neighbourhood to a byte.

pub mod edge;
pub mod engine;
pub mod kernel;
pub mod laws;
pub mod raster;

pub use edge::{edge_project, project_coordinate, EdgeMode};
pub use engine::{convolve, get_pixel, kernel_fits, neighborhood};
pub use kernel::{clamp_sample, integer_sqrt, ConvolutionError, KernelShape};
pub use raster::{Raster, RasterView};
