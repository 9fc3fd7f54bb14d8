//! Edge silhouettes of raster images as vector documents.
//!
//! The pipeline has three stages, each consuming the buffer the previous one
//! produced: [`gray`] reduces an RGBA raster to intensity and alpha,
//! [`sobel`] turns the intensities into an inverted gradient-magnitude image
//! two samples smaller in each axis, and [`vectorize`] emits one unit square
//! per sample darker than [`THRESHOLD`]. [`process_image`] and
//! [`png_vector`] run all three.

pub mod gray;
pub mod grid;
pub mod pathdata;
pub mod pipeline;
pub mod raster;
pub mod root;
pub mod sobel;
pub mod svgdoc;
pub mod vector;

pub use gray::{gray, GrayView, GrayscaleImage, LumaA};
pub use pipeline::{png_vector, process_image, Halted, Processed};
pub use raster::{RasterImage, RasterView, Rgba};
pub use sobel::{sobel, DimensionError, MagView, MagnitudeImage};
pub use svgdoc::to_svg;
pub use vector::{vectorize, DocumentView, PathPrimitive, PathView, VectorDocument, THRESHOLD};
