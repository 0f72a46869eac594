//! A pixel-processing engine over exact fixed-point arithmetic: images
//! parameterized by sample type and channel layout, convolution kernels and
//! per-pixel filters, histograms, and image comparison.
pub mod color;
pub mod convert;
pub mod diff;
pub mod error;
pub mod filter;
pub mod fixed;
pub mod hash;
pub mod histogram;
pub mod image;
pub mod kernel;
pub mod raw;
pub mod ty;

pub use color::{Bgr, Bgra, Cmyk, Color, Gray, Model, Rgb, RgbPacked, Rgba, Yuv};
pub use diff::Diff;
pub use error::Error;
pub use filter::{AndThen, Complement, Filter, Scaled, Transform};
pub use fixed::Fixed;
pub use histogram::Histogram;
pub use image::Image;
pub use kernel::Kernel;
pub use raw::Raw;
pub use ty::Type;
