//! Reduces an image to the colours of a fixed palette, by error diffusion
//! with a weighted kernel or by ordered dithering with an 8 by 8 threshold
//! matrix.
//!
//! Every pixel is matched to the palette entry nearest to it in red, green
//! and blue; entries that are equally near are told apart by their distance
//! in hue, saturation and value. All of it is integer arithmetic: hue,
//! saturation and value are exact fractions, and a kernel weight is a
//! mantissa times a power of two.
//!
//! - [`color`]: the 8-bit colour and the wider working pixel
//! - [`hsv`]: hue, saturation and value, and distances between them
//! - [`natural`]: natural numbers without an upper limit
//! - [`matcher`]: the two palette lookups
//! - [`kernel`]: kernel entries and the share of an error they hand on
//! - [`diffusion`]: the error-diffusion pass
//! - [`ordered`]: the ordered-dithering pass
//! - [`raster`]: images
//! - [`encode`]: the text form of a converted image
//! - [`converter`]: an image, a palette and a kernel under one roof
//! - [`error`]: why a pass may refuse its input

pub mod color;
pub mod converter;
pub mod diffusion;
pub mod encode;
pub mod error;
pub mod hsv;
pub mod kernel;
pub mod matcher;
pub mod natural;
pub mod ordered;
pub mod raster;
