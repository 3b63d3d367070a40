//! Treats the raw bytes of an arbitrary input as pixel data: picks a pixel
//! color model from a requested bit depth, derives image dimensions that can
//! hold the byte stream under an optional caller-supplied width or height
//! constraint, and computes the zero filler needed so the buffer exactly
//! matches the storage the chosen dimensions require.

pub mod color;
pub mod error;
pub mod pipeline;
pub mod shape;

pub use color::ColorType;
pub use error::BinImageError;
pub use pipeline::prepare_image;
pub use shape::{bytes_to_add, image_shape, int_ceil};
