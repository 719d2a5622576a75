//! Least-significant-bit steganography over the red channel of a raster image.
//!
//! `hide_in_image` writes a payload, one bit per pixel, into the lowest bit of
//! the red channel of an image's pixels; `extract_from_image` reads a payload of
//! a given length back. Both walk the pixels outside the last row and the last
//! column in row-major order and take each byte's least significant bit first.

pub mod bits;
pub mod embed;
pub mod error;
pub mod extract;
pub mod grid;
pub mod laws;
pub mod scan;

pub use embed::hide_in_image;
pub use error::StegoError;
pub use extract::extract_from_image;
pub use grid::capacity;
pub use grid::payload_capacity;
pub use scan::usable_slot_count;
