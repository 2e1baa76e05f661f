//! Bit-packed storage of booleans: an immutable bitmap that shares its bytes
//! between slices, and the builder that freezes into it.

pub mod immutable;
pub mod mutable;
pub mod utils;

pub use immutable::{optional_bits, Bitmap};
pub use mutable::MutableBitmap;
