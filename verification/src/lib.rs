//! A columnar in-memory array library: bit-packed validity bitmaps, typed
//! null-aware arrays that share their storage, builders that grow new arrays
//! out of ranges of existing ones, and a null-aware sort kernel.

pub mod array;
pub mod bitmap;
pub mod buffer;
pub mod compute;
pub mod datatypes;
pub mod error;
pub mod trusted_len;
pub mod types;
