//! Kernels that compute on arrays.

pub mod sort;
pub mod take;
