//! The exact, non-arithmetic logic of a small portfolio-risk core: input
//! validation, losses and their ordering, covariance scale, file layout.
//!
//! Observations are IEEE-754 binary64 values; the library reads them through
//! their bit patterns (`f64::to_bits`), which is a lossless encoding.

pub mod error;
pub mod ieee;
pub mod validation;
pub mod order;
pub mod matrix;
pub mod input;
