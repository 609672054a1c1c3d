//! HyperLogLog distinct-count estimation over a fixed array of registers,
//! with the integer core verified: routing a hash to its register and rank,
//! recording, merging, and choosing the range correction exactly.
pub mod rank;
pub mod registers;
pub mod estimate;
pub mod hll;

pub use crate::hll::{HyperLogLog, HllError};
pub use crate::estimate::{RangeRegime, alpha_ratio, classify_estimate};
pub use crate::rank::{register_index, rank, MIN_PRECISION_BITS, MAX_PRECISION_BITS};
