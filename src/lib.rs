//! A fixed-capacity rolling window over a stream of integers that keeps its
//! sum and variance up to date in constant time per insertion.
//!
//! The statistics are exact: the mean and the variance come as fractions,
//! the standard deviation and the z-score as multiples of a square root.

pub mod series;
pub mod stats;
pub mod window;

pub use series::{Ratio, Series, Surd, MAX_WINDOW};
