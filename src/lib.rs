//! Descriptive statistics over integer samples: batch mean and variance, and a
//! running accumulator that folds samples in as they arrive.
//!
//! All quantities are kept exactly, as integers and ratios of integers; turning
//! them into floating-point numbers is left to the caller.
pub mod sample;
pub mod sort;
pub mod stats;
pub mod running;

pub use running::{Fraction, RS};
pub use sample::Sample;
pub use sort::insertion_sort;
pub use stats::{Ratio, arithmetic_mean, checked_sample_sum, sample_sum, sample_variance};
