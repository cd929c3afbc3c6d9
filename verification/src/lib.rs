//! Incremental (online) summary statistics over streams of exact rational
//! observations: running mean, variance, covariance and kurtosis via
//! Welford-style accumulators, streaming quantiles via the P-square marker
//! algorithm, and order statistics over a bounded trailing window backed by
//! a sorted sliding window, together with a generic rolling adapter that
//! turns any revertable accumulator into a windowed one.
//!
//! Skewness is the one statistic of this family left out: its value is the
//! square root of a rational, which the exact value domain cannot hold, so
//! no contract could state it honestly; the order-three moment it would read
//! is maintained by the central-moment accumulator.

pub mod argmin;
pub mod count;
pub mod covariance;
pub mod maximum;
pub mod ewmean;
pub mod ewvariance;
pub mod fewmean;
pub mod iqr;
pub mod kurtosis;
pub mod max;
pub mod mean;
pub mod min;
pub mod minimum;
pub mod moments;
pub mod ptp;
pub mod quantile;
pub mod rat;
pub mod ratio;
pub mod stats;
pub mod rolling;
pub mod sorted_window;
pub mod sum;
pub mod variance;
