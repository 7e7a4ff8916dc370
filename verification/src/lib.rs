//! A step/linear time-series value store with windowed aggregation.
//!
//! A [`store::TimeFunc`] owns an ordered sequence of `(timestamp, value)`
//! samples, where timestamps are seconds and values are integers in
//! caller-chosen fixed-point units.  Queries that land between samples are
//! answered either by the step convention (a sample's value holds over the
//! half-open interval ending at its own timestamp) or by exact linear
//! interpolation, and windowed aggregates (moving average, trapezoidal
//! integral, RMS, annualized rate of change) are built on top of those.
//! Query results that need not be whole numbers are returned as exact
//! rationals ([`ratio::Ratio`]).

pub mod aggregate;
pub mod derived;
pub mod index;
pub mod integral;
pub mod laws;
pub mod ratio;
pub mod rms;
pub mod store;
pub mod value;
