//! Grouped-data descriptive statistics: bin planning, frequency counting,
//! cumulative counts and the choice of the per-bin median and mode rules.
//!
//! Observations and bin bounds are IEEE-754 binary64 values carried as their
//! bit patterns (`f64::to_bits`); all ordering decisions are made on those
//! patterns and proved against an exact model of floating-point comparison.
pub mod order;
pub mod bins;
pub mod freq;
pub mod position;
pub mod table;
