//! Inflation statistics over small per-country time series of annual rates.
//!
//! Rates are kept in fixed point, as a signed number of thousandths of the
//! whole (per mille): `280` stands for a rate of 28.0%, `-3` for -0.3%.
//! The tracker preserves insertion order, answers extremum queries, and
//! plans the compounding of a cash amount over a range of years.

pub mod linked_map;
pub mod model;
pub mod render;
pub mod tracker;

pub use tracker::InflationTracker;

