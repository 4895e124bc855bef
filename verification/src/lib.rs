//! Daily training-time allocation and simulation.
//!
//! The library plans how a person's daily schedule is split across
//! skill-training activities.  It classifies skills into categories with
//! fixed training costs, builds a linear optimization model over segment,
//! combo, skill and output variables, validates solved allocations, and
//! applies realized training output to the remaining per-skill needs day by
//! day.  All quantities (hours, ranks, bonus multipliers) are fixed-point
//! integers in thousandths, so that every rule is exact.

pub mod builder;
pub mod classifier;
pub mod driver;
pub mod timeline;
pub mod model;
pub mod types;
