//! Fund composition tracking and rebalance detection.
//!
//! The crate models a fund's asset-allocation breakdown as exact
//! fixed-point decimals, normalizes raw breakdowns (merging stablecoin
//! lines into one synthetic cash line and dropping immaterial rows),
//! detects portfolio rebalances by comparing snapshots under a drift
//! tolerance, renders a human-readable summary, and drives the whole
//! poll/notify cycle as a pure state machine.

pub mod api;
pub mod commands;
pub mod decimal;
pub mod detect;
pub mod epoch;
pub mod model;
pub mod poll;
pub mod render;
pub mod text;

pub use decimal::DataError;
pub use decimal::Decimal;
