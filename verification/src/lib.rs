//! Aggregation and layout engine for benchmark comparison charts.
//!
//! The crate turns per-application benchmark samples into a complete,
//! integer-valued drawing plan: five-number summaries, per-metric extremes,
//! a shared categorical X axis, and the marks of every panel. Nothing here
//! draws; a front end walks the plan and hands it to a drawing surface.

pub mod metric;
pub mod statistics;
pub mod names;
pub mod dataset;
pub mod extremes;
pub mod coords;
pub mod marks;
pub mod summary_marker;
pub mod panel;
pub mod browser;
pub mod report;
