//! Bandwidth aggregation engine of a live network monitor.
//!
//! A capture path credits frame lengths to a shared accumulator; once per
//! tick the monitor drains it, slides every per-host window, refreshes the
//! global history buffers and ranks the hosts by smoothed rate.

pub mod accumulator;
pub mod config;
pub mod display;
pub mod estimator;
pub mod format;
pub mod frame;
pub mod hosts;
pub mod monitor;
pub mod pacing;
pub mod ranking;
pub mod rate;
