//! Host metrics sampling for a statsd collector.
//!
//! The library turns the text of the operating system's counter and gauge
//! sources into whole-number metrics, keeps the network baselines between
//! samples, and encodes the current metrics as statsd gauge lines.

pub mod config;
pub mod encode;
pub mod ratio;
pub mod schedule;
pub mod snapshot;
pub mod sources;
pub mod text;
