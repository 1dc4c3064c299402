//! Core logic of a local content blocker: the marker-delimited hosts-file
//! section codec, the tamper-protection watcher's decisions, the daily
//! notification schedule arithmetic, and streak date bookkeeping.
//!
//! File and clock access live outside this library; everything here is
//! deterministic logic over plain values, verified by Verus.

pub mod clock;
pub mod dates;
pub mod hosts;
pub mod hosts_props;
pub mod models;
pub mod schedule;
pub mod streak;
pub mod unsupported;
pub mod watcher;
