//! Core of a terminal process monitor: the event/state machine that merges
//! sampled process and system snapshots with key-press input into a single
//! authoritative table state, the stable column sorter applied to every
//! snapshot, and the uptime formatter for the header line.
//!
//! Terminal setup, drawing, and the sampling threads live outside this
//! library; they feed it plain values and read the resulting state.

pub mod app;
pub mod events;
pub mod processes;
pub mod sort;
pub mod system_info;
pub mod time_utils;
