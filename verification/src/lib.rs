//! Verified core of a byte-stream copier that reports progress at a bounded
//! granularity, and of a buffering adapter that hands batch-produced bytes to
//! a poll-style reader without losing or duplicating a byte.

pub mod progress;
pub mod read_buffer;
