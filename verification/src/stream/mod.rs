//! Helpers for streaming commits to and from segments.

pub mod common;
pub mod range;
