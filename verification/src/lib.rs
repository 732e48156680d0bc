//! A verified log-line enrichment and span-correlation engine.
//!
//! The library normalizes raw text lines from a supervised child process into
//! structured JSON records, and correlates `start`/`end` span events into a
//! single record carrying the measured duration. Process supervision and
//! stream I/O live outside the library; the library's entry point is
//! [`process::process_line_at`], a pure step from one input line and the
//! current span table to an optional serialized output record.

pub mod json;
pub mod laws;
pub mod parse;
pub mod process;
pub mod text;
pub mod time;
pub mod track;
