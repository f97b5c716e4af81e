//! Last-epoch extraction from the tail of a log.
//!
//! The library keeps the most recent lines of a line-oriented log in a
//! bounded tail, finds the newest line holding a bracketed decimal
//! number (`[` digits `]`), and turns that number, read as seconds
//! since the UTC epoch, into a calendar string.  Reading the log and
//! presenting the outcome are the caller's business; everything that
//! decides or computes stands here, verified.
pub mod extract;
pub mod format;
pub mod scan;
pub mod tail;
