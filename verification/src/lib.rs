//! Reconstructs timed, lane-assigned intervals from a test runner's console log
//! and renders them as trace events.

pub mod json;
pub mod parser;
pub mod reconstruct;
pub mod scan;
pub mod time;
pub mod timeline;
pub mod token;
pub mod trace;

pub use time::TimeSpan;
pub use token::LineToken;
pub use trace::Trace;
