//! Wildcard byte-pattern search over an in-memory buffer, sequentially or on a
//! pool of worker threads.
//!
//! A pattern is written as whitespace-separated tokens: two hexadecimal digits
//! for an exact byte, `?` or `??` for a byte that may be anything.
pub mod error;
pub mod laws;
pub mod matching;
pub mod mt;
pub mod pattern;
pub mod scanner;
pub mod st;

pub use error::PatternScannerError;
pub use pattern::create_bytes_from_string;
pub use scanner::{PatternScanner, PatternScannerBuilder};
