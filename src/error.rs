use vstd::prelude::*;

verus! {

/// What can go wrong while compiling a pattern or scanning for it.
#[derive(Debug, PartialEq)]
pub enum PatternScannerError {
    /// A two-character token that is not a hexadecimal byte; holds the token and,
    /// as the cause, its first character that is not a hexadecimal digit.
    InvalidByte(String, char),
    /// A token that is neither a wildcard nor two characters long; holds the token.
    ByteLength(String),
    /// The pattern was asked to match once and matched more than once.
    NonUniquePattern,
    /// The worker pool could not be built.
    ThreadPool,
    /// Reserved for faults that a correct scan never meets.
    Unknown,
}

} // verus!
