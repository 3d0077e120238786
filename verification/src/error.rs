use vstd::prelude::*;

verus! {

/// Errors raised by the cast rules themselves.
#[derive(Debug, Clone, Copy, PartialEq, Eq, Structural)]
pub enum CastError {
    /// A string is longer than its column allows and truncation counts as an error.
    /// `flen` is the column length, `len` the length of the data (characters for
    /// UTF-8 columns, bytes otherwise).
    DataTooLong { flen: usize, len: usize },
    /// A value was truncated and truncation counts as an error.
    Truncated,
    /// Bytes that were to be read as text are not valid UTF-8.
    InvalidUtf8,
}

} // verus!
