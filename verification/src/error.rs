//! Why a payload buffer could not be decoded.

use vstd::prelude::*;

verus! {

/// A recoverable failure to read a payload buffer as a value.
#[derive(Clone, Copy, Debug, PartialEq, Eq, Structural)]
pub enum DecodeError {
    /// The buffer is shorter than the fixed part of the layout.
    TooShort,
    /// A length field announces more bytes than the buffer holds.
    LengthOverrun,
    /// Bytes announced as text are not valid UTF-8.
    InvalidUtf8,
}

} // verus!
