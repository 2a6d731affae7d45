//! URL-safe base64 without padding, as a verified library.
//!
//! The codec turns arbitrary bytes into text over the alphabet
//! `A-Z a-z 0-9 - _` and back; the dispatcher around it resolves the
//! input source, trims trailing whitespace before decoding, and appends
//! the newline that follows encoded output.

use vstd::prelude::*;

pub mod codec;
pub mod dispatch;

verus! {

/// How one invocation can fail.
#[derive(Clone, Copy, Debug, PartialEq, Eq, Structural)]
pub enum Error {
    /// The requested input file cannot be opened.
    SourceUnavailable,
    /// Decode input has a length invalid for unpadded base64, or holds a
    /// character outside the URL-safe alphabet.
    InvalidEncoding,
    /// Reading from the source or writing to the sink failed.
    IoFailure,
}

} // verus!
