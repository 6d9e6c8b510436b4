//! The failure kinds a token decode can surface.

use vstd::prelude::*;

verus! {

/// Why a decode failed. Every failure is fatal to the enclosing byte stream:
/// the decoder performs no recovery, and a failed decode leaves the byte
/// source desynchronized.
#[derive(Clone, Copy, Debug, PartialEq, Eq, Structural)]
pub enum DecodeError {
    /// The byte source was exhausted before a field could be fully read.
    UnexpectedEof,
    /// A text field's character units do not form valid text.
    InvalidEncoding,
}

} // verus!
