//! Error taxonomy shared by the codecs.

use vstd::prelude::*;

verus! {

/// Why a buffer could not be decoded.
#[derive(Clone, Copy, Debug, PartialEq, Eq, Structural)]
pub enum CodecError {
    /// The buffer is smaller than the format's minimum.
    TooShort,
    /// The buffer still carries the trailing encryption signature.
    Encrypted,
    /// No structural predicate matched the buffer.
    Unidentified,
    /// A pointer-table offset resolves outside the buffer.
    MalformedPointerTable,
    /// The compressed bit stream ran out before the stored iteration
    /// count was satisfied, or a back-reference pointed outside the
    /// window.
    DecodeOverrun,
}

} // verus!
