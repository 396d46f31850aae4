//! The reasons for which input is rejected.

use vstd::prelude::*;

verus! {

/// Why a sequence of bytes was rejected.
///
/// A malformed field fails the record that holds it, and so every record
/// around that one: nothing is recovered and nothing partial is returned.
#[derive(Clone, Copy, Debug, PartialEq, Eq, Structural)]
pub enum DecodeError {
    /// The input ended before the record was complete.
    UnexpectedEnd,
    /// A fixed constant is not the expected one: one of the four words of the
    /// identifier of the format family, or a constant that frames the tag
    /// value store.
    MalformedMagic { expected: u32, found: u32 },
    /// The version ordinal is not one that this codec knows.
    UnsupportedVersion { found: u32 },
    /// A derived or accumulated length disagrees with a declared one.
    InconsistentLength { expected: u32, found: u32 },
    /// The terminator of a string is missing or is not zero.
    InvalidTermination { unit: u16 },
    /// The text is not valid in the encoding that its width claims.
    InvalidEncoding,
    /// A length is over the bound that is checked before anything is copied.
    OversizedField { limit: u32, found: u32 },
    /// A discriminant lies outside its closed set.
    UnknownTag { found: u32 },
}

} // verus!
