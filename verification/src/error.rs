//! Errors of message parsing and response validation.
use vstd::prelude::*;

use crate::tag::Tag;

verus! {

/// Why a message could not be built or parsed, or why a response was refused.
#[derive(Clone, Copy, Debug, PartialEq, Eq, Structural)]
pub enum Error {
    /// The bytes end before the message does.
    MessageTooShort,
    /// The message length (carried) is not a multiple of four.
    InvalidAlignment(u32),
    /// The header announces more tags than a message may hold (carried).
    InvalidNumTags(u32),
    /// Four tag bytes (carried, as a little-endian value) name no known tag.
    InvalidTag(u32),
    /// A tag occurs twice in a row.
    DuplicateTag(Tag),
    /// A tag is smaller than the one before it.
    TagNotStrictlyIncreasing(Tag),
    /// A value offset (carried) is not a multiple of four.
    InvalidOffsetValue(u32),
    /// The value of a tag ends (carried) outside the message or before it starts.
    InvalidValueLength(Tag, u32),
    /// A framed response does not start with the frame marker.
    InvalidResponse,
    /// A required field is absent.
    MissingTag(Tag),
    /// A field is too short for the integer read from it.
    ValueTooShort(Tag),
    /// The system random number generator failed.
    RandomFailure,
    /// The long-term key did not sign the delegation.
    InvalidDeleSignature,
    /// The delegated key did not sign the signed response.
    InvalidSrepSignature,
    /// The nonce is not a leaf of the response's Merkle tree.
    NonceNotInTree,
    /// The midpoint lies before the delegation's validity span.
    MidpointBeforeDelegation,
    /// The midpoint lies after the delegation's validity span.
    MidpointAfterDelegation,
}

} // verus!
