//! Reading a server's public key from text.
use vstd::prelude::*;

verus! {

#[verifier::external_type_specification]
#[verifier::external_body]
pub struct ExDecodeError(data_encoding::DecodeError);

/// A text encoding of `data_encoding`.
#[derive(Clone, Copy, Debug, PartialEq, Eq, Structural)]
pub enum TextEncoding {
    /// `data_encoding::HEXLOWER_PERMISSIVE`
    HexLowerPermissive,
    /// `data_encoding::BASE64`
    Base64,
}

/// The bytes that `data_encoding` decodes from `input`, or `None` for an
/// input that is not valid in the encoding.
pub uninterp spec fn decoded(encoding: TextEncoding, input: Seq<u8>) -> Option<Seq<u8>>;

/// Calls `data_encoding::Encoding::decode` on `HEXLOWER_PERMISSIVE` or
/// `BASE64`. Claimed: it succeeds exactly when `decoded` is some value, a
/// function of the encoding and the input alone, and then gives that value.
#[verifier::external_body]
fn decode(encoding: TextEncoding, input: &[u8]) -> (r: Result<Vec<u8>, data_encoding::DecodeError>)
    ensures
        match r {
            Ok(v) => decoded(encoding, input@) == Some(v@),
            Err(_) => decoded(encoding, input@) is None,
        },
{
    match encoding {
        TextEncoding::HexLowerPermissive => data_encoding::HEXLOWER_PERMISSIVE.decode(input),
        TextEncoding::Base64 => data_encoding::BASE64.decode(input),
    }
}

/// The public key written as `text`: hexadecimal if it decodes so, else Base64.
pub open spec fn spec_parse_public_key(text: Seq<u8>) -> Option<Seq<u8>> {
    match decoded(TextEncoding::HexLowerPermissive, text) {
        Some(k) => Some(k),
        None => decoded(TextEncoding::Base64, text),
    }
}

/// The public key written as `text`: hexadecimal if it decodes so, else
/// Base64; `None` when it is neither.
pub fn parse_public_key(text: &[u8]) -> (r: Option<Vec<u8>>)
    ensures
        match r {
            Some(k) => spec_parse_public_key(text@) == Some(k@),
            None => spec_parse_public_key(text@) is None,
        },
{
    match decode(TextEncoding::HexLowerPermissive, text) {
        Ok(k) => Some(k),
        Err(_) => match decode(TextEncoding::Base64, text) {
            Ok(k) => Some(k),
            Err(_) => None,
        },
    }
}

} // verus!
