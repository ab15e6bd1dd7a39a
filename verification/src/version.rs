//! The two versions of the Roughtime protocol.
use vstd::prelude::*;

verus! {

/// A Roughtime protocol version.
#[derive(Clone, Copy, Debug, PartialEq, Eq, Structural)]
pub enum Version {
    /// The first, pre-IETF protocol: unframed messages and SHA-512 hashes.
    Classic,
    /// The IETF protocol, framed messages and SHA-512/256 hashes.
    Rfc,
}

impl Version {
    /// The bytes of the `VER` field that announce this version.
    pub open spec fn spec_wire_bytes(self) -> Seq<u8> {
        match self {
            Version::Classic => seq![0x00u8, 0x00u8, 0x00u8, 0x00u8],
            Version::Rfc => seq![0x01u8, 0x00u8, 0x00u8, 0x80u8],
        }
    }

    /// The bytes of the `VER` field that announce this version.
    pub fn wire_bytes(self) -> (r: Vec<u8>)
        ensures
            r@ == self.spec_wire_bytes(),
    {
        let r = match self {
            Version::Classic => vec![0x00u8, 0x00u8, 0x00u8, 0x00u8],
            Version::Rfc => vec![0x01u8, 0x00u8, 0x00u8, 0x80u8],
        };
        assert(r@ =~= self.spec_wire_bytes());
        r
    }

    /// The version chosen by a protocol number: 0 is classic, 1 is the IETF protocol.
    pub fn from_protocol(protocol: u8) -> (r: Option<Version>)
        ensures
            protocol == 0 ==> r == Some(Version::Classic),
            protocol == 1 ==> r == Some(Version::Rfc),
            protocol > 1 ==> r is None,
    {
        if protocol == 0 {
            Some(Version::Classic)
        } else if protocol == 1 {
            Some(Version::Rfc)
        } else {
            None
        }
    }
}

} // verus!
