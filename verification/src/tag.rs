//! The tags that name the fields of a Roughtime message.
use vstd::prelude::*;

verus! {

/// A field tag. On the wire a tag is four ASCII bytes; the tags of a message
/// are ordered by the little-endian integer value of those bytes.
#[allow(non_camel_case_types)]
#[derive(Clone, Copy, Debug, PartialEq, Eq, Structural)]
pub enum Tag {
    /// `PAD\x00`, padding of requests in the IETF protocol
    PAD_RFC,
    /// `SIG\x00`
    SIG,
    /// `VER\x00`
    VER,
    /// `NONC`
    NONC,
    /// `DELE`
    DELE,
    /// `PATH`
    PATH,
    /// `RADI`
    RADI,
    /// `PUBK`
    PUBK,
    /// `MIDP`
    MIDP,
    /// `SREP`
    SREP,
    /// `MINT`
    MINT,
    /// `ROOT`
    ROOT,
    /// `CERT`
    CERT,
    /// `MAXT`
    MAXT,
    /// `INDX`
    INDX,
    /// `PAD\xff`, padding of requests in the classic protocol
    PAD_CLASSIC,
}

impl Tag {
    /// The little-endian value of the tag's four wire bytes.
    pub open spec fn spec_wire_value(self) -> u32 {
        match self {
            Tag::PAD_RFC => 0x00444150u32,
            Tag::SIG => 0x00474953u32,
            Tag::VER => 0x00524556u32,
            Tag::NONC => 0x434e4f4eu32,
            Tag::DELE => 0x454c4544u32,
            Tag::PATH => 0x48544150u32,
            Tag::RADI => 0x49444152u32,
            Tag::PUBK => 0x4b425550u32,
            Tag::MIDP => 0x5044494du32,
            Tag::SREP => 0x50455253u32,
            Tag::MINT => 0x544e494du32,
            Tag::ROOT => 0x544f4f52u32,
            Tag::CERT => 0x54524543u32,
            Tag::MAXT => 0x5458414du32,
            Tag::INDX => 0x58444e49u32,
            Tag::PAD_CLASSIC => 0xff444150u32,
        }
    }

    /// The tag whose wire value is `v`, if any.
    pub open spec fn spec_from_wire(v: u32) -> Option<Tag> {
        if v == 0x00444150u32 {
            Some(Tag::PAD_RFC)
        } else if v == 0x00474953u32 {
            Some(Tag::SIG)
        } else if v == 0x00524556u32 {
            Some(Tag::VER)
        } else if v == 0x434e4f4eu32 {
            Some(Tag::NONC)
        } else if v == 0x454c4544u32 {
            Some(Tag::DELE)
        } else if v == 0x48544150u32 {
            Some(Tag::PATH)
        } else if v == 0x49444152u32 {
            Some(Tag::RADI)
        } else if v == 0x4b425550u32 {
            Some(Tag::PUBK)
        } else if v == 0x5044494du32 {
            Some(Tag::MIDP)
        } else if v == 0x50455253u32 {
            Some(Tag::SREP)
        } else if v == 0x544e494du32 {
            Some(Tag::MINT)
        } else if v == 0x544f4f52u32 {
            Some(Tag::ROOT)
        } else if v == 0x54524543u32 {
            Some(Tag::CERT)
        } else if v == 0x5458414du32 {
            Some(Tag::MAXT)
        } else if v == 0x58444e49u32 {
            Some(Tag::INDX)
        } else if v == 0xff444150u32 {
            Some(Tag::PAD_CLASSIC)
        } else {
            None
        }
    }

    /// The little-endian value of the tag's four wire bytes.
    pub fn wire_value(self) -> (v: u32)
        ensures
            v == self.spec_wire_value(),
    {
        match self {
            Tag::PAD_RFC => 0x00444150u32,
            Tag::SIG => 0x00474953u32,
            Tag::VER => 0x00524556u32,
            Tag::NONC => 0x434e4f4eu32,
            Tag::DELE => 0x454c4544u32,
            Tag::PATH => 0x48544150u32,
            Tag::RADI => 0x49444152u32,
            Tag::PUBK => 0x4b425550u32,
            Tag::MIDP => 0x5044494du32,
            Tag::SREP => 0x50455253u32,
            Tag::MINT => 0x544e494du32,
            Tag::ROOT => 0x544f4f52u32,
            Tag::CERT => 0x54524543u32,
            Tag::MAXT => 0x5458414du32,
            Tag::INDX => 0x58444e49u32,
            Tag::PAD_CLASSIC => 0xff444150u32,
        }
    }

    /// The tag whose wire value is `v`, or `None` for a value that names no tag.
    pub fn from_wire(v: u32) -> (r: Option<Tag>)
        ensures
            r == Tag::spec_from_wire(v),
    {
        if v == 0x00444150u32 {
            Some(Tag::PAD_RFC)
        } else if v == 0x00474953u32 {
            Some(Tag::SIG)
        } else if v == 0x00524556u32 {
            Some(Tag::VER)
        } else if v == 0x434e4f4eu32 {
            Some(Tag::NONC)
        } else if v == 0x454c4544u32 {
            Some(Tag::DELE)
        } else if v == 0x48544150u32 {
            Some(Tag::PATH)
        } else if v == 0x49444152u32 {
            Some(Tag::RADI)
        } else if v == 0x4b425550u32 {
            Some(Tag::PUBK)
        } else if v == 0x5044494du32 {
            Some(Tag::MIDP)
        } else if v == 0x50455253u32 {
            Some(Tag::SREP)
        } else if v == 0x544e494du32 {
            Some(Tag::MINT)
        } else if v == 0x544f4f52u32 {
            Some(Tag::ROOT)
        } else if v == 0x54524543u32 {
            Some(Tag::CERT)
        } else if v == 0x5458414du32 {
            Some(Tag::MAXT)
        } else if v == 0x58444e49u32 {
            Some(Tag::INDX)
        } else if v == 0xff444150u32 {
            Some(Tag::PAD_CLASSIC)
        } else {
            None
        }
    }
}

/// Every tag is recognised again from its wire value, and a wire value is
/// recognised only as the tag that has it.
pub proof fn lemma_wire_value_roundtrip(t: Tag, v: u32)
    ensures
        Tag::spec_from_wire(t.spec_wire_value()) == Some(t),
        Tag::spec_from_wire(v) == Some(t) ==> t.spec_wire_value() == v,
{
}

} // verus!
