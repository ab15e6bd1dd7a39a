//! Building requests and unframing responses.
use vstd::prelude::*;

use crate::bytes::{bytes_equal, copy_range, le_u32_at, read_u32_le, zeros};
use crate::crypto::fill_random;
use crate::error::Error;
use crate::message::{
    lemma_encode_len, lemma_parse_encode, roundtrips, fields_sorted, frame_marker, parse_result_matches, spec_encode, spec_encode_framed,
    spec_encoded_size, spec_frame_marker, spec_from_bytes, spec_padding_length, values_concat,
    Fields, RtMessage, MIN_REQUEST_LENGTH,
};
use crate::tag::Tag;
use crate::version::Version;

verus! {

/// The random value a client sends and expects back in the server's Merkle tree.
pub type Nonce = Vec<u8>;

/// The length of a nonce.
pub open spec fn nonce_len(ver: Version) -> nat {
    match ver {
        Version::Classic => 64,
        Version::Rfc => 32,
    }
}

/// A fresh random nonce of the version's length, or `RandomFailure` when the
/// system random number generator fails.
pub fn create_nonce(ver: Version) -> (r: Result<Nonce, Error>)
    ensures
        r matches Ok(nonce) ==> nonce@.len() == nonce_len(ver),
        r matches Err(e) ==> e == Error::RandomFailure,
{
    let rng = ring::rand::SystemRandom::new();
    let len: usize = match ver {
        Version::Classic => 64,
        Version::Rfc => 32,
    };
    let mut nonce = zeros(len);
    let filled = fill_random(&rng, &mut nonce);
    nonce_from_fill(filled, nonce)
}

/// The nonce once the random number generator has filled it: the filled
/// buffer when the generator succeeded, `RandomFailure` when it failed.
pub fn nonce_from_fill(filled: Result<(), ring::error::Unspecified>, nonce: Nonce) -> (r: Result<
    Nonce,
    Error,
>)
    ensures
        filled is Ok ==> (r matches Ok(n) && n@ == nonce@),
        filled is Err ==> r == Err::<Nonce, Error>(Error::RandomFailure),
{
    match filled {
        Ok(()) => Ok(nonce),
        Err(_) => Err(Error::RandomFailure),
    }
}

/// The fields of a request before padding: the padding field is empty.
pub open spec fn request_base(ver: Version, nonce: Seq<u8>) -> Fields {
    match ver {
        Version::Classic => seq![(Tag::NONC, nonce), (Tag::PAD_CLASSIC, Seq::<u8>::empty())],
        Version::Rfc => seq![
            (Tag::PAD_RFC, Seq::<u8>::empty()),
            (Tag::VER, ver.spec_wire_bytes()),
            (Tag::NONC, nonce),
        ],
    }
}

/// The fields of a request: the padding field brings it to the minimum length.
pub open spec fn request_fields(ver: Version, nonce: Seq<u8>) -> Fields {
    let pad = Seq::new(spec_padding_length(request_base(ver, nonce)) as nat, |_i: int| 0u8);
    match ver {
        Version::Classic => seq![(Tag::NONC, nonce), (Tag::PAD_CLASSIC, pad)],
        Version::Rfc => seq![(Tag::PAD_RFC, pad), (Tag::VER, ver.spec_wire_bytes()), (Tag::NONC, nonce)],
    }
}

/// The bytes of a request: encoded, and framed in the IETF protocol.
pub open spec fn spec_make_request(ver: Version, nonce: Seq<u8>) -> Seq<u8> {
    match ver {
        Version::Classic => spec_encode(request_fields(ver, nonce)),
        Version::Rfc => spec_encode_framed(request_fields(ver, nonce)),
    }
}

/// The value area of a message grows by the value of each field added.
pub proof fn lemma_values_concat_push(f: Fields, x: (Tag, Seq<u8>))
    ensures
        values_concat(f.push(x)) == values_concat(f) + x.1,
{
    assert(f.push(x).drop_last() =~= f);
}

pub proof fn lemma_request_sizes(ver: Version, nonce: Seq<u8>)
    ensures
        request_base(ver, nonce).len() >= 2,
        spec_encoded_size(request_base(ver, nonce)) == match ver {
            Version::Classic => 16 + nonce.len(),
            Version::Rfc => 28 + nonce.len(),
        },
        spec_encoded_size(request_fields(ver, nonce)) == spec_encoded_size(request_base(ver, nonce))
            + spec_padding_length(request_base(ver, nonce)),
        spec_padding_length(request_base(ver, nonce)) >= 0,
        fields_sorted(request_base(ver, nonce)),
        fields_sorted(request_fields(ver, nonce)),
{
    let e = Seq::<(Tag, Seq<u8>)>::empty();
    assert(values_concat(e) =~= Seq::<u8>::empty());
    let base = request_base(ver, nonce);
    let full = request_fields(ver, nonce);
    let pad = Seq::new(spec_padding_length(base) as nat, |_i: int| 0u8);
    match ver {
        Version::Classic => {
            lemma_values_concat_push(e, base[0]);
            assert(e.push(base[0]).push(base[1]) =~= base);
            lemma_values_concat_push(e.push(base[0]), base[1]);
            lemma_values_concat_push(e, full[0]);
            assert(e.push(full[0]).push(full[1]) =~= full);
            lemma_values_concat_push(e.push(full[0]), full[1]);
        },
        Version::Rfc => {
            lemma_values_concat_push(e, base[0]);
            lemma_values_concat_push(e.push(base[0]), base[1]);
            assert(e.push(base[0]).push(base[1]).push(base[2]) =~= base);
            lemma_values_concat_push(e.push(base[0]).push(base[1]), base[2]);
            lemma_values_concat_push(e, full[0]);
            lemma_values_concat_push(e.push(full[0]), full[1]);
            assert(e.push(full[0]).push(full[1]).push(full[2]) =~= full);
            lemma_values_concat_push(e.push(full[0]).push(full[1]), full[2]);
        },
    }
}

/// The request for `nonce`: a nonce field and a padding field (and, in the IETF
/// protocol, a version field), padded to the minimum request length, encoded
/// and, in the IETF protocol, framed.
pub fn make_request(ver: Version, nonce: &[u8]) -> (r: Vec<u8>)
    requires
        nonce@.len() + MIN_REQUEST_LENGTH <= u32::MAX,
    ensures
        r@ == spec_make_request(ver, nonce@),
{
    proof {
        lemma_request_sizes(ver, nonce@);
    }
    let ghost base = request_base(ver, nonce@);
    let ghost full = request_fields(ver, nonce@);
    let mut msg = RtMessage::with_capacity(3);
    let empty: Vec<u8> = Vec::new();
    match ver {
        Version::Classic => {
            let _r1 = msg.add_field(Tag::NONC, nonce);
            let _r2 = msg.add_field(Tag::PAD_CLASSIC, empty.as_slice());
            assert(msg@ =~= base);
            let padding_needed = msg.calculate_padding_length();
            let padding = zeros(padding_needed);
            msg.clear();
            let _r3 = msg.add_field(Tag::NONC, nonce);
            let _r4 = msg.add_field(Tag::PAD_CLASSIC, padding.as_slice());
            assert(msg@ =~= full);
            msg.encode()
        },
        Version::Rfc => {
            let ver_bytes = ver.wire_bytes();
            let _r1 = msg.add_field(Tag::PAD_RFC, empty.as_slice());
            let _r2 = msg.add_field(Tag::VER, ver_bytes.as_slice());
            let _r3 = msg.add_field(Tag::NONC, nonce);
            assert(msg@ =~= base);
            let padding_needed = msg.calculate_padding_length();
            let padding = zeros(padding_needed);
            msg.clear();
            let _r4 = msg.add_field(Tag::PAD_RFC, padding.as_slice());
            let _r5 = msg.add_field(Tag::VER, ver_bytes.as_slice());
            let _r6 = msg.add_field(Tag::NONC, nonce);
            assert(msg@ =~= full);
            msg.encode_framed()
        },
    }
}

/// Whether `buf` starts with a well-formed frame: the frame marker, then a
/// length that does not run past the end of `buf`.
pub open spec fn spec_verify_framing(buf: Seq<u8>) -> Result<(), Error> {
    if buf.subrange(0, 8) != spec_frame_marker() {
        Err(Error::InvalidResponse)
    } else if le_u32_at(buf, 8) > buf.len() - 12 {
        Err(Error::MessageTooShort)
    } else {
        Ok(())
    }
}

/// Checks the frame that starts a response in the IETF protocol. A buffer too
/// short to hold the marker, or one that holds the marker but is too short for
/// the length after it, has no frame to check.
pub fn verify_framing(buf: &[u8]) -> (r: Result<(), Error>)
    requires
        buf@.len() >= 8,
        buf@.len() < 12 ==> buf@.subrange(0, 8) != spec_frame_marker(),
    ensures
        r == spec_verify_framing(buf@),
{
    let head = copy_range(buf, 0, 8);
    let marker = frame_marker();
    if !bytes_equal(head.as_slice(), marker.as_slice()) {
        return Err(Error::InvalidResponse);
    }
    let reported_len = read_u32_le(buf, 8);
    if (reported_len as usize) > buf.len() - 12 {
        return Err(Error::MessageTooShort);
    }
    Ok(())
}

/// The message a response of `buf_len` bytes, at the start of `buf`, holds.
pub open spec fn spec_receive_response(ver: Version, buf: Seq<u8>, buf_len: int) -> Result<Fields, Error> {
    match ver {
        Version::Classic => spec_from_bytes(buf.subrange(0, buf_len)),
        Version::Rfc => match spec_verify_framing(buf) {
            Err(e) => Err(e),
            Ok(()) => spec_from_bytes(buf.subrange(12, buf_len)),
        },
    }
}

/// Parses a response of `buf_len` bytes received into `buf`, or says why it
/// cannot. In the IETF protocol the frame of the whole buffer is checked and
/// the message follows it.
pub fn try_receive_response(ver: Version, buf: &[u8], buf_len: usize) -> (r: Result<RtMessage, Error>)
    requires
        buf_len <= buf@.len(),
        ver == Version::Rfc ==> 12 <= buf_len,
    ensures
        parse_result_matches(r, spec_receive_response(ver, buf@, buf_len as int)),
{
    match ver {
        Version::Classic => {
            let body = copy_range(buf, 0, buf_len);
            RtMessage::from_bytes(body.as_slice())
        },
        Version::Rfc => {
            match verify_framing(buf) {
                Err(e) => Err(e),
                Ok(()) => {
                    let body = copy_range(buf, 12, buf_len);
                    RtMessage::from_bytes(body.as_slice())
                },
            }
        },
    }
}

/// The message of a well-formed response of `buf_len` bytes received into
/// `buf`. In the IETF protocol the frame of the whole buffer is checked and the
/// message follows it.
pub fn receive_response(ver: Version, buf: &[u8], buf_len: usize) -> (r: RtMessage)
    requires
        buf_len <= buf@.len(),
        ver == Version::Rfc ==> 12 <= buf_len,
        spec_receive_response(ver, buf@, buf_len as int) is Ok,
    ensures
        spec_receive_response(ver, buf@, buf_len as int) == Ok::<Fields, Error>(r@),
        r.wf(),
{
    match try_receive_response(ver, buf, buf_len) {
        Ok(m) => m,
        Err(_) => {
            assert(false);
            RtMessage::new()
        },
    }
}

/// A response received whole, unframed in the classic protocol, gives back
/// the message that was encoded.
pub proof fn lemma_receive_classic(f: Fields)
    requires
        roundtrips(f),
    ensures
        spec_receive_response(Version::Classic, spec_encode(f), spec_encode(f).len() as int)
            == Ok::<Fields, Error>(f),
{
    let b = spec_encode(f);
    assert(b.subrange(0, b.len() as int) =~= b);
    lemma_parse_encode(f);
}

/// A framed response received whole gives back the message that was encoded.
pub proof fn lemma_receive_framed(f: Fields)
    requires
        roundtrips(f),
    ensures
        spec_receive_response(Version::Rfc, spec_encode_framed(f), spec_encode_framed(f).len() as int)
            == Ok::<Fields, Error>(f),
{
    let e = spec_encode(f);
    let b = spec_encode_framed(f);
    lemma_encode_len(f);
    crate::bytes::lemma_le_u32_roundtrip(e.len() as u32);
    assert(b.subrange(0, 8) =~= spec_frame_marker());
    assert(b.subrange(8, 12) =~= crate::bytes::le_u32_bytes(e.len() as u32));
    crate::bytes::lemma_le_u32_at_subrange(b, 8, 12, 0);
    assert(b.subrange(12, b.len() as int) =~= e);
    lemma_parse_encode(f);
}

/// A request is exactly the minimum request length, plus the twelve bytes of
/// the frame in the IETF protocol, when the nonce leaves room for padding.
pub proof fn lemma_request_length(ver: Version, nonce: Seq<u8>)
    requires
        nonce.len() + 28 <= MIN_REQUEST_LENGTH,
    ensures
        spec_make_request(ver, nonce).len() == match ver {
            Version::Classic => MIN_REQUEST_LENGTH as int,
            Version::Rfc => MIN_REQUEST_LENGTH + 12,
        },
{
    lemma_request_sizes(ver, nonce);
    lemma_encode_len(request_fields(ver, nonce));
}

proof fn lemma_request_roundtrips(ver: Version, nonce: Seq<u8>)
    requires
        nonce.len() % 4 == 0,
        nonce.len() + MIN_REQUEST_LENGTH <= u32::MAX,
    ensures
        roundtrips(request_fields(ver, nonce)),
{
    let f = request_fields(ver, nonce);
    let base = request_base(ver, nonce);
    lemma_request_sizes(ver, nonce);
    let p = spec_padding_length(base);
    assert(p % 4 == 0);
    match ver {
        Version::Classic => {
            assert(f[0].1.len() % 4 == 0);
            assert(f[1].1.len() % 4 == 0);
        },
        Version::Rfc => {
            assert(f[0].1.len() % 4 == 0);
            assert(f[1].1.len() % 4 == 0);
            assert(f[2].1.len() % 4 == 0);
        },
    }
    assert(forall|i: int| 0 <= i < f.len() ==> (#[trigger] f[i]).1.len() % 4 == 0);
}

/// A server that parses a request gets back its fields, among them the nonce.
pub proof fn lemma_request_parses(ver: Version, nonce: Seq<u8>)
    requires
        nonce.len() % 4 == 0,
        nonce.len() + MIN_REQUEST_LENGTH <= u32::MAX,
    ensures
        spec_receive_response(ver, spec_make_request(ver, nonce), spec_make_request(ver, nonce).len() as int)
            == Ok::<Fields, Error>(request_fields(ver, nonce)),
{
    lemma_request_roundtrips(ver, nonce);
    match ver {
        Version::Classic => lemma_receive_classic(request_fields(ver, nonce)),
        Version::Rfc => lemma_receive_framed(request_fields(ver, nonce)),
    }
}

/// A classic request read back whole holds exactly a nonce field and a
/// padding field, the nonce being the one sent.
pub proof fn lemma_classic_request_fields(nonce: Seq<u8>)
    requires
        nonce.len() == 64,
    ensures
        spec_receive_response(
            Version::Classic,
            spec_make_request(Version::Classic, nonce),
            spec_make_request(Version::Classic, nonce).len() as int,
        ) matches Ok(f) && f.len() == 2 && f[0] == (Tag::NONC, nonce) && f[1].0 == Tag::PAD_CLASSIC,
{
    lemma_request_parses(Version::Classic, nonce);
}

/// An IETF request read back whole holds exactly a padding field, a version
/// field announcing the IETF protocol, and a nonce field with the nonce sent.
pub proof fn lemma_rfc_request_fields(nonce: Seq<u8>)
    requires
        nonce.len() == 32,
    ensures
        spec_receive_response(
            Version::Rfc,
            spec_make_request(Version::Rfc, nonce),
            spec_make_request(Version::Rfc, nonce).len() as int,
        ) matches Ok(f) && f.len() == 3 && f[0].0 == Tag::PAD_RFC && f[1] == (
            Tag::VER,
            Version::Rfc.spec_wire_bytes(),
        ) && f[2] == (Tag::NONC, nonce),
{
    lemma_request_parses(Version::Rfc, nonce);
}

/// Requests of both protocols, made with nonces of their lengths, read back
/// as their fields: `NONC` and `PAD\xff` for the classic protocol; `PAD\0`,
/// `VER` and `NONC` for the IETF protocol, with the nonces sent.
pub proof fn lemma_requests_read_back(classic_nonce: Seq<u8>, rfc_nonce: Seq<u8>)
    requires
        classic_nonce.len() == 64,
        rfc_nonce.len() == 32,
    ensures
        spec_receive_response(
            Version::Classic,
            spec_make_request(Version::Classic, classic_nonce),
            spec_make_request(Version::Classic, classic_nonce).len() as int,
        ) matches Ok(f) && f.len() == 2 && f[0] == (Tag::NONC, classic_nonce) && f[1].0
            == Tag::PAD_CLASSIC,
        spec_receive_response(
            Version::Rfc,
            spec_make_request(Version::Rfc, rfc_nonce),
            spec_make_request(Version::Rfc, rfc_nonce).len() as int,
        ) matches Ok(f) && f.len() == 3 && f[0].0 == Tag::PAD_RFC && f[1] == (
            Tag::VER,
            Version::Rfc.spec_wire_bytes(),
        ) && f[2] == (Tag::NONC, rfc_nonce),
{
    lemma_classic_request_fields(classic_nonce);
    lemma_rfc_request_fields(rfc_nonce);
}

proof fn lemma_request_values(ver: Version, nonce: Seq<u8>)
    requires
        nonce.len() + 28 <= MIN_REQUEST_LENGTH,
    ensures
        ({
            let f = request_fields(ver, nonce);
            match ver {
                Version::Classic => values_concat(f) == nonce + Seq::new(
                    (1008 - nonce.len()) as nat,
                    |_i: int| 0u8,
                ),
                Version::Rfc => values_concat(f) == Seq::new((996 - nonce.len()) as nat, |_i: int| 0u8)
                    + ver.spec_wire_bytes() + nonce,
            }
        }),
{
    lemma_request_sizes(ver, nonce);
    let e = Seq::<(Tag, Seq<u8>)>::empty();
    assert(values_concat(e) =~= Seq::<u8>::empty());
    let full = request_fields(ver, nonce);
    match ver {
        Version::Classic => {
            lemma_values_concat_push(e, full[0]);
            assert(e.push(full[0]).push(full[1]) =~= full);
            lemma_values_concat_push(e.push(full[0]), full[1]);
            assert(values_concat(full) =~= nonce + Seq::new((1008 - nonce.len()) as nat, |_i: int| 0u8));
        },
        Version::Rfc => {
            lemma_values_concat_push(e, full[0]);
            lemma_values_concat_push(e.push(full[0]), full[1]);
            assert(e.push(full[0]).push(full[1]).push(full[2]) =~= full);
            lemma_values_concat_push(e.push(full[0]).push(full[1]), full[2]);
            assert(values_concat(full) =~= Seq::new((996 - nonce.len()) as nat, |_i: int| 0u8)
                + ver.spec_wire_bytes() + nonce);
        },
    }
}

/// The bytes of a classic request for a nonce that leaves room for padding:
/// 1024 bytes holding the field count 2, the nonce's length as the one offset,
/// the tags `NONC` and `PAD\xff`, the nonce, and zeros up to the end.
pub proof fn lemma_classic_request_bytes(nonce: Seq<u8>)
    requires
        nonce.len() + 28 <= MIN_REQUEST_LENGTH,
    ensures
        ({
            let r = spec_make_request(Version::Classic, nonce);
            &&& r.len() == MIN_REQUEST_LENGTH
            &&& le_u32_at(r, 0) == 2
            &&& le_u32_at(r, 4) == nonce.len()
            &&& le_u32_at(r, 8) == Tag::NONC.spec_wire_value()
            &&& le_u32_at(r, 12) == Tag::PAD_CLASSIC.spec_wire_value()
            &&& r.subrange(16, 16 + nonce.len() as int) == nonce
            &&& forall|j: int| 16 + nonce.len() <= j < MIN_REQUEST_LENGTH ==> r[j] == 0
        }),
{
    let ver = Version::Classic;
    let f = request_fields(ver, nonce);
    let r = spec_encode(f);
    lemma_request_sizes(ver, nonce);
    lemma_request_values(ver, nonce);
    lemma_request_length(ver, nonce);
    crate::message::lemma_encode_layout(f);
    crate::message::lemma_encode_tag_word(f, 0);
    crate::message::lemma_encode_tag_word(f, 1);
    crate::message::lemma_encode_offset_word(f, 1);
    crate::bytes::lemma_le_u32_roundtrip(2);
    assert(r.subrange(0, 4) == crate::bytes::le_u32_bytes(2));
    crate::bytes::lemma_le_u32_at_subrange(r, 0, 4, 0);
    lemma_values_concat_push(Seq::<(Tag, Seq<u8>)>::empty(), f[0]);
    assert(f.take(1) =~= Seq::<(Tag, Seq<u8>)>::empty().push(f[0]));
    assert(values_concat(Seq::<(Tag, Seq<u8>)>::empty()) =~= Seq::<u8>::empty());
    let v = r.subrange(16, 1024);
    assert(r.subrange(16, 16 + nonce.len() as int) =~= v.subrange(0, nonce.len() as int));
    assert forall|j: int| 16 + nonce.len() <= j < MIN_REQUEST_LENGTH implies r[j] == 0 by {
        assert(r[j] == v[j - 16]);
    }
}

proof fn lemma_rfc_message_bytes(nonce: Seq<u8>)
    requires
        nonce.len() + 28 <= MIN_REQUEST_LENGTH,
    ensures
        ({
            let e = spec_encode(request_fields(Version::Rfc, nonce));
            let pad = 996 - nonce.len();
            &&& e.len() == MIN_REQUEST_LENGTH
            &&& le_u32_at(e, 0) == 3
            &&& le_u32_at(e, 12) == Tag::PAD_RFC.spec_wire_value()
            &&& le_u32_at(e, 16) == Tag::VER.spec_wire_value()
            &&& le_u32_at(e, 20) == Tag::NONC.spec_wire_value()
            &&& forall|j: int| 24 <= j < 24 + pad ==> e[j] == 0
            &&& e.subrange(24 + pad, 28 + pad) == Version::Rfc.spec_wire_bytes()
            &&& e.subrange(28 + pad, MIN_REQUEST_LENGTH as int) == nonce
        }),
{
    let ver = Version::Rfc;
    let f = request_fields(ver, nonce);
    let e = spec_encode(f);
    lemma_request_sizes(ver, nonce);
    lemma_request_values(ver, nonce);
    lemma_encode_len(f);
    crate::message::lemma_encode_layout(f);
    crate::message::lemma_encode_tag_word(f, 0);
    crate::message::lemma_encode_tag_word(f, 1);
    crate::message::lemma_encode_tag_word(f, 2);
    crate::bytes::lemma_le_u32_roundtrip(3);
    crate::bytes::lemma_le_u32_at_subrange(e, 0, 4, 0);
    let pad = 996 - nonce.len();
    let v = e.subrange(24, 1024);
    assert forall|j: int| 24 <= j < 24 + pad implies e[j] == 0 by {
        assert(e[j] == v[j - 24]);
    }
    assert(e.subrange(24 + pad, 28 + pad) =~= v.subrange(pad, pad + 4));
    assert(e.subrange(28 + pad, 1024) =~= v.subrange(pad + 4, 1000));
}

/// The bytes of an IETF request for a nonce that leaves room for padding: the
/// frame marker, the length 1024, then a message of three fields whose
/// padding value is all zeros, followed by the version bytes and the nonce.
pub proof fn lemma_rfc_request_bytes(nonce: Seq<u8>)
    requires
        nonce.len() + 28 <= MIN_REQUEST_LENGTH,
    ensures
        ({
            let r = spec_make_request(Version::Rfc, nonce);
            let pad = 996 - nonce.len();
            &&& r.len() == MIN_REQUEST_LENGTH + 12
            &&& r.subrange(0, 8) == spec_frame_marker()
            &&& le_u32_at(r, 8) == MIN_REQUEST_LENGTH
            &&& le_u32_at(r, 12) == 3
            &&& le_u32_at(r, 24) == Tag::PAD_RFC.spec_wire_value()
            &&& le_u32_at(r, 28) == Tag::VER.spec_wire_value()
            &&& le_u32_at(r, 32) == Tag::NONC.spec_wire_value()
            &&& forall|j: int| 36 <= j < 36 + pad ==> r[j] == 0
            &&& r.subrange(36 + pad, 40 + pad) == Version::Rfc.spec_wire_bytes()
            &&& r.subrange(40 + pad, MIN_REQUEST_LENGTH + 12) == nonce
        }),
{
    let f = request_fields(Version::Rfc, nonce);
    let e = spec_encode(f);
    let r = spec_encode_framed(f);
    lemma_rfc_message_bytes(nonce);
    crate::bytes::lemma_le_u32_roundtrip(1024);
    assert(r.subrange(0, 8) =~= spec_frame_marker());
    assert(r.subrange(8, 12) =~= crate::bytes::le_u32_bytes(1024));
    crate::bytes::lemma_le_u32_at_subrange(r, 8, 12, 0);
    assert(r.subrange(12, 1036) =~= e);
    assert forall|k: int| 0 <= k < 1024 implies r[12 + k] == e[k] by {}
    let pad = 996 - nonce.len();
    assert(le_u32_at(r, 12) == le_u32_at(e, 0));
    assert(le_u32_at(r, 24) == le_u32_at(e, 12));
    assert(le_u32_at(r, 28) == le_u32_at(e, 16));
    assert(le_u32_at(r, 32) == le_u32_at(e, 20));
    assert forall|j: int| 36 <= j < 36 + pad implies r[j] == 0 by {
        assert(r[j] == e[j - 12]);
    }
    assert(r.subrange(36 + pad, 40 + pad) =~= e.subrange(24 + pad, 28 + pad));
    assert(r.subrange(40 + pad, 1036) =~= e.subrange(28 + pad, 1024));
}

} // verus!
