//! Reading the time out of a server's response, and checking it.
use std::collections::HashMap;
use vstd::prelude::*;

use crate::bytes::{append_bytes, le_u32_at, le_u64_at, read_u32_le, read_u64_le};
use crate::crypto::{digest_len, digest_of, ed25519_accepts, ed25519_verify, HashAlgorithm};
use crate::error::Error;
use crate::merkle::{MerkleTree, TREE_LEAF_TWEAK, TREE_NODE_TWEAK};
use crate::message::{fields_model, lookup, map_model, spec_from_bytes, Fields, RtMessage};
use crate::request::{spec_receive_response, try_receive_response, Nonce};
use crate::tag::Tag;
use crate::version::Version;

verus! {

/// The prefix of the bytes that the long-term key signs: `RoughTime v1 delegation signature--\0`.
pub open spec fn spec_certificate_context() -> Seq<u8> {
    seq![0x52u8, 0x6fu8, 0x75u8, 0x67u8, 0x68u8, 0x54u8, 0x69u8, 0x6du8, 0x65u8, 0x20u8, 0x76u8, 0x31u8, 0x20u8, 0x64u8, 0x65u8, 0x6cu8, 0x65u8, 0x67u8, 0x61u8, 0x74u8, 0x69u8, 0x6fu8, 0x6eu8, 0x20u8, 0x73u8, 0x69u8, 0x67u8, 0x6eu8, 0x61u8, 0x74u8, 0x75u8, 0x72u8, 0x65u8, 0x2du8, 0x2du8, 0x00u8]
}

/// The prefix of the bytes that the delegated key signs: `RoughTime v1 response signature\0`.
pub open spec fn spec_signed_response_context() -> Seq<u8> {
    seq![0x52u8, 0x6fu8, 0x75u8, 0x67u8, 0x68u8, 0x54u8, 0x69u8, 0x6du8, 0x65u8, 0x20u8, 0x76u8, 0x31u8, 0x20u8, 0x72u8, 0x65u8, 0x73u8, 0x70u8, 0x6fu8, 0x6eu8, 0x73u8, 0x65u8, 0x20u8, 0x73u8, 0x69u8, 0x67u8, 0x6eu8, 0x61u8, 0x74u8, 0x75u8, 0x72u8, 0x65u8, 0x00u8]
}

/// The prefix of the bytes that the long-term key signs.
pub fn certificate_context() -> (r: Vec<u8>)
    ensures
        r@ == spec_certificate_context(),
{
    let r = vec![0x52u8, 0x6fu8, 0x75u8, 0x67u8, 0x68u8, 0x54u8, 0x69u8, 0x6du8, 0x65u8, 0x20u8, 0x76u8, 0x31u8, 0x20u8, 0x64u8, 0x65u8, 0x6cu8, 0x65u8, 0x67u8, 0x61u8, 0x74u8, 0x69u8, 0x6fu8, 0x6eu8, 0x20u8, 0x73u8, 0x69u8, 0x67u8, 0x6eu8, 0x61u8, 0x74u8, 0x75u8, 0x72u8, 0x65u8, 0x2du8, 0x2du8, 0x00u8];
    assert(r@ =~= spec_certificate_context());
    r
}

/// The prefix of the bytes that the delegated key signs.
pub fn signed_response_context() -> (r: Vec<u8>)
    ensures
        r@ == spec_signed_response_context(),
{
    let r = vec![0x52u8, 0x6fu8, 0x75u8, 0x67u8, 0x68u8, 0x54u8, 0x69u8, 0x6du8, 0x65u8, 0x20u8, 0x76u8, 0x31u8, 0x20u8, 0x72u8, 0x65u8, 0x73u8, 0x70u8, 0x6fu8, 0x6eu8, 0x73u8, 0x65u8, 0x20u8, 0x73u8, 0x69u8, 0x67u8, 0x6eu8, 0x61u8, 0x74u8, 0x75u8, 0x72u8, 0x65u8, 0x00u8];
    assert(r@ =~= spec_signed_response_context());
    r
}

/// The value of `tag` in `m`, or `MissingTag`.
pub open spec fn spec_field(m: Map<u32, Seq<u8>>, tag: Tag) -> Result<Seq<u8>, Error> {
    match lookup(m, tag) {
        Some(v) => Ok(v),
        None => Err(Error::MissingTag(tag)),
    }
}

/// The little-endian `u32` at the start of the value of `tag`.
pub open spec fn spec_u32_field(m: Map<u32, Seq<u8>>, tag: Tag) -> Result<u32, Error> {
    match spec_field(m, tag) {
        Err(e) => Err(e),
        Ok(v) => if v.len() < 4 {
            Err(Error::ValueTooShort(tag))
        } else {
            Ok(le_u32_at(v, 0) as u32)
        },
    }
}

/// The little-endian `u64` at the start of the value of `tag`.
pub open spec fn spec_u64_field(m: Map<u32, Seq<u8>>, tag: Tag) -> Result<u64, Error> {
    match spec_field(m, tag) {
        Err(e) => Err(e),
        Ok(v) => if v.len() < 8 {
            Err(Error::ValueTooShort(tag))
        } else {
            Ok(le_u64_at(v, 0) as u64)
        },
    }
}

/// The value of `tag` in `m`, or `MissingTag`.
pub fn get_field(m: &HashMap<u32, Vec<u8>>, tag: Tag) -> (r: Result<&Vec<u8>, Error>)
    ensures
        match r {
            Ok(v) => spec_field(map_model(m@), tag) == Ok::<Seq<u8>, Error>(v@),
            Err(e) => spec_field(map_model(m@), tag) == Err::<Seq<u8>, Error>(e),
        },
{
    broadcast use vstd::std_specs::hash::group_hash_axioms;

    let key = tag.wire_value();
    match m.get(&key) {
        Some(v) => Ok(v),
        None => Err(Error::MissingTag(tag)),
    }
}

/// The little-endian `u32` at the start of the value of `tag`.
pub fn u32_field(m: &HashMap<u32, Vec<u8>>, tag: Tag) -> (r: Result<u32, Error>)
    ensures
        r == spec_u32_field(map_model(m@), tag),
{
    let v = match get_field(m, tag) {
        Ok(v) => v,
        Err(e) => return Err(e),
    };
    if v.len() < 4 {
        return Err(Error::ValueTooShort(tag));
    }
    Ok(read_u32_le(v.as_slice(), 0))
}

/// The little-endian `u64` at the start of the value of `tag`.
pub fn u64_field(m: &HashMap<u32, Vec<u8>>, tag: Tag) -> (r: Result<u64, Error>)
    ensures
        r == spec_u64_field(map_model(m@), tag),
{
    let v = match get_field(m, tag) {
        Ok(v) => v,
        Err(e) => return Err(e),
    };
    if v.len() < 8 {
        return Err(Error::ValueTooShort(tag));
    }
    Ok(read_u64_le(v.as_slice()))
}


/// The time a response carries, and whether it was checked.
#[derive(Clone, Copy, Debug, PartialEq, Eq, Structural)]
pub struct ParsedResponse {
    /// Whether every check of the response against the server's key passed.
    pub verified: bool,
    /// The midpoint of the server's time interval, in microseconds since the epoch.
    pub midpoint: u64,
    /// The radius of the interval, in microseconds.
    pub radius: u32,
}

/// What a response handler holds, as mathematical values.
pub struct HandlerModel {
    pub pub_key: Option<Seq<u8>>,
    pub msg: Map<u32, Seq<u8>>,
    pub srep: Map<u32, Seq<u8>>,
    pub cert: Map<u32, Seq<u8>>,
    pub dele: Map<u32, Seq<u8>>,
    pub nonce: Seq<u8>,
    pub version: Version,
}

/// The view of an optional byte vector.
pub open spec fn option_bytes(v: Option<Vec<u8>>) -> Option<Seq<u8>> {
    match v {
        Some(b) => Some(b@),
        None => None,
    }
}

/// The signed response, certificate and delegation that a response holds,
/// each parsed, or the first error met.
pub open spec fn spec_response_parts(f: Fields) -> Result<(Fields, Fields, Fields), Error> {
    match spec_field(fields_model(f), Tag::SREP) {
        Err(e) => Err(e),
        Ok(srep_bytes) => match spec_from_bytes(srep_bytes) {
            Err(e) => Err(e),
            Ok(srep) => match spec_field(fields_model(f), Tag::CERT) {
                Err(e) => Err(e),
                Ok(cert_bytes) => match spec_from_bytes(cert_bytes) {
                    Err(e) => Err(e),
                    Ok(cert) => match spec_field(fields_model(cert), Tag::DELE) {
                        Err(e) => Err(e),
                        Ok(dele_bytes) => match spec_from_bytes(dele_bytes) {
                            Err(e) => Err(e),
                            Ok(dele) => Ok((srep, cert, dele)),
                        },
                    },
                },
            },
        },
    }
}

/// The handler made for a response, or why none can be made.
pub open spec fn spec_new_handler(
    version: Version,
    pub_key: Option<Seq<u8>>,
    response: Fields,
    nonce: Seq<u8>,
) -> Result<HandlerModel, Error> {
    match spec_response_parts(response) {
        Err(e) => Err(e),
        Ok((srep, cert, dele)) => Ok(
            HandlerModel {
                pub_key,
                msg: fields_model(response),
                srep: fields_model(srep),
                cert: fields_model(cert),
                dele: fields_model(dele),
                nonce,
                version,
            },
        ),
    }
}

/// The hash function of a version's Merkle tree.
pub open spec fn merkle_algorithm(version: Version) -> HashAlgorithm {
    match version {
        Version::Classic => HashAlgorithm::Sha512,
        Version::Rfc => HashAlgorithm::Sha512_256,
    }
}

/// The long-term key signed the delegation.
pub open spec fn spec_validate_dele(h: HandlerModel) -> Result<(), Error> {
    match spec_field(h.cert, Tag::DELE) {
        Err(e) => Err(e),
        Ok(dele) => match spec_field(h.cert, Tag::SIG) {
            Err(e) => Err(e),
            Ok(sig) => if ed25519_accepts(h.pub_key.unwrap(), spec_certificate_context() + dele, sig) {
                Ok(())
            } else {
                Err(Error::InvalidDeleSignature)
            },
        },
    }
}

/// The delegated key signed the signed response.
pub open spec fn spec_validate_srep(h: HandlerModel) -> Result<(), Error> {
    match spec_field(h.msg, Tag::SREP) {
        Err(e) => Err(e),
        Ok(srep) => match spec_field(h.dele, Tag::PUBK) {
            Err(e) => Err(e),
            Ok(pubk) => match spec_field(h.msg, Tag::SIG) {
                Err(e) => Err(e),
                Ok(sig) => if ed25519_accepts(pubk, spec_signed_response_context() + srep, sig) {
                    Ok(())
                } else {
                    Err(Error::InvalidSrepSignature)
                },
            },
        },
    }
}

/// The nonce is leaf `INDX` of the tree whose root the signed response holds.
pub open spec fn spec_validate_merkle(h: HandlerModel) -> Result<(), Error> {
    match spec_field(h.msg, Tag::SREP) {
        Err(e) => Err(e),
        Ok(srep_bytes) => match spec_from_bytes(srep_bytes) {
            Err(e) => Err(e),
            Ok(srep) => match spec_u32_field(h.msg, Tag::INDX) {
                Err(e) => Err(e),
                Ok(index) => match spec_field(h.msg, Tag::PATH) {
                    Err(e) => Err(e),
                    Ok(paths) => {
                        let tree = MerkleTree { algorithm: merkle_algorithm(h.version) };
                        let hash = tree.spec_root_from_paths(index as nat, h.nonce, paths);
                        match spec_field(fields_model(srep), Tag::ROOT) {
                            Err(e) => Err(e),
                            Ok(root) => if hash == root {
                                Ok(())
                            } else {
                                Err(Error::NonceNotInTree)
                            },
                        }
                    },
                },
            },
        },
    }
}

/// The midpoint lies within the delegation's span `MINT..=MAXT`.
pub open spec fn spec_validate_midpoint(h: HandlerModel, midpoint: u64) -> Result<(), Error> {
    match spec_u64_field(h.dele, Tag::MINT) {
        Err(e) => Err(e),
        Ok(mint) => match spec_u64_field(h.dele, Tag::MAXT) {
            Err(e) => Err(e),
            Ok(maxt) => if midpoint < mint {
                Err(Error::MidpointBeforeDelegation)
            } else if midpoint > maxt {
                Err(Error::MidpointAfterDelegation)
            } else {
                Ok(())
            },
        },
    }
}

/// The time a response carries; with a public key, only once every check passed.
pub open spec fn spec_extract_time(h: HandlerModel) -> Result<ParsedResponse, Error> {
    match spec_u64_field(h.srep, Tag::MIDP) {
        Err(e) => Err(e),
        Ok(midpoint) => match spec_u32_field(h.srep, Tag::RADI) {
            Err(e) => Err(e),
            Ok(radius) => match h.pub_key {
                None => Ok(ParsedResponse { verified: false, midpoint, radius }),
                Some(_) => match spec_validate_dele(h) {
                    Err(e) => Err(e),
                    Ok(()) => match spec_validate_srep(h) {
                        Err(e) => Err(e),
                        Ok(()) => match spec_validate_merkle(h) {
                            Err(e) => Err(e),
                            Ok(()) => match spec_validate_midpoint(h, midpoint) {
                                Err(e) => Err(e),
                                Ok(()) => Ok(ParsedResponse { verified: true, midpoint, radius }),
                            },
                        },
                    },
                },
            },
        },
    }
}

/// A server's response, split into its nested messages.
pub struct ResponseHandler {
    /// The server's long-term public key; without it nothing is checked.
    pub_key: Option<Vec<u8>>,
    /// The top-level message.
    msg: HashMap<u32, Vec<u8>>,
    /// The signed response, as parsed from the top-level message.
    srep: HashMap<u32, Vec<u8>>,
    /// The certificate, as parsed from the top-level message.
    cert: HashMap<u32, Vec<u8>>,
    /// The delegation, as parsed from the certificate.
    dele: HashMap<u32, Vec<u8>>,
    /// The nonce of the request.
    nonce: Nonce,
    /// The protocol version.
    version: Version,
}

/// The signed response, certificate and delegation of `h` are the ones parsed
/// from its top-level message and certificate.
pub open spec fn parts_of(h: HandlerModel) -> bool {
    &&& spec_field(h.msg, Tag::SREP) matches Ok(b) && spec_from_bytes(b) matches Ok(f)
        && h.srep == fields_model(f)
    &&& spec_field(h.msg, Tag::CERT) matches Ok(b) && spec_from_bytes(b) matches Ok(f)
        && h.cert == fields_model(f)
    &&& spec_field(h.cert, Tag::DELE) matches Ok(b) && spec_from_bytes(b) matches Ok(f)
        && h.dele == fields_model(f)
}

/// Every handler made from a response holds that response's own parts.
pub proof fn lemma_new_handler_parts(
    version: Version,
    pub_key: Option<Seq<u8>>,
    response: Fields,
    nonce: Seq<u8>,
)
    ensures
        spec_new_handler(version, pub_key, response, nonce) matches Ok(h) ==> parts_of(h),
{
}

impl ResponseHandler {
    /// What the handler holds, as mathematical values.
    pub closed spec fn model(&self) -> HandlerModel {
        HandlerModel {
            pub_key: option_bytes(self.pub_key),
            msg: map_model(self.msg@),
            srep: map_model(self.srep@),
            cert: map_model(self.cert@),
            dele: map_model(self.dele@),
            nonce: self.nonce@,
            version: self.version,
        }
    }

    /// A handler's parts are those of its top-level message.
    #[verifier::type_invariant]
    spec fn parts_consistent(&self) -> bool {
        parts_of(self.model())
    }

    /// The top-level message, whose parts the handler holds.
    pub fn msg(&self) -> (r: &HashMap<u32, Vec<u8>>)
        ensures
            map_model(r@) == self.model().msg,
            parts_of(self.model()),
    {
        proof {
            use_type_invariant(self);
        }
        &self.msg
    }

    /// The signed response.
    pub fn srep(&self) -> (r: &HashMap<u32, Vec<u8>>)
        ensures
            map_model(r@) == self.model().srep,
    {
        &self.srep
    }


    /// The delegation.
    pub fn dele(&self) -> (r: &HashMap<u32, Vec<u8>>)
        ensures
            map_model(r@) == self.model().dele,
    {
        &self.dele
    }

    /// Splits a response into the top-level message, the signed response, the
    /// certificate and the delegation, or says which part is missing or does
    /// not parse.
    pub fn try_new(version: Version, pub_key: Option<Vec<u8>>, response: RtMessage, nonce: Nonce) -> (r:
        Result<ResponseHandler, Error>)
        ensures
            match r {
                Ok(h) => spec_new_handler(version, option_bytes(pub_key), response@, nonce@) == Ok::<
                    HandlerModel,
                    Error,
                >(h.model()),
                Err(e) => spec_new_handler(version, option_bytes(pub_key), response@, nonce@) == Err::<
                    HandlerModel,
                    Error,
                >(e),
            },
    {
        let ghost f = response@;
        let msg = response.into_hash_map();
        let srep_msg = match get_field(&msg, Tag::SREP) {
            Ok(v) => RtMessage::from_bytes(v.as_slice()),
            Err(e) => return Err(e),
        };
        let srep_msg = match srep_msg {
            Ok(m) => m,
            Err(e) => return Err(e),
        };
        let ghost srep_f = srep_msg@;
        let srep = srep_msg.into_hash_map();
        let cert_msg = match get_field(&msg, Tag::CERT) {
            Ok(v) => RtMessage::from_bytes(v.as_slice()),
            Err(e) => return Err(e),
        };
        let cert_msg = match cert_msg {
            Ok(m) => m,
            Err(e) => return Err(e),
        };
        let ghost cert_f = cert_msg@;
        let cert = cert_msg.into_hash_map();
        let dele_msg = match get_field(&cert, Tag::DELE) {
            Ok(v) => RtMessage::from_bytes(v.as_slice()),
            Err(e) => return Err(e),
        };
        let dele_msg = match dele_msg {
            Ok(m) => m,
            Err(e) => return Err(e),
        };
        let ghost dele_f = dele_msg@;
        let dele = dele_msg.into_hash_map();
        let h = ResponseHandler { pub_key, msg, srep, cert, dele, nonce, version };
        Ok(h)
    }

    /// Whether `sig` is a valid Ed25519 signature of `data` under `public_key`.
    pub fn validate_sig(&self, public_key: &[u8], sig: &[u8], data: &[u8]) -> (r: bool)
        ensures
            r == ed25519_accepts(public_key@, data@, sig@),
    {
        match ed25519_verify(public_key, data, sig) {
            Ok(()) => true,
            Err(_) => false,
        }
    }

    /// Checks that the long-term key signed the delegation, or says why not.
    pub fn try_validate_dele(&self) -> (r: Result<(), Error>)
        requires
            self.model().pub_key is Some,
        ensures
            r == spec_validate_dele(self.model()),
    {
        let dele = match get_field(&self.cert, Tag::DELE) {
            Ok(v) => v,
            Err(e) => return Err(e),
        };
        let mut full_cert = certificate_context();
        append_bytes(&mut full_cert, dele.as_slice());
        let sig = match get_field(&self.cert, Tag::SIG) {
            Ok(v) => v,
            Err(e) => return Err(e),
        };
        let pub_key = self.pub_key.as_ref().unwrap();
        if self.validate_sig(pub_key.as_slice(), sig.as_slice(), full_cert.as_slice()) {
            Ok(())
        } else {
            Err(Error::InvalidDeleSignature)
        }
    }

    /// Checks that the delegated key signed the signed response, or says why not.
    pub fn try_validate_srep(&self) -> (r: Result<(), Error>)
        ensures
            r == spec_validate_srep(self.model()),
    {
        let srep = match get_field(&self.msg, Tag::SREP) {
            Ok(v) => v,
            Err(e) => return Err(e),
        };
        let mut full_srep = signed_response_context();
        append_bytes(&mut full_srep, srep.as_slice());
        let pubk = match get_field(&self.dele, Tag::PUBK) {
            Ok(v) => v,
            Err(e) => return Err(e),
        };
        let sig = match get_field(&self.msg, Tag::SIG) {
            Ok(v) => v,
            Err(e) => return Err(e),
        };
        if self.validate_sig(pubk.as_slice(), sig.as_slice(), full_srep.as_slice()) {
            Ok(())
        } else {
            Err(Error::InvalidSrepSignature)
        }
    }

    /// Checks that the nonce is the leaf at `INDX` of the Merkle tree whose
    /// root the signed response holds, or says why not.
    pub fn try_validate_merkle(&self) -> (r: Result<(), Error>)
        ensures
            r == spec_validate_merkle(self.model()),
    {
        let srep_bytes = match get_field(&self.msg, Tag::SREP) {
            Ok(v) => v,
            Err(e) => return Err(e),
        };
        let srep_msg = match RtMessage::from_bytes(srep_bytes.as_slice()) {
            Ok(m) => m,
            Err(e) => return Err(e),
        };
        let srep = srep_msg.into_hash_map();
        let index = match u32_field(&self.msg, Tag::INDX) {
            Ok(i) => i,
            Err(e) => return Err(e),
        };
        let paths = match get_field(&self.msg, Tag::PATH) {
            Ok(v) => v,
            Err(e) => return Err(e),
        };
        let tree = match self.version {
            Version::Classic => MerkleTree::new_sha512(),
            Version::Rfc => MerkleTree::new_sha512_256(),
        };
        let hash = tree.root_from_paths(index as usize, self.nonce.as_slice(), paths.as_slice());
        let root = match get_field(&srep, Tag::ROOT) {
            Ok(v) => v,
            Err(e) => return Err(e),
        };
        if crate::bytes::bytes_equal(hash.as_slice(), root.as_slice()) {
            Ok(())
        } else {
            Err(Error::NonceNotInTree)
        }
    }

    /// Checks that `midpoint` lies within the delegation's span, or says why not.
    pub fn try_validate_midpoint(&self, midpoint: u64) -> (r: Result<(), Error>)
        ensures
            r == spec_validate_midpoint(self.model(), midpoint),
    {
        let mint = match u64_field(&self.dele, Tag::MINT) {
            Ok(v) => v,
            Err(e) => return Err(e),
        };
        let maxt = match u64_field(&self.dele, Tag::MAXT) {
            Ok(v) => v,
            Err(e) => return Err(e),
        };
        if midpoint < mint {
            return Err(Error::MidpointBeforeDelegation);
        }
        if midpoint > maxt {
            return Err(Error::MidpointAfterDelegation);
        }
        Ok(())
    }

    /// The midpoint and radius of the response. With a public key the response
    /// is checked first (delegation, signed response, Merkle tree, midpoint) and
    /// `verified` is set; a failed check gives its error.
    pub fn try_extract_time(&self) -> (r: Result<ParsedResponse, Error>)
        ensures
            r == spec_extract_time(self.model()),
    {
        let midpoint = match u64_field(&self.srep, Tag::MIDP) {
            Ok(v) => v,
            Err(e) => return Err(e),
        };
        match u32_field(&self.srep, Tag::RADI) {
            Ok(_) => {},
            Err(e) => return Err(e),
        }
        if self.pub_key.is_some() {
            match self.try_validate_dele() {
                Ok(()) => {},
                Err(e) => return Err(e),
            }
            match self.try_validate_srep() {
                Ok(()) => {},
                Err(e) => return Err(e),
            }
            match self.try_validate_merkle() {
                Ok(()) => {},
                Err(e) => return Err(e),
            }
            match self.try_validate_midpoint(midpoint) {
                Ok(()) => {},
                Err(e) => return Err(e),
            }
        }
        // Every check has passed: the time can be read.
        Ok(self.extract_time())
    }
}

impl ResponseHandler {
    /// Splits a well-formed response into the top-level message, the signed
    /// response, the certificate and the delegation.
    pub fn new(version: Version, pub_key: Option<Vec<u8>>, response: RtMessage, nonce: Nonce) -> (r:
        ResponseHandler)
        requires
            spec_response_parts(response@) is Ok,
        ensures
            spec_new_handler(version, option_bytes(pub_key), response@, nonce@) == Ok::<
                HandlerModel,
                Error,
            >(r.model()),
    {
        match ResponseHandler::try_new(version, pub_key, response, nonce) {
            Ok(h) => h,
            Err(_) => {
                assert(false);
                ResponseHandler {
                    pub_key: None,
                    msg: HashMap::new(),
                    srep: HashMap::new(),
                    cert: HashMap::new(),
                    dele: HashMap::new(),
                    nonce: Vec::new(),
                    version,
                }
            },
        }
    }

    /// Checks that the long-term key signed the delegation; the handler must
    /// hold a public key, the delegation and its signature, and the signature
    /// must be valid.
    pub fn validate_dele(&self)
        requires
            self.model().pub_key is Some,
            spec_validate_dele(self.model()) is Ok,
    {
        let r = self.try_validate_dele();
        assert(r is Ok);
    }

    /// Checks that the delegated key signed the signed response; the fields
    /// must be present and the signature valid.
    pub fn validate_srep(&self)
        requires
            spec_validate_srep(self.model()) is Ok,
    {
        let r = self.try_validate_srep();
        assert(r is Ok);
    }

    /// Checks that the nonce is the leaf at `INDX` of the Merkle tree whose
    /// root the signed response holds; the fields must be present and the
    /// roots must agree.
    pub fn validate_merkle(&self)
        requires
            spec_validate_merkle(self.model()) is Ok,
    {
        let r = self.try_validate_merkle();
        assert(r is Ok);
    }

    /// Checks that `midpoint` lies within the delegation's span `MINT..=MAXT`;
    /// both bounds must be present and hold it.
    pub fn validate_midpoint(&self, midpoint: u64)
        requires
            spec_validate_midpoint(self.model(), midpoint) is Ok,
    {
        let r = self.try_validate_midpoint(midpoint);
        assert(r is Ok);
    }

    /// The midpoint and radius of a response whose checks, when a public key
    /// is given, all pass; `verified` says whether they were made.
    pub fn extract_time(&self) -> (r: ParsedResponse)
        requires
            spec_extract_time(self.model()) is Ok,
        ensures
            spec_extract_time(self.model()) == Ok::<ParsedResponse, Error>(r),
    {
        let midpoint = match u64_field(&self.srep, Tag::MIDP) {
            Ok(v) => v,
            Err(_) => {
                assert(false);
                0
            },
        };
        let radius = match u32_field(&self.srep, Tag::RADI) {
            Ok(v) => v,
            Err(_) => {
                assert(false);
                0
            },
        };
        let verified = if self.pub_key.is_some() {
            self.validate_dele();
            self.validate_srep();
            self.validate_merkle();
            self.validate_midpoint(midpoint);
            true
        } else {
            false
        };
        ParsedResponse { verified, midpoint, radius }
    }
}

/// Reading the time depends on nothing but what the handler holds: two
/// handlers that hold the same give the same time, or the same error.
pub proof fn lemma_extract_time_determined(h1: &ResponseHandler, h2: &ResponseHandler)
    requires
        h1.model() == h2.model(),
    ensures
        spec_extract_time(h1.model()) == spec_extract_time(h2.model()),
{
}

/// The Merkle check reads the whole of `PATH`: it passes exactly when the
/// root reached from the nonce at leaf `INDX` by all the siblings of `PATH`
/// is the signed response's `ROOT`.
pub proof fn lemma_merkle_check_whole_path(
    h: HandlerModel,
    srep_bytes: Seq<u8>,
    srep: Fields,
    index: u32,
    path: Seq<u8>,
    root: Seq<u8>,
)
    requires
        spec_field(h.msg, Tag::SREP) == Ok::<Seq<u8>, Error>(srep_bytes),
        spec_from_bytes(srep_bytes) == Ok::<Fields, Error>(srep),
        spec_u32_field(h.msg, Tag::INDX) == Ok::<u32, Error>(index),
        spec_field(h.msg, Tag::PATH) == Ok::<Seq<u8>, Error>(path),
        spec_field(fields_model(srep), Tag::ROOT) == Ok::<Seq<u8>, Error>(root),
    ensures
        spec_validate_merkle(h) is Ok <==> (MerkleTree { algorithm: merkle_algorithm(h.version) }).spec_root_from_paths(
            index as nat,
            h.nonce,
            path,
        ) == root,
{
}

/// With a path of two siblings, the Merkle check passes exactly when `ROOT`
/// is the two-level root: the leaf hash of the nonce joined with the first
/// sibling on the side given by bit 0 of `INDX`, then with the second sibling
/// on the side given by bit 1.
pub proof fn lemma_merkle_check_two_levels(
    h: HandlerModel,
    srep_bytes: Seq<u8>,
    srep: Fields,
    index: u32,
    s0: Seq<u8>,
    s1: Seq<u8>,
    root: Seq<u8>,
)
    requires
        spec_field(h.msg, Tag::SREP) == Ok::<Seq<u8>, Error>(srep_bytes),
        spec_from_bytes(srep_bytes) == Ok::<Fields, Error>(srep),
        spec_u32_field(h.msg, Tag::INDX) == Ok::<u32, Error>(index),
        spec_field(h.msg, Tag::PATH) == Ok::<Seq<u8>, Error>(s0 + s1),
        spec_field(fields_model(srep), Tag::ROOT) == Ok::<Seq<u8>, Error>(root),
        s0.len() == digest_len(merkle_algorithm(h.version)),
        s1.len() == digest_len(merkle_algorithm(h.version)),
    ensures
        ({
            let alg = merkle_algorithm(h.version);
            let leaf = digest_of(alg, seq![TREE_LEAF_TWEAK] + h.nonce);
            let level1 = if index % 2 == 0 {
                digest_of(alg, seq![TREE_NODE_TWEAK] + leaf + s0)
            } else {
                digest_of(alg, seq![TREE_NODE_TWEAK] + s0 + leaf)
            };
            let top = if (index / 2) % 2 == 0 {
                digest_of(alg, seq![TREE_NODE_TWEAK] + level1 + s1)
            } else {
                digest_of(alg, seq![TREE_NODE_TWEAK] + s1 + level1)
            };
            spec_validate_merkle(h) is Ok <==> top == root
        }),
{
    let tree = MerkleTree { algorithm: merkle_algorithm(h.version) };
    lemma_merkle_check_whole_path(h, srep_bytes, srep, index, s0 + s1, root);
    crate::merkle::lemma_root_two_levels(tree, index as nat, h.nonce, s0, s1);
}

/// The time a response received into `buf` carries, and the response's Merkle
/// index, or the first error met.
pub open spec fn spec_process_response(
    ver: Version,
    pub_key: Option<Seq<u8>>,
    nonce: Seq<u8>,
    buf: Seq<u8>,
    buf_len: int,
) -> Result<(ParsedResponse, u32), Error> {
    match spec_receive_response(ver, buf, buf_len) {
        Err(e) => Err(e),
        Ok(f) => match spec_new_handler(ver, pub_key, f, nonce) {
            Err(e) => Err(e),
            Ok(h) => match spec_extract_time(h) {
                Err(e) => Err(e),
                Ok(parsed) => match spec_u32_field(h.msg, Tag::INDX) {
                    Err(e) => Err(e),
                    Ok(index) => Ok((parsed, index)),
                },
            },
        },
    }
}

/// Parses a response of `buf_len` bytes received into `buf`, reads its time
/// (checked when `pub_key` is given) and its Merkle index.
pub fn process_response(
    ver: Version,
    pub_key: Option<Vec<u8>>,
    nonce: Nonce,
    buf: &[u8],
    buf_len: usize,
) -> (r: Result<(ParsedResponse, u32), Error>)
    requires
        buf_len <= buf@.len(),
        ver == Version::Rfc ==> 12 <= buf_len,
    ensures
        r == spec_process_response(ver, option_bytes(pub_key), nonce@, buf@, buf_len as int),
{
    let resp = match try_receive_response(ver, buf, buf_len) {
        Ok(m) => m,
        Err(e) => return Err(e),
    };
    let handler = match ResponseHandler::try_new(ver, pub_key, resp, nonce) {
        Ok(h) => h,
        Err(e) => return Err(e),
    };
    let parsed = match handler.try_extract_time() {
        Ok(p) => p,
        Err(e) => return Err(e),
    };
    let index = match u32_field(handler.msg(), Tag::INDX) {
        Ok(i) => i,
        Err(e) => return Err(e),
    };
    Ok((parsed, index))
}


/// A response is reported verified exactly when a public key was given, and
/// then only after the delegation signature, the signed-response signature,
/// the nonce's place in the Merkle tree and the midpoint's place in the
/// delegation span have all been checked; the time reported is the one the
/// signed response holds.
pub proof fn lemma_verified_means_checked(h: HandlerModel)
    ensures
        spec_extract_time(h) matches Ok(p) ==> {
            &&& p.verified <==> h.pub_key is Some
            &&& spec_u64_field(h.srep, Tag::MIDP) == Ok::<u64, Error>(p.midpoint)
            &&& spec_u32_field(h.srep, Tag::RADI) == Ok::<u32, Error>(p.radius)
            &&& p.verified ==> {
                &&& spec_validate_dele(h) is Ok
                &&& spec_validate_srep(h) is Ok
                &&& spec_validate_merkle(h) is Ok
                &&& spec_validate_midpoint(h, p.midpoint) is Ok
                &&& spec_u64_field(h.dele, Tag::MINT) matches Ok(mint) && mint <= p.midpoint
                &&& spec_u64_field(h.dele, Tag::MAXT) matches Ok(maxt) && p.midpoint <= maxt
            }
        },
{
}

} // verus!
