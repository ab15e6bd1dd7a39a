//! The cryptography the client uses, all of it from `ring`.
use ring::rand::SecureRandom;
use vstd::prelude::*;

verus! {

#[verifier::external_type_specification]
#[verifier::external_body]
pub struct ExSystemRandom(ring::rand::SystemRandom);

#[verifier::external_type_specification]
#[verifier::external_body]
pub struct ExUnspecified(ring::error::Unspecified);

/// `ring::rand::SystemRandom::new`: the operating system's random number
/// generator. Nothing is claimed of the value.
pub assume_specification[ ring::rand::SystemRandom::new ]() -> ring::rand::SystemRandom;

/// Calls `ring::rand::SecureRandom::fill` on all of `dest`. Claimed: the
/// length of `dest` is unchanged. The bytes written are random, so nothing is
/// claimed of them, nor of whether the generator succeeds.
#[verifier::external_body]
pub(crate) fn fill_random(rng: &ring::rand::SystemRandom, dest: &mut Vec<u8>) -> (r: Result<
    (),
    ring::error::Unspecified,
>)
    ensures
        final(dest)@.len() == old(dest)@.len(),
{
    rng.fill(dest.as_mut_slice())
}

/// A hash function of `ring::digest`.
#[derive(Clone, Copy, Debug, PartialEq, Eq, Structural)]
pub enum HashAlgorithm {
    /// `ring::digest::SHA512`
    Sha512,
    /// `ring::digest::SHA512_256`
    Sha512_256,
}

/// The number of bytes of a digest.
pub open spec fn digest_len(algorithm: HashAlgorithm) -> nat {
    match algorithm {
        HashAlgorithm::Sha512 => 64,
        HashAlgorithm::Sha512_256 => 32,
    }
}

/// The digest that `ring::digest::digest` computes of `data`.
pub uninterp spec fn digest_of(algorithm: HashAlgorithm, data: Seq<u8>) -> Seq<u8>;

/// Calls `ring::digest::digest` with `ring::digest::SHA512` or
/// `ring::digest::SHA512_256`. Claimed: the result is the digest, a function of
/// the algorithm and the data alone, named `digest_of`, and it is as long as
/// the algorithm's output (64 or 32 bytes, `Algorithm::output_len`).
#[verifier::external_body]
pub(crate) fn digest(algorithm: HashAlgorithm, data: &[u8]) -> (r: Vec<u8>)
    ensures
        r@ == digest_of(algorithm, data@),
        r@.len() == digest_len(algorithm),
{
    let alg = match algorithm {
        HashAlgorithm::Sha512 => &ring::digest::SHA512,
        HashAlgorithm::Sha512_256 => &ring::digest::SHA512_256,
    };
    ring::digest::digest(alg, data).as_ref().to_vec()
}

/// Whether `ring`'s Ed25519 verification accepts `signature` of `message`
/// under `public_key`.
pub uninterp spec fn ed25519_accepts(public_key: Seq<u8>, message: Seq<u8>, signature: Seq<u8>) -> bool;

/// Calls `ring::signature::UnparsedPublicKey::verify` on a key made by
/// `UnparsedPublicKey::new` with `ring::signature::ED25519`. Claimed: it
/// succeeds exactly when `ed25519_accepts` holds of the key, message and
/// signature, a function of those bytes alone.
#[verifier::external_body]
pub(crate) fn ed25519_verify(public_key: &[u8], message: &[u8], signature: &[u8]) -> (r: Result<
    (),
    ring::error::Unspecified,
>)
    ensures
        r is Ok <==> ed25519_accepts(public_key@, message@, signature@),
{
    ring::signature::UnparsedPublicKey::new(&ring::signature::ED25519, public_key).verify(
        message,
        signature,
    )
}

} // verus!
