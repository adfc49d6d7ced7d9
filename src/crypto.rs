use vstd::prelude::*;

use ring::signature::{Ed25519KeyPair, KeyPair};

verus! {

/// The SHA-512 digest of a byte string.
pub uninterp spec fn sha512_of(b: Seq<u8>) -> Seq<u8>;

/// The Ed25519 public key of a private key given as its 32-byte seed.
pub uninterp spec fn ed25519_public_key_of(seed: Seq<u8>) -> Seq<u8>;

/// The Ed25519 signature of `message` under the private key given as its 32-byte seed.
pub uninterp spec fn ed25519_signature_of(seed: Seq<u8>, message: Seq<u8>) -> Seq<u8>;

/// Whether Ed25519 accepts `signature` as a signature of `message` under `public_key`.
pub uninterp spec fn ed25519_accepts(public_key: Seq<u8>, message: Seq<u8>, signature: Seq<u8>) -> bool;

/// Relies on ring::digest::digest with SHA512: the digest depends on the input alone and is
/// 64 bytes long.
#[verifier::external_body]
pub(crate) fn sha512_digest(b: &[u8]) -> (r: Vec<u8>)
    ensures
        r@ == sha512_of(b@),
        r@.len() == 64,
{
    ring::digest::digest(&ring::digest::SHA512, b).as_ref().to_vec()
}

/// Relies on ring::signature::UnparsedPublicKey::verify with ED25519: the verdict depends on
/// the public key, the message and the signature alone.
#[verifier::external_body]
pub(crate) fn ed25519_verify(public_key: &[u8], message: &[u8], signature: &[u8]) -> (r: bool)
    ensures
        r == ed25519_accepts(public_key@, message@, signature@),
{
    ring::signature::UnparsedPublicKey::new(&ring::signature::ED25519, public_key).verify(
        message,
        signature,
    ).is_ok()
}

/// Relies on ring::signature::Ed25519KeyPair::from_seed_unchecked and KeyPair::public_key:
/// the 32-byte public key of a 32-byte private key (seed), a function of the seed alone.
#[verifier::external_body]
pub(crate) fn ed25519_public_key(seed: &[u8]) -> (r: Vec<u8>)
    requires
        seed@.len() == 32,
    ensures
        r@ == ed25519_public_key_of(seed@),
        r@.len() == 32,
{
    match Ed25519KeyPair::from_seed_unchecked(seed) {
        Ok(key_pair) => key_pair.public_key().as_ref().to_vec(),
        Err(_) => Vec::new(),
    }
}

/// Relies on ring::signature::Ed25519KeyPair::from_seed_unchecked and Ed25519KeyPair::sign:
/// the 64-byte signature of `message` under a 32-byte private key (seed), a function of the
/// seed and the message alone, which verifies under the seed's public key.
#[verifier::external_body]
pub(crate) fn ed25519_sign(seed: &[u8], message: &[u8]) -> (r: Vec<u8>)
    requires
        seed@.len() == 32,
    ensures
        r@ == ed25519_signature_of(seed@, message@),
        r@.len() == 64,
        ed25519_accepts(ed25519_public_key_of(seed@), message@, r@),
{
    match Ed25519KeyPair::from_seed_unchecked(seed) {
        Ok(key_pair) => key_pair.sign(message).as_ref().to_vec(),
        Err(_) => Vec::new(),
    }
}

} // verus!
