//! The address and signature codec: addresses are the hex-encoded
//! RIPEMD-160 digest of an uncompressed secp256k1 public key, and
//! ownership proofs are ECDSA signatures over the referenced
//! transaction hash.

use vstd::prelude::*;
use crate::codec::{bytes_of_hex, hex_encode, hex_decode, hex_of, valid_hex};
use k256::ecdsa::signature::{Signer, Verifier};
use k256::elliptic_curve::sec1::ToSec1Point;
use ripemd::Digest;

verus! {

pub uninterp spec fn ripemd160_of(b: Seq<u8>) -> Seq<u8>;

/// Relies on `ripemd::Ripemd160`: a 160-bit digest, a function of the
/// input bytes alone.
#[verifier::external_body]
fn ripemd160_digest(b: &[u8]) -> (r: Vec<u8>)
    ensures
        r@ == ripemd160_of(b@),
        r@.len() == 20,
{
    ripemd::Ripemd160::digest(b).to_vec()
}

/// The address owned by a public key: the hex-encoded 160-bit digest of
/// its uncompressed encoding.
pub open spec fn address_of_public_key(pk: Seq<u8>) -> Seq<char> {
    hex_of(ripemd160_of(pk))
}

/// Derives the address of an uncompressed public key.  Deterministic:
/// equal key bytes give equal addresses.
pub fn derive_address(public_key: &[u8]) -> (r: String)
    ensures
        r@ == address_of_public_key(public_key@),
{
    let digest = ripemd160_digest(public_key);
    hex_encode(digest.as_slice())
}

/// Whether `sk` is a well-formed secp256k1 secret scalar, as the key
/// parsers of `k256` accept it.
pub uninterp spec fn secret_key_valid(sk: Seq<u8>) -> bool;

/// The uncompressed SEC1 encoding of the public key of the secret key `sk`.
pub uninterp spec fn public_key_of(sk: Seq<u8>) -> Seq<u8>;

/// The deterministic ECDSA signature by `sk` over the UTF-8 bytes of `msg`.
pub uninterp spec fn ecdsa_sign_of(sk: Seq<u8>, msg: Seq<char>) -> Seq<u8>;

/// Whether `sig` is an ECDSA signature that validates under the public key
/// encoded by `pk` over the UTF-8 bytes of `msg`; false as well when `pk`
/// or `sig` does not parse.
pub uninterp spec fn ecdsa_valid(pk: Seq<u8>, sig: Seq<u8>, msg: Seq<char>) -> bool;

/// Relies on `k256::SecretKey::from_slice` and
/// `k256::elliptic_curve::sec1::ToSec1Point`: parses the secret scalar
/// and returns the uncompressed encoding of its public key, a function of
/// the scalar alone.
#[verifier::external_body]
pub(crate) fn public_key_sec1(sk: &[u8]) -> (r: Option<Vec<u8>>)
    ensures
        r is Some <==> secret_key_valid(sk@),
        r matches Some(pk) ==> pk@ == public_key_of(sk@),
{
    match k256::SecretKey::from_slice(sk) {
        Ok(key) => Some(key.public_key().to_sec1_point(false).as_bytes().to_vec()),
        Err(_) => None,
    }
}

/// Relies on `k256::ecdsa::SigningKey::sign` (RFC 6979): deterministic in
/// the key and message, and what it signs validates under the matching
/// public key.  `SigningKey::from_slice` accepts the same scalars as
/// `k256::SecretKey::from_slice`.
#[verifier::external_body]
pub(crate) fn ecdsa_sign(sk: &[u8], msg: &str) -> (r: Option<Vec<u8>>)
    ensures
        r is Some <==> secret_key_valid(sk@),
        r matches Some(sig) ==> sig@ == ecdsa_sign_of(sk@, msg@),
        r is Some ==> ecdsa_valid(public_key_of(sk@), ecdsa_sign_of(sk@, msg@), msg@),
{
    match k256::ecdsa::SigningKey::from_slice(sk) {
        Ok(key) => {
            let sig: k256::ecdsa::Signature = key.sign(msg.as_bytes());
            Some(sig.to_vec())
        }
        Err(_) => None,
    }
}

/// Relies on `k256::ecdsa::VerifyingKey::from_sec1_bytes`,
/// `k256::ecdsa::Signature::from_slice` and `Verifier::verify`: whether the
/// signature validates, false on any parse failure.
#[verifier::external_body]
pub(crate) fn ecdsa_verify(pk: &[u8], sig: &[u8], msg: &str) -> (r: bool)
    ensures
        r == ecdsa_valid(pk@, sig@, msg@),
{
    let key = match k256::ecdsa::VerifyingKey::from_sec1_bytes(pk) {
        Ok(key) => key,
        Err(_) => return false,
    };
    let sig = match k256::ecdsa::Signature::from_slice(sig) {
        Ok(sig) => sig,
        Err(_) => return false,
    };
    key.verify(msg.as_bytes(), &sig).is_ok()
}

/// Whether a hex-encoded signature by a hex-encoded public key validates
/// over the UTF-8 bytes of `msg`.  False whenever either hex string is
/// malformed: decoding failures never escalate.
pub open spec fn signature_valid(pk_hex: Seq<char>, sig_hex: Seq<char>, msg: Seq<char>) -> bool {
    &&& valid_hex(pk_hex)
    &&& valid_hex(sig_hex)
    &&& ecdsa_valid(bytes_of_hex(pk_hex), bytes_of_hex(sig_hex), msg)
}

/// Verifies a hex-encoded signature against a hex-encoded public key over
/// the raw bytes of `message`.  Fails closed on malformed hex.
pub fn verify_signature(public_key: &str, signature: &str, message: &str) -> (r: bool)
    ensures
        r == signature_valid(public_key@, signature@, message@),
{
    let pk = match hex_decode(public_key) {
        Some(pk) => pk,
        None => {
            return false;
        },
    };
    let sig = match hex_decode(signature) {
        Some(sig) => sig,
        None => {
            return false;
        },
    };
    ecdsa_verify(pk.as_slice(), sig.as_slice(), message)
}

/// The address reached from a secret key, when the key is well formed.
pub open spec fn address_of_secret_key(sk: Seq<u8>) -> Seq<char> {
    address_of_public_key(public_key_of(sk))
}

/// Derives the sender address owned by a raw secret key, or `None` when
/// the key bytes are not a well-formed secret scalar.
pub fn get_address_by_private_key(private_key: &[u8]) -> (r: Option<String>)
    ensures
        r is Some <==> secret_key_valid(private_key@),
        r matches Some(a) ==> a@ == address_of_secret_key(private_key@),
{
    match public_key_sec1(private_key) {
        Some(pk) => Some(derive_address(pk.as_slice())),
        None => None,
    }
}

/// Address derivation is deterministic: equal public keys always give
/// equal addresses.
pub proof fn lemma_derive_address_deterministic(pk1: Seq<u8>, pk2: Seq<u8>)
    requires
        pk1 == pk2,
    ensures
        address_of_public_key(pk1) == address_of_public_key(pk2),
{
}

} // verus!
