//! Formatting and cryptographic codec behaviour, checked against the
//! real crates and known digest values.

use k256::ecdsa::signature::Signer;
use sha2::Digest;
use utxo_ledger::codec::{i64_to_dec, u64_to_dec};
use utxo_ledger::signatures::{derive_address, get_address_by_private_key, verify_signature};
use utxo_ledger::utils::to_float_string;

fn sha_hex(s: &str) -> String {
    hex::encode(sha2::Sha256::digest(s.as_bytes()))
}

#[test]
fn whole_amounts_carry_one_fractional_digit() {
    assert_eq!(to_float_string(1000), "10.0");
    assert_eq!(to_float_string(0), "0.0");
    assert_eq!(to_float_string(100), "1.0");
}

#[test]
fn fractional_amounts_drop_trailing_zeros_only() {
    assert_eq!(to_float_string(450), "4.5");
    assert_eq!(to_float_string(455), "4.55");
    assert_eq!(to_float_string(405), "4.05");
    assert_eq!(to_float_string(7), "0.07");
    assert_eq!(to_float_string(70), "0.7");
    assert_eq!(to_float_string(123456), "1234.56");
}

#[test]
fn decimal_renderings_are_exact() {
    assert_eq!(u64_to_dec(0), "0");
    assert_eq!(u64_to_dec(9), "9");
    assert_eq!(u64_to_dec(1234567890), "1234567890");
    assert_eq!(u64_to_dec(u64::MAX), "18446744073709551615");
    assert_eq!(i64_to_dec(0), "0");
    assert_eq!(i64_to_dec(-1), "-1");
    assert_eq!(i64_to_dec(1661190000), "1661190000");
    assert_eq!(i64_to_dec(i64::MIN), "-9223372036854775808");
}

#[test]
fn derive_address_matches_known_ripemd_vector() {
    // RIPEMD-160 of the empty message.
    assert_eq!(derive_address(&[]), "9c1185a5c5e9fc54612808977ee8f548b2258d31");
    // RIPEMD-160 of "abc".
    assert_eq!(derive_address(b"abc"), "8eb208f7e05d987a9b044a8e98c6b087f15a0bfc");
}

#[test]
fn derive_address_is_deterministic() {
    let pk = [7u8; 65];
    assert_eq!(derive_address(&pk), derive_address(&pk));
}

#[test]
fn derive_address_matches_manual_composition() {
    let pk: Vec<u8> = (0u8..65).collect();
    let manual = hex::encode(ripemd::Ripemd160::digest(&pk));
    assert_eq!(derive_address(&pk), manual);
}

#[test]
fn address_by_private_key_matches_k256() {
    let sk_bytes = [0x11u8; 32];
    let addr = get_address_by_private_key(&sk_bytes).expect("well-formed scalar");
    let sk = k256::SecretKey::from_slice(&sk_bytes).unwrap();
    let point = k256::elliptic_curve::sec1::ToSec1Point::to_sec1_point(&sk.public_key(), false);
    let manual = hex::encode(ripemd::Ripemd160::digest(point.as_bytes()));
    assert_eq!(addr, manual);
}

#[test]
fn address_by_private_key_rejects_malformed_scalars() {
    assert!(get_address_by_private_key(&[0u8; 32]).is_none());
    assert!(get_address_by_private_key(&[1u8]).is_none());
    assert!(get_address_by_private_key(&[0xffu8; 32]).is_none());
}

#[test]
fn verify_signature_accepts_a_real_signature_and_fails_closed() {
    let sk_bytes = [0x22u8; 32];
    let key = k256::ecdsa::SigningKey::from_slice(&sk_bytes).unwrap();
    let msg = "deadbeef";
    let sig: k256::ecdsa::Signature = key.sign(msg.as_bytes());
    let point = k256::elliptic_curve::sec1::ToSec1Point::to_sec1_point(
        &k256::SecretKey::from_slice(&sk_bytes).unwrap().public_key(),
        false,
    );
    let pk_hex = hex::encode(point.as_bytes());
    let sig_hex = hex::encode(sig.to_bytes());

    assert!(verify_signature(&pk_hex, &sig_hex, msg));
    assert!(!verify_signature(&pk_hex, &sig_hex, "deadbeee"));

    // Flip one hex digit of the signature.
    let mut tampered = sig_hex.clone().into_bytes();
    tampered[0] = if tampered[0] == b'0' { b'1' } else { b'0' };
    let tampered = String::from_utf8(tampered).unwrap();
    assert!(!verify_signature(&pk_hex, &tampered, msg));

    // Malformed hex fails closed rather than crashing.
    assert!(!verify_signature("zz", &sig_hex, msg));
    assert!(!verify_signature(&pk_hex, "abc", msg));
    assert!(!verify_signature("", "", msg));
}

#[test]
fn sha_hex_helper_agrees_with_sha2() {
    // Sanity for the expected values used by the hashing tests.
    assert_eq!(
        sha_hex("abc"),
        "ba7816bf8f01cfea414140de5dae2223b00361a396177a9cb410ff61f20015ad"
    );
}
