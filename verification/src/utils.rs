//! Small helpers shared by the spend path: client-side signing of inputs
//! and the canonical decimal rendering of amounts.

use vstd::prelude::*;
use vstd::string::StringExecFns;
use crate::codec::{amount_chars, digit_str, hex_encode, hex_of, lemma_hex_roundtrip, MINOR_UNITS};
use crate::signatures::{
    address_of_secret_key, ecdsa_sign, ecdsa_sign_of, public_key_of, public_key_sec1,
    secret_key_valid,
};
use crate::transactions::{input_authorized, Input, InputV};

verus! {

/// The fields an input carries after signing with the secret key `sk`:
/// the hex-encoded public key and the hex-encoded deterministic
/// signature over its `prev_tx` bytes; everything else unchanged.
pub open spec fn signed_input(i: InputV, sk: Seq<u8>) -> InputV {
    InputV {
        public_key: hex_of(public_key_of(sk)),
        signature: hex_of(ecdsa_sign_of(sk, i.prev_tx)),
        ..i
    }
}

/// Signs every input's `prev_tx` bytes with the secret key and attaches
/// the hex-encoded signature and public key; `None` when the key bytes
/// are not a well-formed secret scalar.  An input whose claimed address
/// is the key's own address then passes verification.
pub fn sign_inputs(private_key: &[u8], inputs: Vec<Input>) -> (r: Option<Vec<Input>>)
    ensures
        r is Some <==> secret_key_valid(private_key@),
        r matches Some(v) ==> {
            &&& v.deep_view().len() == inputs.deep_view().len()
            &&& forall|k: int|
                0 <= k < inputs.deep_view().len() ==> #[trigger] v.deep_view()[k] == signed_input(
                    inputs.deep_view()[k],
                    private_key@,
                )
            &&& forall|k: int|
                0 <= k < inputs.deep_view().len() ==> (inputs.deep_view()[k].address
                    == address_of_secret_key(private_key@) ==> input_authorized(
                    #[trigger] v.deep_view()[k],
                ))
        },
{
    let pk = match public_key_sec1(private_key) {
        Some(pk) => pk,
        None => {
            return None;
        },
    };
    let pk_hex = hex_encode(pk.as_slice());
    let mut result: Vec<Input> = Vec::new();
    let mut k: usize = 0;
    while k < inputs.len()
        invariant
            k <= inputs.len(),
            secret_key_valid(private_key@),
            pk_hex@ == hex_of(public_key_of(private_key@)),
            result.deep_view().len() == k,
            forall|x: int|
                0 <= x < k ==> #[trigger] result.deep_view()[x] == signed_input(
                    inputs.deep_view()[x],
                    private_key@,
                ),
            forall|x: int|
                0 <= x < k ==> (inputs.deep_view()[x].address == address_of_secret_key(
                    private_key@,
                ) ==> input_authorized(#[trigger] result.deep_view()[x])),
        decreases inputs.len() - k,
    {
        let sig = match ecdsa_sign(private_key, inputs[k].prev_tx.as_str()) {
            Some(sig) => sig,
            None => {
                proof {
                    assert(false);
                }
                return None;
            },
        };
        let sig_hex = hex_encode(sig.as_slice());
        let new_input = Input {
            prev_tx: inputs[k].prev_tx.clone(),
            id: inputs[k].id,
            value: inputs[k].value,
            address: inputs[k].address.clone(),
            public_key: pk_hex.clone(),
            signature: sig_hex,
        };
        let ghost pre = result.deep_view();
        result.push(new_input);
        proof {
            let iv = inputs.deep_view()[k as int];
            assert(iv == inputs@[k as int]@);
            assert(result.deep_view() =~= pre.push(new_input@));
            assert(new_input@ =~= signed_input(iv, private_key@));
            lemma_hex_roundtrip(public_key_of(private_key@));
            lemma_hex_roundtrip(ecdsa_sign_of(private_key@, iv.prev_tx));
        }
        k += 1;
    }
    Some(result)
}

/// Derives the sender address owned by a raw secret key; the same
/// operation as the one the signature codec offers, kept here as well
/// for the spend path's convenience.
pub fn get_address_by_private_key(private_key: &[u8]) -> (r: Option<String>)
    ensures
        r is Some <==> secret_key_valid(private_key@),
        r matches Some(a) ==> a@ == address_of_secret_key(private_key@),
{
    crate::signatures::get_address_by_private_key(private_key)
}

/// Renders an amount of minor units as canonical decimal text: the store
/// keeps amounts as text in exactly this shape, a whole number always
/// carrying one fractional digit.
pub fn to_float_string(value: u64) -> (s: String)
    ensures
        s@ == amount_chars(value as nat),
{
    let whole = value / MINOR_UNITS;
    let rest = value % MINOR_UNITS;
    let mut s = crate::codec::u64_to_dec(whole);
    s.append(".");
    if rest == 0 {
        s.append("0");
    } else if rest % 10 == 0 {
        s.append(digit_str(rest / 10));
    } else if rest < 10 {
        s.append("0");
        s.append(digit_str(rest));
    } else {
        s.append(digit_str(rest / 10));
        s.append(digit_str(rest % 10));
    }
    proof {
        reveal_strlit(".");
        reveal_strlit("0");
        assert(s@ =~= amount_chars(value as nat));
    }
    s
}

} // verus!
