//! Caller-facing operations: creating a coinbase and running the
//! end-to-end spend protocol — select, sign, verify, build, persist.

use vstd::prelude::*;
use crate::codec::{bytes_of_hex, hex_decode, valid_hex};
use crate::errors::LedgerError;
use crate::ledger::{
    balance_spec, candidates, inputs_spendable, lemma_candidates_sound, lemma_sum_nonneg,
    lemma_sum_values_pointwise, row_valid, sum_values, Ledger,
};
use crate::signatures::{address_of_secret_key, secret_key_valid};
use crate::transactions::{
    input_authorized, lemma_record_round_trip, lemma_validate_after_hash, lists_canonical,
    rehashed, record_of, sort_inputs_spec, Input, InputV, OutputV, Transaction,
};
use crate::users::{
    lemma_sum_take_monotone, lemma_take_needed_change, lemma_take_needed_covers,
    lemma_take_needed_prefix, take_needed, verify_inputs, User,
};
use crate::utils::{get_address_by_private_key, sign_inputs, signed_input};

verus! {

/// Creates value out of nothing: a transaction with no inputs and a
/// single output of `amount` minor units owned by `to_address`, hashed
/// and persisted.  The only way value enters the ledger; there is no
/// balance to check and the write cannot conflict.
pub fn create_coinbase(to_address: String, amount: u64, ledger: &mut Ledger) -> (r: Result<
    (),
    LedgerError,
>)
    requires
        amount >= 1,
    ensures
        r is Ok,
        final(ledger)@ == old(ledger)@.push(final(ledger)@.last()),
        final(ledger)@.len() == old(ledger)@.len() + 1,
        ({
            let row = final(ledger)@.last();
            &&& row.inputs == Seq::<InputV>::empty()
            &&& row.outputs == seq![
                OutputV { id: 0, value: amount as nat, address: to_address@ },
            ]
            &&& row_valid(row)
        }),
{
    let mut transaction = Transaction::new();
    transaction.add_output(amount, to_address);
    let ghost built = transaction@;
    proof {
        assert(built.vout =~= seq![
            OutputV { id: 0, value: amount as nat, address: to_address@ },
        ]);
        assert(lists_canonical(built));
    }
    let r = transaction.upload(ledger);
    proof {
        assert(inputs_spendable(old(ledger)@, built.vin));
        lemma_validate_after_hash(built);
        lemma_record_round_trip(rehashed(built));
        assert(final(ledger)@.last() == record_of(rehashed(built)));
    }
    r
}

/// Rejects a selection whose accumulated total falls short of the
/// requested amount.
fn verify_balance(balance: u128, amount: u64) -> (r: Result<(), LedgerError>)
    ensures
        r is Ok <==> balance >= amount as u128,
        r is Err ==> r == Err::<(), LedgerError>(LedgerError::InsufficientBalance),
{
    if balance < amount as u128 {
        Err(LedgerError::InsufficientBalance)
    } else {
        Ok(())
    }
}

/// Signs the selected inputs with the sender's key and re-verifies every
/// ownership proof before any of them is trusted.
fn sign_and_verify_inputs(private_key: &[u8], inputs: Vec<Input>) -> (r: Result<
    Vec<Input>,
    LedgerError,
>)
    ensures
        r matches Ok(v) ==> {
            &&& secret_key_valid(private_key@)
            &&& v.deep_view().len() == inputs.deep_view().len()
            &&& forall|k: int|
                0 <= k < inputs.deep_view().len() ==> #[trigger] v.deep_view()[k]
                    == signed_input(inputs.deep_view()[k], private_key@)
            &&& forall|k: int|
                0 <= k < v.deep_view().len() ==> input_authorized(#[trigger] v.deep_view()[k])
        },
        r is Err ==> r == Err::<Vec<Input>, LedgerError>(LedgerError::InvalidSignature),
        secret_key_valid(private_key@) && (forall|k: int|
            0 <= k < inputs.deep_view().len() ==> (#[trigger] inputs.deep_view()[k]).address
                == address_of_secret_key(private_key@)) ==> r is Ok,
{
    let signed = match sign_inputs(private_key, inputs) {
        Some(signed) => signed,
        None => {
            return Err(LedgerError::InvalidSignature);
        },
    };
    if !verify_inputs(&signed) {
        return Err(LedgerError::InvalidSignature);
    }
    Ok(signed)
}

/// The end-to-end spend protocol: derive the sender address from the
/// hex-encoded private key, select unspent outputs first-fit, check the
/// balance, sign and re-verify every input, build the transaction with
/// its payment and change outputs, and persist it atomically.  A
/// malformed or invalid key aborts as an invalid signature; a selection
/// falling short aborts with an insufficient balance and persists
/// nothing; with a valid key, a sufficient balance and a conflict-free
/// write the spend succeeds.
pub fn send_transaction(private_key: &str, to_address: String, amount: u64, ledger: &mut Ledger)
    -> (r: Result<(), LedgerError>)
    requires
        amount >= 1,
    ensures
        ({
            let key_ok = valid_hex(private_key@) && secret_key_valid(bytes_of_hex(private_key@));
            &&& (!key_ok ==> r == Err::<(), LedgerError>(LedgerError::InvalidSignature)
                && final(ledger)@ == old(ledger)@)
            &&& (key_ok ==> ({
                let addr = address_of_secret_key(bytes_of_hex(private_key@));
                let sel = take_needed(candidates(old(ledger)@, addr), amount as int);
                let vin = sort_inputs_spec(
                    sel.map_values(|i: InputV| signed_input(i, bytes_of_hex(private_key@))),
                );
                &&& (r == Err::<(), LedgerError>(LedgerError::InsufficientBalance) <==>
                    balance_spec(old(ledger)@, addr) < amount as int)
                &&& (r is Err ==> final(ledger)@ == old(ledger)@)
                &&& (balance_spec(old(ledger)@, addr) >= amount as int ==> {
                    &&& (r is Ok <==> inputs_spendable(old(ledger)@, vin))
                    &&& (r is Err ==> r == Err::<(), LedgerError>(LedgerError::SpendConflict))
                    &&& (r is Ok ==> {
                        &&& final(ledger)@ == old(ledger)@.push(final(ledger)@.last())
                        &&& final(ledger)@.len() == old(ledger)@.len() + 1
                        &&& ({
                            let row = final(ledger)@.last();
                            let total = sum_values(sel);
                            &&& row.inputs == vin
                            &&& row.outputs.len() == (if total == amount as int {
                                1int
                            } else {
                                2int
                            })
                            &&& row.outputs[0] == (OutputV {
                                id: 0,
                                value: amount as nat,
                                address: to_address@,
                            })
                            &&& (total != amount as int ==> row.outputs[1] == (OutputV {
                                id: 1,
                                value: (total - amount as int) as nat,
                                address: addr,
                            }))
                            &&& row_valid(row)
                        })
                    })
                })
            }))
        }),
{
    let key_bytes = match hex_decode(private_key) {
        Some(key_bytes) => key_bytes,
        None => {
            return Err(LedgerError::InvalidSignature);
        },
    };
    let from_address = match get_address_by_private_key(key_bytes.as_slice()) {
        Some(from_address) => from_address,
        None => {
            return Err(LedgerError::InvalidSignature);
        },
    };
    let user = User::new(from_address);
    let ghost addr = address_of_secret_key(key_bytes@);
    let ghost cands = candidates(old(ledger)@, addr);
    let ghost sel = take_needed(cands, amount as int);
    let (inputs, balance) = user.get_unspend_outputs_as_inputs(ledger, amount);
    proof {
        lemma_take_needed_covers(cands, amount as int);
        lemma_take_needed_prefix(cands, amount as int);
        lemma_sum_take_monotone(cands, sel.len() as int, cands.len() as int);
        assert(cands.take(cands.len() as int) =~= cands);
    }
    match verify_balance(balance, amount) {
        Ok(()) => (),
        Err(e) => {
            proof {
                assert(balance_spec(old(ledger)@, addr) < amount as int);
            }
            return Err(e);
        },
    }
    proof {
        assert(balance_spec(old(ledger)@, addr) >= amount as int);
        assert forall|k: int| 0 <= k < sel.len() implies (#[trigger] sel[k]).address
            == address_of_secret_key(key_bytes@) by {
            lemma_candidates_sound(old(ledger)@, addr, k);
        }
    }
    let ghost sel_vec = inputs;
    let signed = match sign_and_verify_inputs(key_bytes.as_slice(), inputs) {
        Ok(signed) => signed,
        Err(e) => {
            proof {
                assert(false);
            }
            return Err(e);
        },
    };
    proof {
        assert(signed.deep_view() =~= sel.map_values(|i: InputV| signed_input(i, key_bytes@)));
        lemma_sum_values_pointwise(signed.deep_view(), sel);
        if sum_values(sel) >= amount as int {
            lemma_sum_nonneg(Seq::<InputV>::empty());
            assert(sel.len() >= 1) by {
                if sel.len() == 0 {
                    assert(sel =~= Seq::<InputV>::empty());
                }
            }
            lemma_take_needed_change(cands, amount as int);
            assert(sel.last() == sel_vec@[sel_vec@.len() - 1]@);
            assert(sel.last().value <= u64::MAX);
        }
    }
    let result = user.send(to_address, amount, signed, ledger);
    result
}

} // verus!
