//! The hash chain, record round trips, and the end-to-end ledger
//! scenarios: coinbase, spending, insufficient balance, foreign keys,
//! and double-spend prevention.

use sha2::Digest;
use utxo_ledger::actions::{create_coinbase, send_transaction};
use utxo_ledger::errors::LedgerError;
use utxo_ledger::ledger::Ledger;
use utxo_ledger::signatures::get_address_by_private_key;
use utxo_ledger::transactions::{Input, Output, Transaction};
use utxo_ledger::users::User;
use utxo_ledger::utils::sign_inputs;

fn sha_hex(s: &str) -> String {
    hex::encode(sha2::Sha256::digest(s.as_bytes()))
}

const SK_A: [u8; 32] = [0x33u8; 32];
const SK_B: [u8; 32] = [0x44u8; 32];

fn addr_of(sk: &[u8]) -> String {
    get_address_by_private_key(sk).expect("well-formed scalar")
}

// ---------------------------------------------------------------------------
// Hash chain
// ---------------------------------------------------------------------------

#[test]
fn generate_hash_matches_manual_serialization() {
    let mut tx = Transaction {
        hash: String::new(),
        uuid: "u1".to_string(),
        date: 7,
        vin_hash: String::new(),
        vout_hash: String::new(),
        vout: vec![Output { id: 0, value: 1000, address: "addr".to_string() }],
        vin: Vec::new(),
    };
    tx.generate_hash();

    let vout_json = "[{\"id\":0,\"value\":10.0,\"address\":\"addr\"}]";
    let vin_json = "[]";
    let vout_hash = sha_hex(vout_json);
    let vin_hash = sha_hex(vin_json);
    let core = format!(
        "{{\"uuid\":\"u1\",\"date\":7,\"vin_hash\":\"{}\",\"vout_hash\":\"{}\"}}",
        vin_hash, vout_hash
    );
    assert_eq!(tx.vout_hash, vout_hash);
    assert_eq!(tx.vin_hash, vin_hash);
    assert_eq!(tx.hash, sha_hex(&core));
}

#[test]
fn validate_true_after_hash_false_after_mutation() {
    let mut tx = Transaction::new();
    tx.add_output(1000, "x".to_string());
    tx.add_output(250, "y".to_string());
    tx.generate_hash();
    assert!(tx.validate());
    // Validation is stable as long as nothing changes.
    assert!(tx.validate());

    tx.vout[0].value = 1001;
    assert!(!tx.validate());

    // A failed validation rewrites the hash chain, so the mutated record
    // validates again until the next change.
    assert!(tx.validate());
    tx.date += 1;
    assert!(!tx.validate());

    tx.vout.push(Output { id: 2, value: 1, address: "z".to_string() });
    assert!(!tx.validate());

    tx.uuid = "other".to_string();
    assert!(!tx.validate());
}

#[test]
fn validate_false_after_input_mutation() {
    let mut tx = Transaction::new();
    tx.add_output(500, "x".to_string());
    tx.set_inputs(vec![Input {
        prev_tx: "aa".to_string(),
        id: 0,
        value: 500,
        address: "x".to_string(),
        public_key: "bb".to_string(),
        signature: "cc".to_string(),
    }]);
    tx.generate_hash();
    assert!(tx.validate());
    tx.vin[0].id = 1;
    assert!(!tx.validate());
}

#[test]
fn fresh_transaction_has_base58_uuid_and_empty_fields() {
    let tx = Transaction::new();
    assert!(tx.hash.is_empty());
    assert!(tx.vin_hash.is_empty());
    assert!(tx.vout_hash.is_empty());
    assert!(tx.vout.is_empty());
    assert!(tx.vin.is_empty());
    assert!(!tx.uuid.is_empty());
    // Base-58 never uses 0, O, I or l.
    for c in tx.uuid.chars() {
        assert!(c.is_ascii_alphanumeric());
        assert!(c != '0' && c != 'O' && c != 'I' && c != 'l');
    }
    assert!(tx.date > 0);
}

// ---------------------------------------------------------------------------
// Record round trip
// ---------------------------------------------------------------------------

#[test]
fn record_round_trip_preserves_the_hash() {
    let mut tx = Transaction::new();
    tx.add_output(1000, "x".to_string());
    tx.add_output(250, "y".to_string());
    tx.set_inputs(vec![
        Input {
            prev_tx: "aa".to_string(),
            id: 0,
            value: 600,
            address: "x".to_string(),
            public_key: "bb".to_string(),
            signature: "cc".to_string(),
        },
        Input {
            prev_tx: "dd".to_string(),
            id: 1,
            value: 650,
            address: "x".to_string(),
            public_key: "bb".to_string(),
            signature: "ee".to_string(),
        },
    ]);
    tx.generate_hash();
    let original_hash = tx.hash.clone();

    let record = tx.to_record();
    let mut restored = Transaction::from_node(&record.node, record.outputs, record.inputs);
    assert_eq!(restored.hash, original_hash);
    assert!(restored.validate());
    assert_eq!(restored.hash, original_hash);
}

#[test]
fn from_node_restores_store_order_by_ascending_id() {
    let mut tx = Transaction::new();
    tx.add_output(1000, "x".to_string());
    tx.add_output(250, "y".to_string());
    tx.add_output(33, "z".to_string());
    tx.generate_hash();
    let original_hash = tx.hash.clone();

    let record = tx.to_record();
    // The store returns node lists in unspecified order.
    let mut shuffled = record.outputs;
    shuffled.reverse();
    let mut restored = Transaction::from_node(&record.node, shuffled, record.inputs);
    assert_eq!(restored.vout[0].id, 0);
    assert_eq!(restored.vout[1].id, 1);
    assert_eq!(restored.vout[2].id, 2);
    assert!(restored.validate());
    assert_eq!(restored.hash, original_hash);
}

// ---------------------------------------------------------------------------
// Input ownership proofs
// ---------------------------------------------------------------------------

#[test]
fn signed_input_verifies_and_any_tampering_breaks_it() {
    let addr = addr_of(&SK_A);
    let input = Input::new(
        "00112233".to_string(),
        Output { id: 0, value: 1000, address: addr.clone() },
    );
    assert!(!input.verify());  // unsigned: no proof attached

    let signed = sign_inputs(&SK_A, vec![input]).expect("well-formed scalar");
    let good = &signed[0];
    assert!(good.verify());

    let mut bad = good.clone();
    bad.signature = {
        let mut b = bad.signature.into_bytes();
        b[3] = if b[3] == b'0' { b'1' } else { b'0' };
        String::from_utf8(b).unwrap()
    };
    assert!(!bad.verify());

    let mut bad = good.clone();
    bad.public_key = {
        let mut b = bad.public_key.into_bytes();
        b[10] = if b[10] == b'0' { b'1' } else { b'0' };
        String::from_utf8(b).unwrap()
    };
    assert!(!bad.verify());

    let mut bad = good.clone();
    bad.prev_tx = "00112234".to_string();
    assert!(!bad.verify());

    // A proof by the wrong key never owns this address.
    let foreign = sign_inputs(
        &SK_B,
        vec![Input::new(
            "00112233".to_string(),
            Output { id: 0, value: 1000, address: addr },
        )],
    )
    .expect("well-formed scalar");
    assert!(!foreign[0].verify());
}

#[test]
fn sign_inputs_rejects_malformed_keys() {
    assert!(sign_inputs(&[0u8; 32], Vec::new()).is_none());
}

// ---------------------------------------------------------------------------
// Ledger scenarios
// ---------------------------------------------------------------------------

#[test]
fn coinbase_credits_the_full_amount() {
    let mut ledger = Ledger::new();
    let x = addr_of(&SK_A);
    assert!(create_coinbase(x.clone(), 1000, &mut ledger).is_ok());
    assert_eq!(ledger.get_balance(&x), 1000);
}

#[test]
fn send_moves_value_and_returns_change() {
    let mut ledger = Ledger::new();
    let x = addr_of(&SK_A);
    let y = addr_of(&SK_B);
    create_coinbase(x.clone(), 1000, &mut ledger).unwrap();
    let coinbase_hash = ledger.rows[0].node.hash.clone();

    let sk_hex = hex::encode(SK_A);
    assert!(send_transaction(&sk_hex, y.clone(), 400, &mut ledger).is_ok());

    assert_eq!(ledger.get_balance(&y), 400);
    assert_eq!(ledger.get_balance(&x), 600);
    // The consumed coinbase output is marked spent and no longer selectable.
    assert!(!ledger.is_unspent(&coinbase_hash, 0));

    // The persisted spend carries the payment and the change output.
    let spend = &ledger.rows[1];
    assert_eq!(spend.outputs.len(), 2);
    assert_eq!(spend.outputs[0].id, 0);
    assert_eq!(spend.outputs[0].value, 400);
    assert_eq!(spend.outputs[0].address, y);
    assert_eq!(spend.outputs[1].id, 1);
    assert_eq!(spend.outputs[1].value, 600);
    assert_eq!(spend.outputs[1].address, x);
    assert_eq!(spend.inputs.len(), 1);
    assert_eq!(spend.inputs[0].prev_tx, coinbase_hash);
}

#[test]
fn send_without_change_when_amounts_match() {
    let mut ledger = Ledger::new();
    let x = addr_of(&SK_A);
    let y = addr_of(&SK_B);
    create_coinbase(x.clone(), 1000, &mut ledger).unwrap();
    let sk_hex = hex::encode(SK_A);
    assert!(send_transaction(&sk_hex, y.clone(), 1000, &mut ledger).is_ok());
    assert_eq!(ledger.rows[1].outputs.len(), 1);
    assert_eq!(ledger.get_balance(&x), 0);
    assert_eq!(ledger.get_balance(&y), 1000);
}

#[test]
fn insufficient_balance_aborts_and_persists_nothing() {
    let mut ledger = Ledger::new();
    let x = addr_of(&SK_A);
    let y = addr_of(&SK_B);
    create_coinbase(x, 300, &mut ledger).unwrap();
    let sk_hex = hex::encode(SK_A);
    assert_eq!(
        send_transaction(&sk_hex, y, 400, &mut ledger),
        Err(LedgerError::InsufficientBalance)
    );
    assert_eq!(ledger.rows.len(), 1);
}

#[test]
fn malformed_or_invalid_key_aborts_as_invalid_signature() {
    let mut ledger = Ledger::new();
    let y = addr_of(&SK_B);
    assert_eq!(
        send_transaction("zz", y.clone(), 100, &mut ledger),
        Err(LedgerError::InvalidSignature)
    );
    let zero_key = hex::encode([0u8; 32]);
    assert_eq!(
        send_transaction(&zero_key, y, 100, &mut ledger),
        Err(LedgerError::InvalidSignature)
    );
    assert_eq!(ledger.rows.len(), 0);
}

#[test]
fn foreign_signature_aborts_the_spend() {
    let mut ledger = Ledger::new();
    let x = addr_of(&SK_A);
    let y = addr_of(&SK_B);
    create_coinbase(x.clone(), 1000, &mut ledger).unwrap();

    let user = User::new(x);
    let (inputs, total) = user.get_unspend_outputs_as_inputs(&ledger, 400);
    assert_eq!(total, 1000);
    // Signed by a key that does not own the claimed address.
    let signed = sign_inputs(&SK_B, inputs).unwrap();
    assert_eq!(
        user.send(y, 400, signed, &mut ledger),
        Err(LedgerError::InvalidSignature)
    );
    assert_eq!(ledger.rows.len(), 1);
}

#[test]
fn double_spend_of_the_same_output_is_refused() {
    let mut ledger = Ledger::new();
    let x = addr_of(&SK_A);
    let y = addr_of(&SK_B);
    create_coinbase(x.clone(), 1000, &mut ledger).unwrap();

    // Two spends both select the same unspent output before either is
    // persisted.
    let user = User::new(x);
    let (inputs, _) = user.get_unspend_outputs_as_inputs(&ledger, 400);
    let signed_one = sign_inputs(&SK_A, inputs).unwrap();
    let signed_two: Vec<Input> = signed_one.clone();

    assert!(user.send(y.clone(), 400, signed_one, &mut ledger).is_ok());
    assert_eq!(
        user.send(y, 400, signed_two, &mut ledger),
        Err(LedgerError::SpendConflict)
    );
    assert_eq!(ledger.rows.len(), 2);
}

#[test]
fn tampered_records_never_count_and_are_never_spent() {
    let mut ledger = Ledger::new();
    let x = addr_of(&SK_A);
    let y = addr_of(&SK_B);
    create_coinbase(x.clone(), 1000, &mut ledger).unwrap();
    // Tamper with the persisted record: it must fail validation and be
    // excluded from balance and selection rather than crashing anything.
    ledger.rows[0].outputs[0].value = 9000;
    assert_eq!(ledger.get_balance(&x), 0);
    let sk_hex = hex::encode(SK_A);
    assert_eq!(
        send_transaction(&sk_hex, y, 100, &mut ledger),
        Err(LedgerError::InsufficientBalance)
    );
    assert_eq!(ledger.rows.len(), 1);
}

#[test]
fn selection_accumulates_first_fit_until_covered() {
    let mut ledger = Ledger::new();
    let x = addr_of(&SK_A);
    let y = addr_of(&SK_B);
    create_coinbase(x.clone(), 100, &mut ledger).unwrap();
    create_coinbase(x.clone(), 100, &mut ledger).unwrap();
    create_coinbase(x.clone(), 100, &mut ledger).unwrap();

    let user = User::new(x.clone());
    let (inputs, total) = user.get_unspend_outputs_as_inputs(&ledger, 150);
    assert_eq!(inputs.len(), 2);
    assert_eq!(total, 200);

    let sk_hex = hex::encode(SK_A);
    assert!(send_transaction(&sk_hex, y.clone(), 150, &mut ledger).is_ok());
    assert_eq!(ledger.get_balance(&y), 150);
    assert_eq!(ledger.get_balance(&x), 150);
    // The third coinbase output was not needed and stays unspent.
    let third_hash = ledger.rows[2].node.hash.clone();
    assert!(ledger.is_unspent(&third_hash, 0));
}
