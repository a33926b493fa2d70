//! End-to-end tests of the ledger engine: genesis seeding, spending,
//! validation failures, reward dispersal and the event log, run against the
//! real encoder, hash and signature scheme.

use schnorrkel::{ExpansionMode, Keypair, MiniSecretKey};
use utxo::crypto::{encode_transaction, genesis_key_of, get_simple_tx, output_key_of, reward_key_of};
use utxo::issuance::HalvingIssuance;
use utxo::ledger::Ledger;
use utxo::types::{Event, Transaction, TransactionInput, TransactionOutput, UtxoError};
use utxo::validation::validate_transaction;

fn keypair(seed: u8) -> Keypair {
    MiniSecretKey::from_bytes(&[seed; 32])
        .expect("32 bytes form a mini secret key")
        .expand_to_keypair(ExpansionMode::Ed25519)
}

fn pubkey(pair: &Keypair) -> [u8; 32] {
    pair.public.to_bytes()
}

fn sign_msg(pair: &Keypair, msg: &[u8]) -> [u8; 64] {
    pair.sign_simple(b"substrate", msg).to_bytes()
}

/// Builds a transaction and signs each input with the matching keypair.
fn signed_tx(
    pairs: &[&Keypair],
    outpoints: &[[u8; 32]],
    outputs: Vec<TransactionOutput>,
) -> Transaction {
    let mut tx = Transaction {
        inputs: outpoints
            .iter()
            .map(|o| TransactionInput { outpoint: *o, sigscript: [0u8; 64] })
            .collect(),
        outputs,
    };
    let msg = get_simple_tx(&tx);
    for (i, pair) in pairs.iter().enumerate() {
        tx.inputs[i].sigscript = sign_msg(pair, msg.as_slice());
    }
    tx
}

#[test]
fn genesis_spend_moves_value_and_collects_fee() {
    let pair1 = keypair(1);
    let k2 = pubkey(&keypair(2));
    let o1 = TransactionOutput { value: 100, pubkey: pubkey(&pair1) };
    let mut ledger = Ledger::new(&vec![o1]);
    let h1 = genesis_key_of(&o1);
    assert!(ledger.store.contains_key(&h1));
    assert_eq!(ledger.store.len(), 1);

    let tx1 = signed_tx(&[&pair1], &[h1], vec![TransactionOutput { value: 90, pubkey: k2 }]);
    let new_key = output_key_of(&encode_transaction(&tx1), 0);
    let tx_copy = tx1.clone();
    assert!(ledger.spend(tx1).is_ok());

    assert_eq!(ledger.reward_total(), 10);
    assert!(!ledger.store.contains_key(&h1));
    let stored = ledger.store.get(&new_key).expect("new output stored");
    assert_eq!(stored.value, 90);
    assert_eq!(stored.pubkey, k2);
    assert_eq!(ledger.store.len(), 1);
    assert_eq!(ledger.events.len(), 1);
    assert_eq!(ledger.events[0], Event::TransactionSuccess(tx_copy));
}

#[test]
fn empty_inputs_rejected() {
    let o1 = TransactionOutput { value: 100, pubkey: pubkey(&keypair(1)) };
    let mut ledger = Ledger::new(&vec![o1]);
    let tx = Transaction {
        inputs: vec![],
        outputs: vec![TransactionOutput { value: 5, pubkey: [3u8; 32] }],
    };
    assert_eq!(ledger.spend(tx), Err(UtxoError::StructuralError));
    assert_eq!(ledger.events.len(), 0);
}

#[test]
fn empty_outputs_rejected() {
    let pair1 = keypair(1);
    let o1 = TransactionOutput { value: 100, pubkey: pubkey(&pair1) };
    let mut ledger = Ledger::new(&vec![o1]);
    let h1 = genesis_key_of(&o1);
    let tx = signed_tx(&[&pair1], &[h1], vec![]);
    assert_eq!(ledger.spend(tx), Err(UtxoError::StructuralError));
}

#[test]
fn duplicate_input_rejected_before_signature_check() {
    let pair1 = keypair(1);
    let o1 = TransactionOutput { value: 100, pubkey: pubkey(&pair1) };
    let ledger = Ledger::new(&vec![o1]);
    let h1 = genesis_key_of(&o1);
    // Both inputs spend H1 with the same garbage sigscript: were the
    // signature checked first, this would be a signature error instead.
    let bad = TransactionInput { outpoint: h1, sigscript: [7u8; 64] };
    let tx = Transaction {
        inputs: vec![bad.clone(), bad],
        outputs: vec![TransactionOutput { value: 10, pubkey: [3u8; 32] }],
    };
    assert_eq!(validate_transaction(&tx, &ledger.store), Err(UtxoError::StructuralError));
}

#[test]
fn duplicate_output_rejected() {
    let pair1 = keypair(1);
    let o1 = TransactionOutput { value: 100, pubkey: pubkey(&pair1) };
    let ledger = Ledger::new(&vec![o1]);
    let h1 = genesis_key_of(&o1);
    let dup = TransactionOutput { value: 10, pubkey: [3u8; 32] };
    let tx = Transaction {
        inputs: vec![TransactionInput { outpoint: h1, sigscript: [7u8; 64] }],
        outputs: vec![dup.clone(), dup],
    };
    assert_eq!(validate_transaction(&tx, &ledger.store), Err(UtxoError::StructuralError));
}

#[test]
fn missing_outpoint_rejected() {
    let o1 = TransactionOutput { value: 100, pubkey: pubkey(&keypair(1)) };
    let ledger = Ledger::new(&vec![o1]);
    let tx = Transaction {
        inputs: vec![TransactionInput { outpoint: [0xAB; 32], sigscript: [7u8; 64] }],
        outputs: vec![TransactionOutput { value: 10, pubkey: [3u8; 32] }],
    };
    assert_eq!(validate_transaction(&tx, &ledger.store), Err(UtxoError::ReferenceError));
}

#[test]
fn bad_signature_rejected() {
    let pair1 = keypair(1);
    let o1 = TransactionOutput { value: 100, pubkey: pubkey(&pair1) };
    let ledger = Ledger::new(&vec![o1]);
    let h1 = genesis_key_of(&o1);
    let tx = Transaction {
        inputs: vec![TransactionInput { outpoint: h1, sigscript: [7u8; 64] }],
        outputs: vec![TransactionOutput { value: 10, pubkey: [3u8; 32] }],
    };
    assert_eq!(validate_transaction(&tx, &ledger.store), Err(UtxoError::SignatureError));
}

#[test]
fn signature_by_wrong_key_rejected() {
    let pair1 = keypair(1);
    let pair2 = keypair(2);
    let o1 = TransactionOutput { value: 100, pubkey: pubkey(&pair1) };
    let ledger = Ledger::new(&vec![o1]);
    let h1 = genesis_key_of(&o1);
    // Signed correctly, but by a key other than the referenced output's owner.
    let tx = signed_tx(&[&pair2], &[h1], vec![TransactionOutput { value: 10, pubkey: [3u8; 32] }]);
    assert_eq!(validate_transaction(&tx, &ledger.store), Err(UtxoError::SignatureError));
}

#[test]
fn tampered_transaction_rejected() {
    let pair1 = keypair(1);
    let o1 = TransactionOutput { value: 100, pubkey: pubkey(&pair1) };
    let ledger = Ledger::new(&vec![o1]);
    let h1 = genesis_key_of(&o1);
    let mut tx = signed_tx(&[&pair1], &[h1], vec![TransactionOutput {
        value: 10,
        pubkey: [3u8; 32],
    }]);
    // Raising the output's value after signing must invalidate the signature.
    tx.outputs[0].value = 11;
    assert_eq!(validate_transaction(&tx, &ledger.store), Err(UtxoError::SignatureError));
}

#[test]
fn zero_value_output_rejected() {
    let pair1 = keypair(1);
    let o1 = TransactionOutput { value: 100, pubkey: pubkey(&pair1) };
    let ledger = Ledger::new(&vec![o1]);
    let h1 = genesis_key_of(&o1);
    let tx = signed_tx(&[&pair1], &[h1], vec![TransactionOutput { value: 0, pubkey: [3u8; 32] }]);
    assert_eq!(validate_transaction(&tx, &ledger.store), Err(UtxoError::StructuralError));
}

#[test]
fn outputs_exceeding_inputs_rejected() {
    let pair1 = keypair(1);
    let o1 = TransactionOutput { value: 100, pubkey: pubkey(&pair1) };
    let ledger = Ledger::new(&vec![o1]);
    let h1 = genesis_key_of(&o1);
    let tx = signed_tx(&[&pair1], &[h1], vec![TransactionOutput {
        value: 200,
        pubkey: [3u8; 32],
    }]);
    assert_eq!(validate_transaction(&tx, &ledger.store), Err(UtxoError::ConservationError));
}

#[test]
fn output_total_overflow_rejected() {
    let pair1 = keypair(1);
    let o1 = TransactionOutput { value: 100, pubkey: pubkey(&pair1) };
    let ledger = Ledger::new(&vec![o1]);
    let h1 = genesis_key_of(&o1);
    let tx = signed_tx(&[&pair1], &[h1], vec![
        TransactionOutput { value: u128::MAX, pubkey: [3u8; 32] },
        TransactionOutput { value: 1, pubkey: [4u8; 32] },
    ]);
    assert_eq!(validate_transaction(&tx, &ledger.store), Err(UtxoError::ArithmeticOverflowError));
}

#[test]
fn input_total_overflow_rejected() {
    let pair1 = keypair(1);
    let k1 = pubkey(&pair1);
    let huge = TransactionOutput { value: u128::MAX, pubkey: k1 };
    let one = TransactionOutput { value: 1, pubkey: k1 };
    let ledger = Ledger::new(&vec![huge, one]);
    let h_huge = genesis_key_of(&huge);
    let h_one = genesis_key_of(&one);
    let tx = signed_tx(&[&pair1, &pair1], &[h_huge, h_one], vec![TransactionOutput {
        value: 5,
        pubkey: [3u8; 32],
    }]);
    assert_eq!(validate_transaction(&tx, &ledger.store), Err(UtxoError::ArithmeticOverflowError));
}

#[test]
fn replaying_applied_transaction_rejected() {
    let pair1 = keypair(1);
    let o1 = TransactionOutput { value: 100, pubkey: pubkey(&pair1) };
    let mut ledger = Ledger::new(&vec![o1]);
    let h1 = genesis_key_of(&o1);
    let tx = signed_tx(&[&pair1], &[h1], vec![TransactionOutput { value: 90, pubkey: [3u8; 32] }]);
    let replay = tx.clone();
    assert!(ledger.spend(tx).is_ok());
    // The inputs were consumed, so the replay's reference check fires.
    assert_eq!(ledger.spend(replay), Err(UtxoError::ReferenceError));
    assert_eq!(ledger.events.len(), 1);
}

#[test]
fn accumulator_overflow_aborts_spend_without_state_change() {
    let pair1 = keypair(1);
    let o1 = TransactionOutput { value: 100, pubkey: pubkey(&pair1) };
    let mut ledger = Ledger::new(&vec![o1]);
    ledger.reward_total = u128::MAX;
    let h1 = genesis_key_of(&o1);
    let tx = signed_tx(&[&pair1], &[h1], vec![TransactionOutput { value: 90, pubkey: [3u8; 32] }]);
    assert_eq!(ledger.spend(tx), Err(UtxoError::ArithmeticOverflowError));
    assert!(ledger.store.contains_key(&h1));
    assert_eq!(ledger.store.len(), 1);
    assert_eq!(ledger.reward_total(), u128::MAX);
    assert_eq!(ledger.events.len(), 0);
}

#[test]
fn no_author_leaves_accumulator_and_emits_wasted() {
    let pair1 = keypair(1);
    let o1 = TransactionOutput { value: 100, pubkey: pubkey(&pair1) };
    let mut ledger = Ledger::new(&vec![o1]);
    let h1 = genesis_key_of(&o1);
    let tx = signed_tx(&[&pair1], &[h1], vec![TransactionOutput { value: 90, pubkey: [3u8; 32] }]);
    assert!(ledger.spend(tx).is_ok());

    let fees_before = ledger.reward_total();
    let size_before = ledger.store.len();
    assert!(ledger.on_finalize::<HalvingIssuance>(None, 7).is_ok());
    assert_eq!(ledger.reward_total(), fees_before);
    assert_eq!(ledger.store.len(), size_before);
    assert_eq!(ledger.events.len(), 2);
    assert_eq!(ledger.events[1], Event::RewardsWasted);
}

#[test]
fn reward_dispersal_pays_fees_plus_subsidy() {
    let pair1 = keypair(1);
    let o1 = TransactionOutput { value: 100, pubkey: pubkey(&pair1) };
    let mut ledger = Ledger::new(&vec![o1]);
    let h1 = genesis_key_of(&o1);
    let tx = signed_tx(&[&pair1], &[h1], vec![TransactionOutput { value: 90, pubkey: [3u8; 32] }]);
    assert!(ledger.spend(tx).is_ok());
    assert_eq!(ledger.reward_total(), 10);

    let author = [9u8; 32];
    assert!(ledger.on_finalize::<HalvingIssuance>(Some(author), 0).is_ok());
    assert_eq!(ledger.reward_total(), 0);

    // Fee of 10 plus a subsidy of 50 at height 0.
    let reward_utxo = TransactionOutput { value: 60, pubkey: author };
    let key = reward_key_of(&reward_utxo, 0);
    let stored = ledger.store.get(&key).expect("reward output stored");
    assert_eq!(stored.value, 60);
    assert_eq!(stored.pubkey, author);
    assert_eq!(ledger.events.len(), 2);
    assert_eq!(ledger.events[1], Event::RewardsIssued(60, key));
}

#[test]
fn fees_carried_forward_pay_out_with_null_issuance() {
    let pair1 = keypair(1);
    let o1 = TransactionOutput { value: 100, pubkey: pubkey(&pair1) };
    let mut ledger = Ledger::new(&vec![o1]);
    let h1 = genesis_key_of(&o1);
    let tx = signed_tx(&[&pair1], &[h1], vec![TransactionOutput { value: 70, pubkey: [3u8; 32] }]);
    assert!(ledger.spend(tx).is_ok());

    // Wasted once, then dispersed under the no-subsidy policy: the carried
    // fees alone make up the reward.
    assert!(ledger.on_finalize::<()>(None, 1).is_ok());
    let author = [9u8; 32];
    assert!(ledger.on_finalize::<()>(Some(author), 2).is_ok());
    assert_eq!(ledger.reward_total(), 0);
    let reward_utxo = TransactionOutput { value: 30, pubkey: author };
    let key = reward_key_of(&reward_utxo, 2);
    assert_eq!(ledger.store.get(&key).expect("reward output stored").value, 30);
}

#[test]
fn dispersal_overflow_leaves_ledger_unchanged() {
    let mut ledger = Ledger::new(&vec![]);
    ledger.reward_total = u128::MAX;
    let author = [9u8; 32];
    // Fee pool plus the height-0 subsidy of 50 overflows: nothing may change.
    assert_eq!(
        ledger.on_finalize::<HalvingIssuance>(Some(author), 0),
        Err(UtxoError::ArithmeticOverflowError)
    );
    assert_eq!(ledger.reward_total(), u128::MAX);
    assert_eq!(ledger.store.len(), 0);
    assert_eq!(ledger.events.len(), 0);
}

/// The total value the ledger holds: every stored output plus the fees
/// accumulated for the author.
fn held_value(ledger: &Ledger, keys: &[[u8; 32]]) -> u128 {
    let mut total = ledger.reward_total();
    for key in keys {
        if let Some(output) = ledger.store.get(key) {
            total += output.value;
        }
    }
    total
}

#[test]
fn value_conserved_across_spend_and_dispersal() {
    let pair1 = keypair(1);
    let o1 = TransactionOutput { value: 100, pubkey: pubkey(&pair1) };
    let mut ledger = Ledger::new(&vec![o1]);
    let h1 = genesis_key_of(&o1);
    let tx = signed_tx(&[&pair1], &[h1], vec![TransactionOutput { value: 90, pubkey: [3u8; 32] }]);
    let spent_key = output_key_of(&encode_transaction(&tx), 0);
    assert!(ledger.spend(tx).is_ok());
    // Spending moves value between outputs and the accumulator, never
    // creating or destroying any: 90 stored + 10 accumulated.
    assert_eq!(held_value(&ledger, &[h1, spent_key]), 100);

    // Dispersal injects exactly the subsidy (50 at height 0) and nothing else.
    let author = [9u8; 32];
    assert!(ledger.on_finalize::<HalvingIssuance>(Some(author), 0).is_ok());
    let reward_key = reward_key_of(&TransactionOutput { value: 60, pubkey: author }, 0);
    assert_eq!(held_value(&ledger, &[h1, spent_key, reward_key]), 150);
}

#[test]
fn simple_encoding_strips_signatures_only() {
    let in_a = TransactionInput { outpoint: [1u8; 32], sigscript: [2u8; 64] };
    let in_b = TransactionInput { outpoint: [1u8; 32], sigscript: [3u8; 64] };
    let out = TransactionOutput { value: 42, pubkey: [4u8; 32] };
    let tx_a = Transaction { inputs: vec![in_a], outputs: vec![out] };
    let tx_b = Transaction { inputs: vec![in_b], outputs: vec![out] };
    // Same transaction up to sigscripts: same message to sign...
    assert_eq!(get_simple_tx(&tx_a), get_simple_tx(&tx_b));
    // ...but different canonical encodings and so different derived keys.
    assert_ne!(encode_transaction(&tx_a), encode_transaction(&tx_b));
    assert_ne!(
        output_key_of(&encode_transaction(&tx_a), 0),
        output_key_of(&encode_transaction(&tx_b), 0)
    );
    // The message differs from the canonical encoding exactly because the
    // sigscript is nonzero.
    assert_ne!(get_simple_tx(&tx_a), encode_transaction(&tx_a));
}

#[test]
fn derived_keys_depend_on_record_and_index() {
    let o1 = TransactionOutput { value: 100, pubkey: [1u8; 32] };
    let o2 = TransactionOutput { value: 99, pubkey: [1u8; 32] };
    assert_ne!(genesis_key_of(&o1), genesis_key_of(&o2));
    assert_ne!(reward_key_of(&o1, 0), reward_key_of(&o1, 1));
    assert_ne!(genesis_key_of(&o1), o1.pubkey);
    let tx = Transaction {
        inputs: vec![TransactionInput { outpoint: [5u8; 32], sigscript: [6u8; 64] }],
        outputs: vec![o1, o2],
    };
    let enc = encode_transaction(&tx);
    assert_ne!(output_key_of(&enc, 0), output_key_of(&enc, 1));
}
