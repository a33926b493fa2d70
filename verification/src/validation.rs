//! Transaction validation: the structural, cryptographic and arithmetic
//! checks a spend must pass against a read-only snapshot of the store, and
//! the fee it yields. Validation never mutates anything.

use vstd::prelude::*;

use crate::crypto::{
    blake2_of, encodable, scale_bytes_u64, sig_verifies, simple_tx_encoding, tx_encoding,
    encode_transaction, get_simple_tx, output_key_of,
};
use crate::store::UtxoStore;
use crate::types::{
    has_duplicate_inputs, has_duplicate_outputs, input_eq, output_eq, InputModel, OutputModel,
    Transaction, TransactionInput, TransactionOutput, TxModel, UtxoError, Value,
};

verus! {

/// Walks the inputs in order, accumulating the referenced outputs' values:
/// fails on the first input whose outpoint is absent, whose signature does
/// not verify against `msg`, or whose value overflows the running total.
pub open spec fn check_inputs(
    inputs: Seq<InputModel>,
    store: Map<Seq<u8>, OutputModel>,
    msg: Seq<u8>,
    acc: u128,
) -> Result<u128, UtxoError>
    decreases inputs.len(),
{
    if inputs.len() == 0 {
        Ok(acc)
    } else {
        let input = inputs[0];
        if !store.contains_key(input.outpoint) {
            Err(UtxoError::ReferenceError)
        } else if !sig_verifies(input.sigscript, msg, store[input.outpoint].pubkey) {
            Err(UtxoError::SignatureError)
        } else if acc + store[input.outpoint].value > u128::MAX {
            Err(UtxoError::ArithmeticOverflowError)
        } else {
            check_inputs(
                inputs.drop_first(),
                store,
                msg,
                (acc + store[input.outpoint].value) as u128,
            )
        }
    }
}

/// Walks the outputs in order, accumulating their values: fails on the first
/// zero-value output, on the first derived key already present in the store,
/// or on an overflow of the running total.
pub open spec fn check_outputs(
    outputs: Seq<OutputModel>,
    store: Map<Seq<u8>, OutputModel>,
    tx_enc: Seq<u8>,
    index: u64,
    acc: u128,
) -> Result<u128, UtxoError>
    decreases outputs.len(),
{
    if outputs.len() == 0 {
        Ok(acc)
    } else if outputs[0].value == 0 {
        Err(UtxoError::StructuralError)
    } else if store.contains_key(blake2_of(scale_bytes_u64(tx_enc, index))) {
        Err(UtxoError::CollisionError)
    } else if acc + outputs[0].value > u128::MAX {
        Err(UtxoError::ArithmeticOverflowError)
    } else {
        check_outputs(
            outputs.drop_first(),
            store,
            tx_enc,
            (index + 1) as u64,
            (acc + outputs[0].value) as u128,
        )
    }
}

/// The mathematical sum of the store values the inputs reference (a missing
/// outpoint contributes nothing; validation rejects it anyway).
pub open spec fn total_input(inputs: Seq<InputModel>, store: Map<Seq<u8>, OutputModel>) -> int
    decreases inputs.len(),
{
    if inputs.len() == 0 {
        0
    } else {
        (if store.contains_key(inputs[0].outpoint) {
            store[inputs[0].outpoint].value as int
        } else {
            0
        }) + total_input(inputs.drop_first(), store)
    }
}

/// The mathematical sum of the outputs' values.
pub open spec fn total_output(outputs: Seq<OutputModel>) -> int
    decreases outputs.len(),
{
    if outputs.len() == 0 {
        0
    } else {
        outputs[0].value + total_output(outputs.drop_first())
    }
}

/// What validating a transaction against a store yields: the fee on success,
/// and the first failing check's error otherwise. The checks run in order:
/// nonempty inputs and outputs, no duplicated input, no duplicated output,
/// then the per-input checks, the per-output checks, and conservation.
pub open spec fn spec_validate(tx: TxModel, store: Map<Seq<u8>, OutputModel>) -> Result<
    u128,
    UtxoError,
> {
    if tx.inputs.len() == 0 {
        Err(UtxoError::StructuralError)
    } else if tx.outputs.len() == 0 {
        Err(UtxoError::StructuralError)
    } else if has_duplicate_inputs(tx.inputs) {
        Err(UtxoError::StructuralError)
    } else if has_duplicate_outputs(tx.outputs) {
        Err(UtxoError::StructuralError)
    } else {
        match check_inputs(tx.inputs, store, simple_tx_encoding(tx), 0) {
            Err(e) => Err(e),
            Ok(total_input) => match check_outputs(tx.outputs, store, tx_encoding(tx), 0, 0) {
                Err(e) => Err(e),
                Ok(total_output) => if total_input < total_output {
                    Err(UtxoError::ConservationError)
                } else {
                    Ok((total_input - total_output) as u128)
                },
            },
        }
    }
}

/// Decides whether some input occurs twice in the list.
fn has_duplicate_inputs_exec(inputs: &Vec<TransactionInput>) -> (r: bool)
    ensures
        r == has_duplicate_inputs(crate::types::input_views(inputs@)),
{
    let ghost s = crate::types::input_views(inputs@);
    let mut i: usize = 0;
    while i < inputs.len()
        invariant
            i <= inputs@.len(),
            s == crate::types::input_views(inputs@),
            forall|a: int, b: int| 0 <= a < b < s.len() && a < i ==> s[a] != s[b],
        decreases inputs@.len() - i,
    {
        let mut j: usize = i + 1;
        while j < inputs.len()
            invariant
                i < j <= inputs@.len() || (i >= inputs@.len() && j == i + 1),
                i < inputs@.len(),
                s == crate::types::input_views(inputs@),
                forall|b: int| i < b < j ==> s[i as int] != s[b],
            decreases inputs@.len() - j,
        {
            if input_eq(&inputs[i], &inputs[j]) {
                proof {
                    assert(s[i as int] == s[j as int]);
                }
                return true;
            }
            j += 1;
        }
        i += 1;
    }
    false
}

/// Decides whether some output occurs twice in the list.
fn has_duplicate_outputs_exec(outputs: &Vec<TransactionOutput>) -> (r: bool)
    ensures
        r == has_duplicate_outputs(crate::types::output_views(outputs@)),
{
    let ghost s = crate::types::output_views(outputs@);
    let mut i: usize = 0;
    while i < outputs.len()
        invariant
            i <= outputs@.len(),
            s == crate::types::output_views(outputs@),
            forall|a: int, b: int| 0 <= a < b < s.len() && a < i ==> s[a] != s[b],
        decreases outputs@.len() - i,
    {
        let mut j: usize = i + 1;
        while j < outputs.len()
            invariant
                i < j <= outputs@.len() || (i >= outputs@.len() && j == i + 1),
                i < outputs@.len(),
                s == crate::types::output_views(outputs@),
                forall|b: int| i < b < j ==> s[i as int] != s[b],
            decreases outputs@.len() - j,
        {
            if output_eq(&outputs[i], &outputs[j]) {
                proof {
                    assert(s[i as int] == s[j as int]);
                }
                return true;
            }
            j += 1;
        }
        i += 1;
    }
    false
}

/// Validates a transaction against a read-only snapshot of the store and
/// returns its fee: the surplus of input value over output value. The
/// transaction must fit the canonical encoder (see `encodable`), a machine
/// limit far beyond any block's capacity.
pub fn validate_transaction(tx: &Transaction, store: &UtxoStore) -> (r: Result<Value, UtxoError>)
    requires
        encodable(tx@),
    ensures
        r == spec_validate(tx@, store@),
{
    if tx.inputs.len() == 0 {
        return Err(UtxoError::StructuralError);
    }
    if tx.outputs.len() == 0 {
        return Err(UtxoError::StructuralError);
    }
    if has_duplicate_inputs_exec(&tx.inputs) {
        return Err(UtxoError::StructuralError);
    }
    if has_duplicate_outputs_exec(&tx.outputs) {
        return Err(UtxoError::StructuralError);
    }

    let simple = get_simple_tx(tx);
    proof {
        assert(tx@.inputs.skip(0) =~= tx@.inputs);
        assert(simple@.len() <= u32::MAX);
    }
    let mut total_input: u128 = 0;
    let mut i: usize = 0;
    while i < tx.inputs.len()
        invariant
            i <= tx.inputs@.len(),
            0 < tx@.inputs.len(),
            0 < tx@.outputs.len(),
            !has_duplicate_inputs(tx@.inputs),
            !has_duplicate_outputs(tx@.outputs),
            simple@ == simple_tx_encoding(tx@),
            simple@.len() <= u32::MAX,
            check_inputs(tx@.inputs, store@, simple@, 0) == check_inputs(
                tx@.inputs.skip(i as int),
                store@,
                simple@,
                total_input,
            ),
        decreases tx.inputs@.len() - i,
    {
        let ghost rest = tx@.inputs.skip(i as int);
        proof {
            assert(rest[0] == tx@.inputs[i as int]);
            assert(tx@.inputs[i as int] == tx.inputs@[i as int]@);
        }
        let input = tx.inputs[i];
        match store.get(&input.outpoint) {
            None => {
                return Err(UtxoError::ReferenceError);
            },
            Some(utxo) => {
                if !crate::crypto::sr25519_verify(&input.sigscript, &simple, &utxo.pubkey)
                {
                    return Err(UtxoError::SignatureError);
                }
                if utxo.value > u128::MAX - total_input {
                    return Err(UtxoError::ArithmeticOverflowError);
                }
                total_input = total_input + utxo.value;
                proof {
                    assert(rest.drop_first() =~= tx@.inputs.skip(i + 1));
                }
            },
        }
        i += 1;
    }
    proof {
        assert(tx@.inputs.skip(tx.inputs@.len() as int).len() == 0);
        assert(check_inputs(tx@.inputs, store@, simple_tx_encoding(tx@), 0) == Ok::<
            u128,
            UtxoError,
        >(total_input));
    }

    let tx_enc = encode_transaction(tx);
    proof {
        assert(tx@.outputs.skip(0) =~= tx@.outputs);
        assert(tx_enc@.len() <= u32::MAX);
    }
    let mut total_output: u128 = 0;
    let mut j: usize = 0;
    while j < tx.outputs.len()
        invariant
            j <= tx.outputs@.len(),
            0 < tx@.inputs.len(),
            0 < tx@.outputs.len(),
            !has_duplicate_inputs(tx@.inputs),
            !has_duplicate_outputs(tx@.outputs),
            tx_enc@ == tx_encoding(tx@),
            tx_enc@.len() <= u32::MAX,
            check_inputs(tx@.inputs, store@, simple_tx_encoding(tx@), 0) == Ok::<u128, UtxoError>(
                total_input,
            ),
            check_outputs(tx@.outputs, store@, tx_enc@, 0, 0) == check_outputs(
                tx@.outputs.skip(j as int),
                store@,
                tx_enc@,
                j as u64,
                total_output,
            ),
        decreases tx.outputs@.len() - j,
    {
        let ghost rest = tx@.outputs.skip(j as int);
        proof {
            assert(rest[0] == tx@.outputs[j as int]);
            assert(tx@.outputs[j as int] == tx.outputs@[j as int]@);
        }
        let output = tx.outputs[j];
        if output.value == 0 {
            return Err(UtxoError::StructuralError);
        }
        let key = output_key_of(&tx_enc, j as u64);
        if store.contains_key(&key) {
            return Err(UtxoError::CollisionError);
        }
        if output.value > u128::MAX - total_output {
            return Err(UtxoError::ArithmeticOverflowError);
        }
        total_output = total_output + output.value;
        proof {
            assert(rest.drop_first() =~= tx@.outputs.skip(j + 1));
        }
        j += 1;
    }
    proof {
        assert(tx@.outputs.skip(tx.outputs@.len() as int).len() == 0);
        assert(check_outputs(tx@.outputs, store@, tx_encoding(tx@), 0, 0) == Ok::<u128, UtxoError>(
            total_output,
        ));
    }

    if total_input < total_output {
        return Err(UtxoError::ConservationError);
    }
    Ok(total_input - total_output)
}

} // verus!
