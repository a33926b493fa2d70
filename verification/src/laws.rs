//! The laws the engine obeys, stated and proved over the same models that the
//! executable functions' contracts use: the fee equation, conservation of
//! stored value plus accumulator across application and dispersal, the exact
//! effect of application on the store's membership and size, the structural
//! rejections, and the impossibility of replaying an applied transaction.

use vstd::prelude::*;

use crate::crypto::{
    blake2_of, output_key, reward_key, scale_bytes_u64, simple_tx_encoding, tx_encoding,
};
use crate::ledger::{apply_tx, insert_outputs, remove_inputs};
use crate::types::{InputModel, OutputModel, TxModel, UtxoError};
use crate::validation::{
    check_inputs, check_outputs, spec_validate, total_input, total_output,
};

verus! {

/// Whether some input references the key `k`.
pub open spec fn has_outpoint(inputs: Seq<InputModel>, k: Seq<u8>) -> bool {
    exists|i: int| 0 <= i < inputs.len() && inputs[i].outpoint == k
}

/// Whether the inputs reference pairwise-distinct outpoints.
pub open spec fn distinct_outpoints(inputs: Seq<InputModel>) -> bool {
    forall|i: int, j: int| 0 <= i < j < inputs.len() ==> inputs[i].outpoint != inputs[j].outpoint
}

/// Whether the transaction's derived output keys are pairwise distinct.
pub open spec fn distinct_output_keys(tx: TxModel) -> bool {
    forall|i: int, j: int|
        0 <= i < j < tx.outputs.len() ==> #[trigger] output_key(tx, i as u64) != #[trigger] output_key(
            tx,
            j as u64,
        )
}

/// A passing input walk accumulates exactly the referenced values' sum,
/// which never overflows.
proof fn lemma_check_inputs_total(
    inputs: Seq<InputModel>,
    store: Map<Seq<u8>, OutputModel>,
    msg: Seq<u8>,
    acc: u128,
)
    requires
        check_inputs(inputs, store, msg, acc) is Ok,
    ensures
        0 <= total_input(inputs, store),
        acc + total_input(inputs, store) <= u128::MAX,
        check_inputs(inputs, store, msg, acc) == Ok::<u128, UtxoError>(
            (acc + total_input(inputs, store)) as u128,
        ),
    decreases inputs.len(),
{
    if inputs.len() > 0 {
        let v = store[inputs[0].outpoint].value;
        lemma_check_inputs_total(inputs.drop_first(), store, msg, (acc + v) as u128);
    }
}

/// A passing input walk implies every referenced outpoint is present.
proof fn lemma_check_inputs_all_present(
    inputs: Seq<InputModel>,
    store: Map<Seq<u8>, OutputModel>,
    msg: Seq<u8>,
    acc: u128,
)
    requires
        check_inputs(inputs, store, msg, acc) is Ok,
    ensures
        forall|i: int| 0 <= i < inputs.len() ==> store.contains_key(#[trigger] inputs[i].outpoint),
    decreases inputs.len(),
{
    if inputs.len() > 0 {
        let v = store[inputs[0].outpoint].value;
        lemma_check_inputs_all_present(inputs.drop_first(), store, msg, (acc + v) as u128);
        assert forall|i: int|
            0 <= i < inputs.len() implies store.contains_key(#[trigger] inputs[i].outpoint) by {
            if i > 0 {
                assert(inputs.drop_first()[i - 1] == inputs[i]);
            }
        }
    }
}

/// A passing output walk accumulates exactly the outputs' value sum, which
/// never overflows.
proof fn lemma_check_outputs_total(
    outputs: Seq<OutputModel>,
    store: Map<Seq<u8>, OutputModel>,
    tx_enc: Seq<u8>,
    index: u64,
    acc: u128,
)
    requires
        check_outputs(outputs, store, tx_enc, index, acc) is Ok,
    ensures
        0 <= total_output(outputs),
        acc + total_output(outputs) <= u128::MAX,
        check_outputs(outputs, store, tx_enc, index, acc) == Ok::<u128, UtxoError>(
            (acc + total_output(outputs)) as u128,
        ),
    decreases outputs.len(),
{
    if outputs.len() > 0 {
        lemma_check_outputs_total(
            outputs.drop_first(),
            store,
            tx_enc,
            (index + 1) as u64,
            (acc + outputs[0].value) as u128,
        );
    }
}

/// A passing output walk implies none of the derived keys was present.
proof fn lemma_check_outputs_keys_fresh(
    outputs: Seq<OutputModel>,
    store: Map<Seq<u8>, OutputModel>,
    tx_enc: Seq<u8>,
    index: u64,
    acc: u128,
)
    requires
        check_outputs(outputs, store, tx_enc, index, acc) is Ok,
        index + outputs.len() <= u64::MAX + 1,
    ensures
        forall|j: int|
            0 <= j < outputs.len() ==> !store.contains_key(
                blake2_of(#[trigger] scale_bytes_u64(tx_enc, (index + j) as u64)),
            ),
    decreases outputs.len(),
{
    if outputs.len() > 0 {
        lemma_check_outputs_keys_fresh(
            outputs.drop_first(),
            store,
            tx_enc,
            (index + 1) as u64,
            (acc + outputs[0].value) as u128,
        );
        assert forall|j: int|
            0 <= j < outputs.len() implies !store.contains_key(
            blake2_of(#[trigger] scale_bytes_u64(tx_enc, (index + j) as u64)),
        ) by {
            if j > 0 {
                assert(((index + 1) as u64 + (j - 1)) as u64 == (index + j) as u64);
            }
        }
    }
}

/// Removing the inputs' outpoints keeps a key exactly when the store had it
/// and no input references it, and leaves kept values unchanged.
proof fn lemma_remove_inputs_contains(
    store: Map<Seq<u8>, OutputModel>,
    inputs: Seq<InputModel>,
    k: Seq<u8>,
)
    ensures
        remove_inputs(store, inputs).contains_key(k) == (store.contains_key(k) && !has_outpoint(
            inputs,
            k,
        )),
        remove_inputs(store, inputs).contains_key(k) ==> remove_inputs(store, inputs)[k]
            == store[k],
    decreases inputs.len(),
{
    if inputs.len() > 0 {
        let front = inputs.drop_last();
        lemma_remove_inputs_contains(store, front, k);
        assert(has_outpoint(inputs, k) == (has_outpoint(front, k) || inputs.last().outpoint
            == k)) by {
            if has_outpoint(inputs, k) {
                let i = choose|i: int| 0 <= i < inputs.len() && inputs[i].outpoint == k;
                if i < inputs.len() - 1 {
                    assert(front[i] == inputs[i]);
                    assert(has_outpoint(front, k));
                }
            }
            if has_outpoint(front, k) {
                let i = choose|i: int| 0 <= i < front.len() && front[i].outpoint == k;
                assert(inputs[i] == front[i]);
                assert(has_outpoint(inputs, k));
            }
            if inputs.last().outpoint == k {
                assert(has_outpoint(inputs, k));
            }
        }
    }
}

/// Removing pairwise-distinct, present outpoints shrinks the store by
/// exactly their number.
proof fn lemma_remove_inputs_len(store: Map<Seq<u8>, OutputModel>, inputs: Seq<InputModel>)
    requires
        store.dom().finite(),
        distinct_outpoints(inputs),
        forall|i: int| 0 <= i < inputs.len() ==> store.contains_key(#[trigger] inputs[i].outpoint),
    ensures
        remove_inputs(store, inputs).dom().finite(),
        remove_inputs(store, inputs).dom().len() == store.dom().len() - inputs.len(),
    decreases inputs.len(),
{
    if inputs.len() > 0 {
        let front = inputs.drop_last();
        let last = inputs.last();
        assert(forall|i: int|
            0 <= i < front.len() ==> store.contains_key(#[trigger] front[i].outpoint));
        lemma_remove_inputs_len(store, front);
        lemma_remove_inputs_contains(store, front, last.outpoint);
        assert(!has_outpoint(front, last.outpoint)) by {
            if has_outpoint(front, last.outpoint) {
                let i = choose|i: int| 0 <= i < front.len() && front[i].outpoint == last.outpoint;
                assert(inputs[i].outpoint != inputs[inputs.len() - 1].outpoint);
            }
        }
        assert(remove_inputs(store, front).contains_key(last.outpoint));
    }
}

/// Inserting the first `n` outputs makes a key present exactly when the base
/// had it or it is one of the first `n` derived keys.
proof fn lemma_insert_outputs_contains(
    base: Map<Seq<u8>, OutputModel>,
    tx: TxModel,
    n: int,
    k: Seq<u8>,
)
    requires
        n <= tx.outputs.len(),
    ensures
        insert_outputs(base, tx, n).contains_key(k) == (base.contains_key(k) || exists|j: int|
            0 <= j < n && #[trigger] output_key(tx, j as u64) == k),
    decreases n,
{
    if n > 0 {
        lemma_insert_outputs_contains(base, tx, n - 1, k);
        if insert_outputs(base, tx, n).contains_key(k) {
            if k != output_key(tx, (n - 1) as u64) {
                assert(insert_outputs(base, tx, n - 1).contains_key(k));
            } else {
                assert(output_key(tx, (n - 1) as u64) == k);
            }
        }
        if exists|j: int| 0 <= j < n && #[trigger] output_key(tx, j as u64) == k {
            let j = choose|j: int| 0 <= j < n && #[trigger] output_key(tx, j as u64) == k;
            if j < n - 1 {
                assert(exists|j2: int| 0 <= j2 < n - 1 && #[trigger] output_key(tx, j2 as u64) == k);
            }
        }
    }
}

/// Inserting `n` outputs under fresh, pairwise-distinct keys grows the base
/// by exactly `n`.
proof fn lemma_insert_outputs_len(base: Map<Seq<u8>, OutputModel>, tx: TxModel, n: int)
    requires
        base.dom().finite(),
        n <= tx.outputs.len(),
        distinct_output_keys(tx),
        forall|j: int|
            0 <= j < tx.outputs.len() ==> !base.contains_key(#[trigger] output_key(tx, j as u64)),
    ensures
        insert_outputs(base, tx, n).dom().finite(),
        n >= 0 ==> insert_outputs(base, tx, n).dom().len() == base.dom().len() + n,
    decreases n,
{
    if n > 0 {
        lemma_insert_outputs_len(base, tx, n - 1);
        lemma_insert_outputs_contains(base, tx, n - 1, output_key(tx, (n - 1) as u64));
        assert(!(exists|j: int|
            0 <= j < n - 1 && #[trigger] output_key(tx, j as u64) == output_key(tx, (n - 1) as u64))) by {
            if exists|j: int|
                0 <= j < n - 1 && #[trigger] output_key(tx, j as u64) == output_key(tx, (n - 1) as u64) {
                let j = choose|j: int|
                    0 <= j < n - 1 && #[trigger] output_key(tx, j as u64) == output_key(tx, (n - 1) as u64);
                assert(output_key(tx, j as u64) != output_key(tx, (n - 1) as u64));
            }
        }
        assert(!insert_outputs(base, tx, n - 1).contains_key(output_key(tx, (n - 1) as u64)));
    }
}

/// For every transaction that validates, the fee is exactly the input total
/// minus the output total, and the outputs never exceed the inputs:
/// value is conserved up to the fee.
pub proof fn lemma_fee_conservation(tx: TxModel, store: Map<Seq<u8>, OutputModel>)
    requires
        spec_validate(tx, store) is Ok,
    ensures
        total_output(tx.outputs) <= total_input(tx.inputs, store),
        spec_validate(tx, store) == Ok::<u128, UtxoError>(
            (total_input(tx.inputs, store) - total_output(tx.outputs)) as u128,
        ),
{
    lemma_check_inputs_total(tx.inputs, store, simple_tx_encoding(tx), 0);
    lemma_check_outputs_total(tx.outputs, store, tx_encoding(tx), 0, 0);
}

/// Applying a validated transaction whose inputs reference pairwise-distinct
/// outpoints and whose derived output keys are pairwise distinct removes
/// exactly the `inputs.len()` consumed keys and adds exactly the
/// `outputs.len()` derived keys: every outpoint is gone, every derived key is
/// present, and the store's size changes by their difference.
pub proof fn lemma_apply_changes_store_size(tx: TxModel, store: Map<Seq<u8>, OutputModel>)
    requires
        spec_validate(tx, store) is Ok,
        store.dom().finite(),
        tx.outputs.len() <= u64::MAX,
        distinct_outpoints(tx.inputs),
        distinct_output_keys(tx),
    ensures
        apply_tx(store, tx).dom().finite(),
        apply_tx(store, tx).dom().len() == store.dom().len() - tx.inputs.len() + tx.outputs.len(),
        forall|i: int|
            0 <= i < tx.inputs.len() ==> !apply_tx(store, tx).contains_key(
                #[trigger] tx.inputs[i].outpoint,
            ),
        forall|j: int|
            0 <= j < tx.outputs.len() ==> apply_tx(store, tx).contains_key(
                #[trigger] output_key(tx, j as u64),
            ),
{
    lemma_check_inputs_all_present(tx.inputs, store, simple_tx_encoding(tx), 0);
    lemma_check_outputs_keys_fresh(tx.outputs, store, tx_encoding(tx), 0, 0);
    lemma_remove_inputs_len(store, tx.inputs);
    let base = remove_inputs(store, tx.inputs);
    assert forall|j: int|
        0 <= j < tx.outputs.len() implies !base.contains_key(
        #[trigger] output_key(tx, j as u64),
    ) by {
        lemma_remove_inputs_contains(store, tx.inputs, output_key(tx, j as u64));
        assert((0 + j) as u64 == j as u64);
        assert(!store.contains_key(blake2_of(scale_bytes_u64(tx_encoding(tx), (0 + j) as u64))));
    }
    lemma_insert_outputs_len(base, tx, tx.outputs.len() as int);
    assert forall|i: int|
        0 <= i < tx.inputs.len() implies !apply_tx(store, tx).contains_key(
        #[trigger] tx.inputs[i].outpoint,
    ) by {
        let k = tx.inputs[i].outpoint;
        assert(has_outpoint(tx.inputs, k));
        lemma_remove_inputs_contains(store, tx.inputs, k);
        lemma_insert_outputs_contains(base, tx, tx.outputs.len() as int, k);
        if exists|j: int| 0 <= j < tx.outputs.len() && #[trigger] output_key(tx, j as u64) == k {
            let j = choose|j: int|
                0 <= j < tx.outputs.len() && #[trigger] output_key(tx, j as u64) == k;
            assert((0 + j) as u64 == j as u64);
            assert(!store.contains_key(
                blake2_of(scale_bytes_u64(tx_encoding(tx), (0 + j) as u64)),
            ));
        }
    }
    assert forall|j: int|
        0 <= j < tx.outputs.len() implies apply_tx(store, tx).contains_key(
        #[trigger] output_key(tx, j as u64),
    ) by {
        lemma_insert_outputs_contains(base, tx, tx.outputs.len() as int, output_key(tx, j as u64));
    }
}

/// A transaction with empty inputs or empty outputs is always rejected,
/// whatever else it contains and whatever the store holds.
pub proof fn lemma_empty_transaction_rejected(tx: TxModel, store: Map<Seq<u8>, OutputModel>)
    requires
        tx.inputs.len() == 0 || tx.outputs.len() == 0,
    ensures
        spec_validate(tx, store) == Err::<u128, UtxoError>(UtxoError::StructuralError),
{
}

/// A transaction containing two identical inputs is always rejected, even if
/// each would be valid on its own.
pub proof fn lemma_duplicate_input_rejected(tx: TxModel, store: Map<Seq<u8>, OutputModel>)
    requires
        exists|i: int, j: int| 0 <= i < j < tx.inputs.len() && tx.inputs[i] == tx.inputs[j],
    ensures
        spec_validate(tx, store) == Err::<u128, UtxoError>(UtxoError::StructuralError),
{
}

/// Replaying an already-applied transaction fails: after application every
/// derived output key exists in the store, and validating the same
/// transaction against the new store is rejected — under the strict
/// missing-outpoint rule the rejection fires already at the input-reference
/// check, since the replay's inputs were consumed.
pub proof fn lemma_replay_rejected(tx: TxModel, store: Map<Seq<u8>, OutputModel>)
    requires
        spec_validate(tx, store) is Ok,
        tx.outputs.len() <= u64::MAX,
    ensures
        forall|j: int|
            0 <= j < tx.outputs.len() ==> apply_tx(store, tx).contains_key(
                #[trigger] output_key(tx, j as u64),
            ),
        spec_validate(tx, apply_tx(store, tx)) == Err::<u128, UtxoError>(UtxoError::ReferenceError),
{
    let base = remove_inputs(store, tx.inputs);
    let applied = apply_tx(store, tx);
    assert forall|j: int|
        0 <= j < tx.outputs.len() implies applied.contains_key(
        #[trigger] output_key(tx, j as u64),
    ) by {
        lemma_insert_outputs_contains(base, tx, tx.outputs.len() as int, output_key(tx, j as u64));
    }
    lemma_check_inputs_all_present(tx.inputs, store, simple_tx_encoding(tx), 0);
    lemma_check_outputs_keys_fresh(tx.outputs, store, tx_encoding(tx), 0, 0);
    let in0 = tx.inputs[0].outpoint;
    assert(has_outpoint(tx.inputs, in0));
    lemma_remove_inputs_contains(store, tx.inputs, in0);
    assert(!applied.contains_key(in0)) by {
        lemma_insert_outputs_contains(base, tx, tx.outputs.len() as int, in0);
        if exists|j: int| 0 <= j < tx.outputs.len() && #[trigger] output_key(tx, j as u64) == in0 {
            let j = choose|j: int| 0 <= j < tx.outputs.len() && #[trigger] output_key(tx, j as u64) == in0;
            assert((0 + j) as u64 == j as u64);
            assert(!store.contains_key(
                blake2_of(scale_bytes_u64(tx_encoding(tx), (0 + j) as u64)),
            ));
        }
    }
    assert(check_inputs(tx.inputs, applied, simple_tx_encoding(tx), 0) == Err::<u128, UtxoError>(
        UtxoError::ReferenceError,
    ));
}


/// The total value held by a store's outputs.
pub open spec fn map_value_sum(m: Map<Seq<u8>, OutputModel>) -> int
    decreases m.dom().len(),
    when m.dom().finite()
{
    if m.dom().len() == 0 {
        0
    } else {
        let k = m.dom().choose();
        m[k].value + map_value_sum(m.remove(k))
    }
}

/// The sum can be peeled off at any present key, not only the chosen one.
proof fn lemma_sum_remove(m: Map<Seq<u8>, OutputModel>, k: Seq<u8>)
    requires
        m.dom().finite(),
        m.contains_key(k),
    ensures
        map_value_sum(m) == m[k].value + map_value_sum(m.remove(k)),
    decreases m.dom().len(),
{
    assert(m.dom().contains(k));
    let c = m.dom().choose();
    assert(m.dom().contains(c));
    if c == k {
    } else {
        lemma_sum_remove(m.remove(c), k);
        lemma_sum_remove(m.remove(k), c);
        assert(m.remove(c).remove(k) =~= m.remove(k).remove(c));
    }
}

/// Inserting a fresh binding adds exactly its value to the sum.
proof fn lemma_sum_insert(m: Map<Seq<u8>, OutputModel>, k: Seq<u8>, o: OutputModel)
    requires
        m.dom().finite(),
        !m.contains_key(k),
    ensures
        map_value_sum(m.insert(k, o)) == map_value_sum(m) + o.value,
{
    lemma_sum_remove(m.insert(k, o), k);
    assert(m.insert(k, o).remove(k) =~= m);
}

/// The input total peels off at the last input.
proof fn lemma_total_input_drop_last(inputs: Seq<InputModel>, store: Map<Seq<u8>, OutputModel>)
    requires
        inputs.len() > 0,
    ensures
        total_input(inputs, store) == total_input(inputs.drop_last(), store) + (
        if store.contains_key(inputs.last().outpoint) {
            store[inputs.last().outpoint].value as int
        } else {
            0
        }),
    decreases inputs.len(),
{
    if inputs.len() == 1 {
        assert(inputs.drop_last() =~= Seq::<InputModel>::empty());
        assert(inputs.drop_first() =~= Seq::<InputModel>::empty());
    } else {
        lemma_total_input_drop_last(inputs.drop_first(), store);
        assert(inputs.drop_first().drop_last() =~= inputs.drop_last().drop_first());
        assert(inputs.drop_first().last() == inputs.last());
        assert(inputs.drop_last()[0] == inputs[0]);
    }
}

/// The output total peels off at the last output.
proof fn lemma_total_output_drop_last(outputs: Seq<OutputModel>)
    requires
        outputs.len() > 0,
    ensures
        total_output(outputs) == total_output(outputs.drop_last()) + outputs.last().value,
    decreases outputs.len(),
{
    if outputs.len() == 1 {
        assert(outputs.drop_last() =~= Seq::<OutputModel>::empty());
        assert(outputs.drop_first() =~= Seq::<OutputModel>::empty());
    } else {
        lemma_total_output_drop_last(outputs.drop_first());
        assert(outputs.drop_first().drop_last() =~= outputs.drop_last().drop_first());
        assert(outputs.drop_first().last() == outputs.last());
        assert(outputs.drop_last()[0] == outputs[0]);
    }
}

/// Removing pairwise-distinct, present outpoints takes exactly their total
/// value out of the store.
proof fn lemma_remove_inputs_sum(store: Map<Seq<u8>, OutputModel>, inputs: Seq<InputModel>)
    requires
        store.dom().finite(),
        distinct_outpoints(inputs),
        forall|i: int| 0 <= i < inputs.len() ==> store.contains_key(#[trigger] inputs[i].outpoint),
    ensures
        remove_inputs(store, inputs).dom().finite(),
        map_value_sum(remove_inputs(store, inputs)) == map_value_sum(store) - total_input(
            inputs,
            store,
        ),
    decreases inputs.len(),
{
    if inputs.len() > 0 {
        let front = inputs.drop_last();
        let last = inputs.last();
        assert(forall|i: int|
            0 <= i < front.len() ==> store.contains_key(#[trigger] front[i].outpoint));
        lemma_remove_inputs_sum(store, front);
        lemma_remove_inputs_contains(store, front, last.outpoint);
        assert(!has_outpoint(front, last.outpoint)) by {
            if has_outpoint(front, last.outpoint) {
                let i = choose|i: int| 0 <= i < front.len() && front[i].outpoint == last.outpoint;
                assert(inputs[i].outpoint != inputs[inputs.len() - 1].outpoint);
            }
        }
        assert(remove_inputs(store, front).contains_key(last.outpoint));
        lemma_sum_remove(remove_inputs(store, front), last.outpoint);
        lemma_total_input_drop_last(inputs, store);
    }
}

/// Inserting the first `n` outputs under fresh, pairwise-distinct keys adds
/// exactly their total value to the base.
proof fn lemma_insert_outputs_sum(base: Map<Seq<u8>, OutputModel>, tx: TxModel, n: int)
    requires
        base.dom().finite(),
        0 <= n <= tx.outputs.len(),
        distinct_output_keys(tx),
        forall|j: int|
            0 <= j < tx.outputs.len() ==> !base.contains_key(#[trigger] output_key(tx, j as u64)),
    ensures
        insert_outputs(base, tx, n).dom().finite(),
        map_value_sum(insert_outputs(base, tx, n)) == map_value_sum(base) + total_output(
            tx.outputs.take(n),
        ),
    decreases n,
{
    if n == 0 {
        assert(tx.outputs.take(0) =~= Seq::<OutputModel>::empty());
    } else {
        lemma_insert_outputs_sum(base, tx, n - 1);
        lemma_insert_outputs_contains(base, tx, n - 1, output_key(tx, (n - 1) as u64));
        assert(!(exists|j: int|
            0 <= j < n - 1 && #[trigger] output_key(tx, j as u64) == output_key(
                tx,
                (n - 1) as u64,
            ))) by {
            if exists|j: int|
                0 <= j < n - 1 && #[trigger] output_key(tx, j as u64) == output_key(
                    tx,
                    (n - 1) as u64,
                ) {
                let j = choose|j: int|
                    0 <= j < n - 1 && #[trigger] output_key(tx, j as u64) == output_key(
                        tx,
                        (n - 1) as u64,
                    );
                assert(output_key(tx, j as u64) != output_key(tx, (n - 1) as u64));
            }
        }
        assert(!insert_outputs(base, tx, n - 1).contains_key(output_key(tx, (n - 1) as u64)));
        lemma_sum_insert(
            insert_outputs(base, tx, n - 1),
            output_key(tx, (n - 1) as u64),
            tx.outputs[n - 1],
        );
        lemma_total_output_drop_last(tx.outputs.take(n));
        assert(tx.outputs.take(n).drop_last() =~= tx.outputs.take(n - 1));
        assert(tx.outputs.take(n).last() == tx.outputs[n - 1]);
    }
}

/// Value conservation across application: with pairwise-distinct outpoints
/// and pairwise-distinct derived output keys, applying a validated
/// transaction lowers the store's total value by exactly the fee — the very
/// amount the accumulator gains in `update_storage` — so stored value plus
/// accumulator is conserved. (A derived-key collision would make one insert
/// overwrite another output and lose its value, so key distinctness is
/// assumed here just as in the size law.)
pub proof fn lemma_apply_conserves_value(tx: TxModel, store: Map<Seq<u8>, OutputModel>)
    requires
        spec_validate(tx, store) is Ok,
        store.dom().finite(),
        tx.outputs.len() <= u64::MAX,
        distinct_outpoints(tx.inputs),
        distinct_output_keys(tx),
    ensures
        spec_validate(tx, store) matches Ok(fee) ==> map_value_sum(apply_tx(store, tx)) + fee
            == map_value_sum(store),
{
    lemma_fee_conservation(tx, store);
    lemma_check_inputs_total(tx.inputs, store, simple_tx_encoding(tx), 0);
    lemma_check_outputs_total(tx.outputs, store, tx_encoding(tx), 0, 0);
    lemma_check_inputs_all_present(tx.inputs, store, simple_tx_encoding(tx), 0);
    lemma_check_outputs_keys_fresh(tx.outputs, store, tx_encoding(tx), 0, 0);
    lemma_remove_inputs_sum(store, tx.inputs);
    let base = remove_inputs(store, tx.inputs);
    assert forall|j: int|
        0 <= j < tx.outputs.len() implies !base.contains_key(
        #[trigger] output_key(tx, j as u64),
    ) by {
        lemma_remove_inputs_contains(store, tx.inputs, output_key(tx, j as u64));
        assert((0 + j) as u64 == j as u64);
        assert(!store.contains_key(blake2_of(scale_bytes_u64(tx_encoding(tx), (0 + j) as u64))));
    }
    lemma_insert_outputs_sum(base, tx, tx.outputs.len() as int);
    assert(tx.outputs.take(tx.outputs.len() as int) =~= tx.outputs);
    let ti = total_input(tx.inputs, store);
    let to = total_output(tx.outputs);
    assert(map_value_sum(apply_tx(store, tx)) == map_value_sum(store) - ti + to);
    assert(0 <= ti - to <= u128::MAX);
}

/// Value injection at dispersal: when the derived reward key is absent from
/// the store — collision-freedom before insertion being the callers' charge,
/// as with every store insert — storing the reward output raises the store's
/// total by exactly the dispersed value, the accumulated fees plus the
/// subsidy. Since `disperse_reward` also resets the accumulator to zero,
/// stored value plus accumulator grows by the subsidy alone: no fee is lost.
pub proof fn lemma_dispersal_injects_subsidy(
    store: Map<Seq<u8>, OutputModel>,
    fees: u128,
    subsidy: u128,
    author: Seq<u8>,
    block_height: u64,
)
    requires
        store.dom().finite(),
        fees + subsidy <= u128::MAX,
        ({
            let reward = OutputModel { value: (fees + subsidy) as u128, pubkey: author };
            !store.contains_key(reward_key(reward, block_height))
        }),
    ensures
        ({
            let reward = OutputModel { value: (fees + subsidy) as u128, pubkey: author };
            map_value_sum(store.insert(reward_key(reward, block_height), reward))
                == map_value_sum(store) + fees + subsidy
        }),
{
    let reward = OutputModel { value: (fees + subsidy) as u128, pubkey: author };
    lemma_sum_insert(store, reward_key(reward, block_height), reward);
}

} // verus!
