//! The ledger context: the UTXO store, the reward accumulator and the event
//! log, with the engine's entry points — genesis seeding, `spend`, and the
//! end-of-block reward dispersal.

use vstd::prelude::*;

use crate::crypto::{
    encodable, genesis_key, genesis_key_of, output_key, reward_key, reward_key_of,
    encode_transaction, output_key_of, tx_encoding,
};
use crate::issuance::Issuance;
use crate::store::UtxoStore;
use crate::types::{Event, OutputModel, Transaction, TransactionOutput, TxModel, UtxoError, Value};
use crate::types::{output_views, InputModel};
use crate::validation::{spec_validate, validate_transaction};

verus! {

/// The store after the inputs' outpoints are removed, in order.
pub open spec fn remove_inputs(
    store: Map<Seq<u8>, OutputModel>,
    inputs: Seq<InputModel>,
) -> Map<Seq<u8>, OutputModel>
    decreases inputs.len(),
{
    if inputs.len() == 0 {
        store
    } else {
        remove_inputs(store, inputs.drop_last()).remove(inputs.last().outpoint)
    }
}

/// The store after the first `n` outputs of the transaction are inserted
/// under their derived keys, in order.
pub open spec fn insert_outputs(
    store: Map<Seq<u8>, OutputModel>,
    tx: TxModel,
    n: int,
) -> Map<Seq<u8>, OutputModel>
    decreases n,
{
    if n <= 0 {
        store
    } else {
        insert_outputs(store, tx, n - 1).insert(output_key(tx, (n - 1) as u64), tx.outputs[n - 1])
    }
}

/// The store after a transaction is applied: its inputs' outpoints removed,
/// its outputs inserted under their derived keys.
pub open spec fn apply_tx(store: Map<Seq<u8>, OutputModel>, tx: TxModel) -> Map<
    Seq<u8>,
    OutputModel,
> {
    insert_outputs(remove_inputs(store, tx.inputs), tx, tx.outputs.len() as int)
}

/// The store seeded with the given outputs, each under the hash of its record.
pub open spec fn genesis_store(outputs: Seq<OutputModel>) -> Map<Seq<u8>, OutputModel>
    decreases outputs.len(),
{
    if outputs.len() == 0 {
        Map::empty()
    } else {
        genesis_store(outputs.drop_last()).insert(genesis_key(outputs.last()), outputs.last())
    }
}

/// A UTXO ledger: the store, the fees accumulated for the block author, and
/// the events emitted so far, in order.
pub struct Ledger {
    /// The unspent outputs.
    pub store: UtxoStore,
    /// Fees not yet paid out to an author; reset only when a reward is dispersed.
    pub reward_total: Value,
    /// The observable events, oldest first.
    pub events: Vec<Event>,
}

impl Ledger {
    /// A ledger seeded with the given genesis outputs, keyed by the hash of
    /// each output record.
    pub fn new(genesis_utxos: &Vec<TransactionOutput>) -> (ledger: Ledger)
        ensures
            ledger.store@ == genesis_store(output_views(genesis_utxos@)),
            ledger.reward_total == 0,
            ledger.events@ =~= Seq::<Event>::empty(),
    {
        let mut store = UtxoStore::new();
        let ghost outs = output_views(genesis_utxos@);
        let mut i: usize = 0;
        proof {
            assert(outs.take(0) =~= Seq::<OutputModel>::empty());
        }
        while i < genesis_utxos.len()
            invariant
                i <= genesis_utxos@.len(),
                outs == output_views(genesis_utxos@),
                store@ == genesis_store(outs.take(i as int)),
            decreases genesis_utxos@.len() - i,
        {
            let key = genesis_key_of(&genesis_utxos[i]);
            store.insert(key, genesis_utxos[i]);
            proof {
                assert(outs.take(i + 1).drop_last() =~= outs.take(i as int));
                assert(outs.take(i + 1).last() == genesis_utxos@[i as int]@);
            }
            i += 1;
        }
        proof {
            assert(outs.take(genesis_utxos@.len() as int) =~= outs);
        }
        Ledger { store, reward_total: 0, events: Vec::new() }
    }

    /// The fees accumulated so far for the block author.
    pub fn reward_total(&self) -> (r: Value)
        ensures
            r == self.reward_total,
    {
        self.reward_total
    }

    /// Applies a validated transaction's effects: adds the fee to the reward
    /// accumulator, removes every input's outpoint, and inserts every output
    /// under its derived key. Called only after successful validation of the
    /// same transaction against the same store; an accumulator overflow
    /// aborts the whole application with no state change. The transaction
    /// must fit the canonical encoder (see `encodable`).
    pub fn update_storage(&mut self, tx: &Transaction, reward: Value) -> (r: Result<(), UtxoError>)
        requires
            encodable(tx@),
        ensures
            match r {
                Ok(()) => old(self).reward_total + reward <= u128::MAX && final(self).reward_total
                    == old(self).reward_total + reward && final(self).store@ == apply_tx(
                    old(self).store@,
                    tx@,
                ) && final(self).events == old(self).events,
                Err(e) => e == UtxoError::ArithmeticOverflowError && old(self).reward_total + reward
                    > u128::MAX && *final(self) == *old(self),
            },
    {
        if reward > u128::MAX - self.reward_total {
            return Err(UtxoError::ArithmeticOverflowError);
        }
        self.reward_total = self.reward_total + reward;

        let ghost store0 = self.store@;
        let ghost reward1 = self.reward_total;
        let ghost events0 = self.events;
        let ghost ins = tx@.inputs;
        let mut i: usize = 0;
        proof {
            assert(ins.take(0) =~= Seq::<InputModel>::empty());
        }
        while i < tx.inputs.len()
            invariant
                i <= tx.inputs@.len(),
                ins == tx@.inputs,
                self.reward_total == reward1,
                self.events == events0,
                self.store@ == remove_inputs(store0, ins.take(i as int)),
            decreases tx.inputs@.len() - i,
        {
            self.store.remove(&tx.inputs[i].outpoint);
            proof {
                assert(ins.take(i + 1).drop_last() =~= ins.take(i as int));
                assert(ins.take(i + 1).last() == tx.inputs@[i as int]@);
            }
            i += 1;
        }
        proof {
            assert(ins.take(tx.inputs@.len() as int) =~= ins);
        }

        let ghost store1 = self.store@;
        let tx_enc = encode_transaction(tx);
        proof {
            assert(tx_enc@.len() <= u32::MAX);
        }
        let mut j: usize = 0;
        while j < tx.outputs.len()
            invariant
                j <= tx.outputs@.len(),
                tx_enc@ == tx_encoding(tx@),
                tx_enc@.len() <= u32::MAX,
                self.reward_total == reward1,
                self.events == events0,
                store1 == remove_inputs(store0, tx@.inputs),
                self.store@ == insert_outputs(store1, tx@, j as int),
            decreases tx.outputs@.len() - j,
        {
            let key = output_key_of(&tx_enc, j as u64);
            self.store.insert(key, tx.outputs[j]);
            proof {
                assert(tx@.outputs[j as int] == tx.outputs@[j as int]@);
            }
            j += 1;
        }
        Ok(())
    }

    /// Validates a spend and, on success, applies it and records a
    /// `TransactionSuccess` event. On any failure the ledger is unchanged and
    /// the validation error — or the accumulator overflow — is returned. The
    /// transaction must fit the canonical encoder (see `encodable`), a
    /// machine limit far beyond any block's capacity, which callers outside
    /// the verifier's reach test before calling.
    pub fn spend(&mut self, tx: Transaction) -> (r: Result<(), UtxoError>)
        requires
            encodable(tx@),
        ensures
            match r {
                Ok(()) => spec_validate(tx@, old(self).store@) is Ok && (spec_validate(
                    tx@,
                    old(self).store@,
                ) matches Ok(fee) ==> old(self).reward_total + fee <= u128::MAX
                    && final(self).reward_total == old(self).reward_total + fee
                    && final(self).store@ == apply_tx(old(self).store@, tx@)
                    && final(self).events@ == old(self).events@.push(
                    Event::TransactionSuccess(tx),
                )),
                Err(e) => *final(self) == *old(self) && (spec_validate(tx@, old(self).store@)
                    == Err::<u128, UtxoError>(e) || (spec_validate(tx@, old(self).store@) matches
                Ok(fee) && old(self).reward_total + fee > u128::MAX && e
                    == UtxoError::ArithmeticOverflowError)),
            },
    {
        let reward = match validate_transaction(&tx, &self.store) {
            Ok(reward) => reward,
            Err(e) => {
                return Err(e);
            },
        };
        match self.update_storage(&tx, reward) {
            Ok(()) => {},
            Err(e) => {
                return Err(e);
            },
        }
        self.events.push(Event::TransactionSuccess(tx));
        Ok(())
    }

    /// Disperses the block reward: takes the whole accumulator, adds the
    /// issuance policy's subsidy for this height, and stores one new output
    /// for the author under the reward key, recording a `RewardsIssued`
    /// event. An overflow of fee plus subsidy is detected before the
    /// accumulator is touched and leaves the ledger unchanged.
    pub fn disperse_reward<I: Issuance>(&mut self, author: &[u8; 32], block_height: u64) -> (r:
        Result<(), UtxoError>)
        ensures
            match r {
                Ok(()) => ({
                    let value = (old(self).reward_total + I::spec_issuance(block_height)) as u128;
                    let model = OutputModel { value, pubkey: author@ };
                    &&& old(self).reward_total + I::spec_issuance(block_height) <= u128::MAX
                    &&& final(self).reward_total == 0
                    &&& final(self).store@ == old(self).store@.insert(
                        reward_key(model, block_height),
                        model,
                    )
                    &&& final(self).events@.len() == old(self).events@.len() + 1
                    &&& final(self).events@.drop_last() == old(self).events@
                    &&& (final(self).events@.last() matches Event::RewardsIssued(v, key) && v
                        == value && key@ == reward_key(model, block_height))
                }),
                Err(e) => e == UtxoError::ArithmeticOverflowError && old(self).reward_total
                    + I::spec_issuance(block_height) > u128::MAX && *final(self) == *old(self),
            },
    {
        let subsidy = I::issuance(block_height);
        if subsidy > u128::MAX - self.reward_total {
            return Err(UtxoError::ArithmeticOverflowError);
        }
        let value = self.reward_total + subsidy;
        let utxo = TransactionOutput { value, pubkey: *author };
        let key = reward_key_of(&utxo, block_height);
        self.reward_total = 0;
        self.store.insert(key, utxo);
        self.events.push(Event::RewardsIssued(value, key));
        proof {
            assert(final(self).events@.drop_last() =~= old(self).events@);
        }
        Ok(())
    }

    /// The end-of-block step. With a resolved author, disperses the reward to
    /// them; with none, records a `RewardsWasted` event and leaves the
    /// accumulator and the store untouched, so the fees carry forward.
    pub fn on_finalize<I: Issuance>(&mut self, author: Option<[u8; 32]>, block_height: u64) -> (r:
        Result<(), UtxoError>)
        ensures
            author is None ==> r is Ok && final(self).reward_total == old(self).reward_total
                && final(self).store@ == old(self).store@
                && final(self).events@ == old(self).events@.push(Event::RewardsWasted),
            author matches Some(a) ==> match r {
                Ok(()) => ({
                    let value = (old(self).reward_total + I::spec_issuance(block_height)) as u128;
                    let model = OutputModel { value, pubkey: a@ };
                    &&& old(self).reward_total + I::spec_issuance(block_height) <= u128::MAX
                    &&& final(self).reward_total == 0
                    &&& final(self).store@ == old(self).store@.insert(
                        reward_key(model, block_height),
                        model,
                    )
                    &&& final(self).events@.len() == old(self).events@.len() + 1
                    &&& final(self).events@.drop_last() == old(self).events@
                    &&& (final(self).events@.last() matches Event::RewardsIssued(v, key) && v
                        == value && key@ == reward_key(model, block_height))
                }),
                Err(e) => e == UtxoError::ArithmeticOverflowError && old(self).reward_total
                    + I::spec_issuance(block_height) > u128::MAX && *final(self) == *old(self),
            },
    {
        match author {
            None => {
                self.events.push(Event::RewardsWasted);
                Ok(())
            },
            Some(author) => self.disperse_reward::<I>(&author, block_height),
        }
    }
}

} // verus!
