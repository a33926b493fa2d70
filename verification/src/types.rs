//! The ledger's data model: transactions, their inputs and outputs, the error
//! kinds raised by validation and application, and the events the engine emits.
//!
//! Hashes are 32-byte values and signatures 64-byte values, held as plain byte
//! arrays. Each executable type has a mathematical model (`View`) over byte
//! sequences, which all contracts are stated against.

use vstd::prelude::*;

verus! {

/// A quantity of ledger value.
pub type Value = u128;

/// One input of a transaction: a reference to the unspent output being
/// consumed and the signature authorizing its spend.
#[derive(Clone, Copy, Debug, PartialEq, Eq)]
pub struct TransactionInput {
    /// Identifier (hash key) of the unspent output being spent.
    pub outpoint: [u8; 32],
    /// Signature over the signature-stripped transaction encoding.
    pub sigscript: [u8; 64],
}

/// One output of a transaction: a value assigned to an owner's key commitment.
#[derive(Clone, Copy, Debug, PartialEq, Eq)]
pub struct TransactionOutput {
    /// Quantity carried by this output; must be nonzero when created by a spend.
    pub value: Value,
    /// Commitment to the owner's verification key.
    pub pubkey: [u8; 32],
}

/// A spend: consumes previously created outputs and creates new ones.
#[derive(Clone, Debug, PartialEq, Eq)]
pub struct Transaction {
    pub inputs: Vec<TransactionInput>,
    pub outputs: Vec<TransactionOutput>,
}

/// Mathematical model of an input: both fields as byte sequences.
#[verifier::ext_equal]
pub ghost struct InputModel {
    pub outpoint: Seq<u8>,
    pub sigscript: Seq<u8>,
}

/// Mathematical model of an output.
#[verifier::ext_equal]
pub ghost struct OutputModel {
    pub value: Value,
    pub pubkey: Seq<u8>,
}

/// Mathematical model of a transaction.
#[verifier::ext_equal]
pub ghost struct TxModel {
    pub inputs: Seq<InputModel>,
    pub outputs: Seq<OutputModel>,
}

impl View for TransactionInput {
    type V = InputModel;

    open spec fn view(&self) -> InputModel {
        InputModel { outpoint: self.outpoint@, sigscript: self.sigscript@ }
    }
}

impl View for TransactionOutput {
    type V = OutputModel;

    open spec fn view(&self) -> OutputModel {
        OutputModel { value: self.value, pubkey: self.pubkey@ }
    }
}

/// The models of a sequence of inputs.
pub open spec fn input_views(s: Seq<TransactionInput>) -> Seq<InputModel> {
    s.map_values(|i: TransactionInput| i@)
}

/// The models of a sequence of outputs.
pub open spec fn output_views(s: Seq<TransactionOutput>) -> Seq<OutputModel> {
    s.map_values(|o: TransactionOutput| o@)
}

impl View for Transaction {
    type V = TxModel;

    open spec fn view(&self) -> TxModel {
        TxModel { inputs: input_views(self.inputs@), outputs: output_views(self.outputs@) }
    }
}

/// Why a spend or a block finalization was refused.
#[derive(Clone, Copy, Debug, PartialEq, Eq, Structural)]
pub enum UtxoError {
    /// Empty inputs or outputs, a duplicated input or output, or a zero-value output.
    StructuralError,
    /// An input's outpoint does not exist in the store.
    ReferenceError,
    /// An input's signature failed verification.
    SignatureError,
    /// A derived output key already exists in the store.
    CollisionError,
    /// A checked addition or subtraction overflowed.
    ArithmeticOverflowError,
    /// The outputs' total exceeds the inputs' total.
    ConservationError,
}

/// What the engine reports to the host, in order of occurrence.
#[derive(Clone, Debug, PartialEq)]
pub enum Event {
    /// A spend was validated and applied.
    TransactionSuccess(Transaction),
    /// A block reward of the given value was stored under the given key.
    RewardsIssued(Value, [u8; 32]),
    /// No author was resolvable; the accumulated reward is carried forward.
    RewardsWasted,
}

/// Whether some input occurs twice (same outpoint and sigscript).
pub open spec fn has_duplicate_inputs(inputs: Seq<InputModel>) -> bool {
    exists|i: int, j: int| 0 <= i < j < inputs.len() && inputs[i] == inputs[j]
}

/// Whether some output occurs twice (same value and pubkey).
pub open spec fn has_duplicate_outputs(outputs: Seq<OutputModel>) -> bool {
    exists|i: int, j: int| 0 <= i < j < outputs.len() && outputs[i] == outputs[j]
}

/// Byte-wise equality of two 32-byte values.
pub fn bytes32_eq(a: &[u8; 32], b: &[u8; 32]) -> (r: bool)
    ensures
        r <==> a@ == b@,
{
    let mut i: usize = 0;
    while i < 32
        invariant
            i <= 32,
            forall|k: int| 0 <= k < i ==> a@[k] == b@[k],
        decreases 32 - i,
    {
        if a[i] != b[i] {
            return false;
        }
        i += 1;
    }
    proof {
        assert(a@ =~= b@);
    }
    true
}

/// Byte-wise equality of two 64-byte values.
pub fn bytes64_eq(a: &[u8; 64], b: &[u8; 64]) -> (r: bool)
    ensures
        r <==> a@ == b@,
{
    let mut i: usize = 0;
    while i < 64
        invariant
            i <= 64,
            forall|k: int| 0 <= k < i ==> a@[k] == b@[k],
        decreases 64 - i,
    {
        if a[i] != b[i] {
            return false;
        }
        i += 1;
    }
    proof {
        assert(a@ =~= b@);
    }
    true
}

/// Equality of two inputs, by full outpoint and sigscript comparison.
pub fn input_eq(a: &TransactionInput, b: &TransactionInput) -> (r: bool)
    ensures
        r <==> a@ == b@,
{
    let r = bytes32_eq(&a.outpoint, &b.outpoint) && bytes64_eq(&a.sigscript, &b.sigscript);
    proof {
        if a@.outpoint == b@.outpoint && a@.sigscript == b@.sigscript {
            assert(a@ =~= b@);
        }
    }
    r
}

/// Equality of two outputs, by full value and pubkey comparison.
pub fn output_eq(a: &TransactionOutput, b: &TransactionOutput) -> (r: bool)
    ensures
        r <==> a@ == b@,
{
    let r = a.value == b.value && bytes32_eq(&a.pubkey, &b.pubkey);
    proof {
        if a@.value == b@.value && a@.pubkey == b@.pubkey {
            assert(a@ =~= b@);
        }
    }
    r
}

} // verus!
