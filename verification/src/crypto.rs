//! The ledger's external collaborators: the canonical byte encoder used to
//! derive identifiers, the collision-resistant hash, and signature
//! verification. Each outside call sits behind a trusted wrapper whose
//! contract states its result exactly where a few lines can, and names it
//! otherwise; everything layered on top is verified.

use vstd::prelude::*;
use parity_scale_codec::Encode;

use crate::types::{
    InputModel, OutputModel, Transaction, TransactionInput, TransactionOutput, TxModel, Value,
};

verus! {

/// The canonical encoding of a transaction with the given inputs and outputs.
pub uninterp spec fn scale_tx(inputs: Seq<InputModel>, outputs: Seq<OutputModel>) -> Seq<u8>;

/// The canonical encoding of a byte string paired with an output index.
pub uninterp spec fn scale_bytes_u64(bytes: Seq<u8>, index: u64) -> Seq<u8>;

/// The little-endian bytes of a 128-bit value.
pub open spec fn le_bytes_u128(v: u128) -> Seq<u8> {
    Seq::new(16, |i: int| ((v >> ((8 * i) as u128)) & 0xff) as u8)
}

/// The little-endian bytes of a 64-bit value.
pub open spec fn le_bytes_u64(v: u64) -> Seq<u8> {
    Seq::new(8, |i: int| ((v >> ((8 * i) as u64)) & 0xff) as u8)
}

/// The canonical encoding of a single output record: its value in sixteen
/// little-endian bytes, then its pubkey.
pub open spec fn scale_output(value: Value, pubkey: Seq<u8>) -> Seq<u8> {
    le_bytes_u128(value) + pubkey
}

/// The canonical encoding of an output record paired with a block height:
/// the output's encoding, then the height in eight little-endian bytes.
pub open spec fn scale_output_u64(value: Value, pubkey: Seq<u8>, block: u64) -> Seq<u8> {
    le_bytes_u128(value) + pubkey + le_bytes_u64(block)
}

/// Whether a transaction is small enough for the canonical encoder and the
/// signature transcript: both cap their input at `u32::MAX` bytes and panic
/// beyond it, so every path that encodes a whole transaction keeps under
/// that line.
pub open spec fn encodable(tx: TxModel) -> bool {
    10 + 96 * tx.inputs.len() + 48 * tx.outputs.len() <= u32::MAX
}

/// The 32-byte collision-resistant digest of a byte string.
pub uninterp spec fn blake2_of(bytes: Seq<u8>) -> Seq<u8>;

/// Whether `sigscript` is a valid signature over `message` under `pubkey`.
pub uninterp spec fn sig_verifies(sigscript: Seq<u8>, message: Seq<u8>, pubkey: Seq<u8>) -> bool;

/// The input model a (outpoint, sigscript) byte pair stands for.
pub open spec fn input_model_of_pair(p: ([u8; 32], [u8; 64])) -> InputModel {
    InputModel { outpoint: p.0@, sigscript: p.1@ }
}

/// The output model a (value, pubkey) pair stands for.
pub open spec fn output_model_of_pair(q: (Value, [u8; 32])) -> OutputModel {
    OutputModel { value: q.0, pubkey: q.1@ }
}

/// Relies on parity-scale-codec's `Encode`: a tuple encodes as the
/// concatenation of its fields, a `Vec` as a compact-`u32` length (at most
/// five bytes) followed by its items, and byte arrays and `u128` as their
/// fixed-width bytes — so this is the canonical encoding of the transaction
/// the pairs stand for, a function of those fields alone, of the bounded
/// length below. The encoder panics on a collection longer than `u32::MAX`,
/// which the bounds exclude.
#[verifier::external_body]
fn scale_encode_tx(inputs: &Vec<([u8; 32], [u8; 64])>, outputs: &Vec<(Value, [u8; 32])>) -> (r: Vec<
    u8,
>)
    requires
        inputs@.len() <= u32::MAX,
        outputs@.len() <= u32::MAX,
    ensures
        r@ == scale_tx(
            inputs@.map_values(|p: ([u8; 32], [u8; 64])| input_model_of_pair(p)),
            outputs@.map_values(|q: (Value, [u8; 32])| output_model_of_pair(q)),
        ),
        r@.len() <= 10 + 96 * inputs@.len() + 48 * outputs@.len(),
{
    (inputs, outputs).encode()
}

/// Relies on parity-scale-codec's `Encode` for `(Vec<u8>, u64)`: a
/// deterministic function of the bytes and the index alone. The encoder
/// panics on a vector longer than its compact-`u32` length can carry, which
/// the bound excludes.
#[verifier::external_body]
fn scale_encode_bytes_u64(bytes: &Vec<u8>, index: u64) -> (r: Vec<u8>)
    requires
        bytes@.len() <= u32::MAX,
    ensures
        r@ == scale_bytes_u64(bytes@, index),
{
    (bytes, index).encode()
}

/// Relies on parity-scale-codec's `Encode` for `(u128, [u8; 32])`: sixteen
/// little-endian value bytes, then the key's thirty-two bytes. Fixed size,
/// so it never hits the encoder's length cap.
#[verifier::external_body]
fn scale_encode_output(value: Value, pubkey: &[u8; 32]) -> (r: Vec<u8>)
    ensures
        r@ == scale_output(value, pubkey@),
{
    (value, pubkey).encode()
}

/// Relies on parity-scale-codec's `Encode` for `((u128, [u8; 32]), u64)`:
/// the output's encoding, then the height in eight little-endian bytes.
/// Fixed size, so it never hits the encoder's length cap.
#[verifier::external_body]
fn scale_encode_output_u64(value: Value, pubkey: &[u8; 32], block: u64) -> (r: Vec<u8>)
    ensures
        r@ == scale_output_u64(value, pubkey@, block),
{
    ((value, pubkey), block).encode()
}

/// Relies on sp_core_hashing::blake2_256: the 32-byte Blake2b digest of the
/// input bytes alone.
#[verifier::external_body]
fn blake2_256_digest(bytes: &Vec<u8>) -> (r: [u8; 32])
    ensures
        r@ == blake2_of(bytes@),
{
    sp_core_hashing::blake2_256(bytes.as_slice())
}

/// Relies on schnorrkel's `PublicKey::from_bytes`, `Signature::from_bytes`
/// and `PublicKey::verify_simple` under the signing context host runtimes use
/// for sr25519: the outcome is a function of the signature, message and key
/// bytes alone, and malformed key or signature bytes never verify. The
/// transcript it builds asserts that the message's length fits a `u32`,
/// which the bound excludes.
#[verifier::external_body]
pub(crate) fn sr25519_verify(sigscript: &[u8; 64], message: &Vec<u8>, pubkey: &[u8; 32]) -> (r:
    bool)
    requires
        message@.len() <= u32::MAX,
    ensures
        r == sig_verifies(sigscript@, message@, pubkey@),
{
    let pk = match schnorrkel::PublicKey::from_bytes(pubkey) {
        Ok(pk) => pk,
        Err(_) => return false,
    };
    let sig = match schnorrkel::Signature::from_bytes(sigscript) {
        Ok(sig) => sig,
        Err(_) => return false,
    };
    pk.verify_simple(b"substrate", message.as_slice(), &sig).is_ok()
}

/// The all-zero 512-bit sigscript that replaces every signature in the
/// message to be signed.
pub open spec fn zeroed_sigscript() -> Seq<u8> {
    Seq::new(64, |i: int| 0u8)
}

/// An input with its sigscript stripped to zeroes.
pub open spec fn zero_input(i: InputModel) -> InputModel {
    InputModel { outpoint: i.outpoint, sigscript: zeroed_sigscript() }
}

/// The inputs of a transaction with every sigscript stripped.
pub open spec fn zeroed_inputs(inputs: Seq<InputModel>) -> Seq<InputModel> {
    inputs.map_values(|i: InputModel| zero_input(i))
}

/// The canonical encoding of a transaction.
pub open spec fn tx_encoding(tx: TxModel) -> Seq<u8> {
    scale_tx(tx.inputs, tx.outputs)
}

/// The signature-stripped ("simple") encoding of a transaction: the message
/// every input's sigscript must sign.
pub open spec fn simple_tx_encoding(tx: TxModel) -> Seq<u8> {
    scale_tx(zeroed_inputs(tx.inputs), tx.outputs)
}

/// The store key of the output at `index` of a transaction.
pub open spec fn output_key(tx: TxModel, index: u64) -> Seq<u8> {
    blake2_of(scale_bytes_u64(tx_encoding(tx), index))
}

/// The store key of a genesis-seeded output.
pub open spec fn genesis_key(o: OutputModel) -> Seq<u8> {
    blake2_of(scale_output(o.value, o.pubkey))
}

/// The store key of the reward output of the block at the given height.
pub open spec fn reward_key(o: OutputModel, block: u64) -> Seq<u8> {
    blake2_of(scale_output_u64(o.value, o.pubkey, block))
}

/// Lays a transaction's inputs out as plain byte pairs for the encoder.
fn input_pairs(inputs: &Vec<TransactionInput>) -> (r: Vec<([u8; 32], [u8; 64])>)
    ensures
        r@.len() == inputs@.len(),
        forall|k: int| 0 <= k < r@.len() ==> input_model_of_pair(r@[k]) == inputs@[k]@,
{
    let mut r: Vec<([u8; 32], [u8; 64])> = Vec::new();
    let mut i: usize = 0;
    while i < inputs.len()
        invariant
            i <= inputs@.len(),
            r@.len() == i,
            forall|k: int| 0 <= k < i ==> input_model_of_pair(r@[k]) == inputs@[k]@,
        decreases inputs@.len() - i,
    {
        r.push((inputs[i].outpoint, inputs[i].sigscript));
        i += 1;
    }
    r
}

/// Lays a transaction's inputs out as byte pairs with every sigscript
/// replaced by the all-zero value.
fn zeroed_input_pairs(inputs: &Vec<TransactionInput>) -> (r: Vec<([u8; 32], [u8; 64])>)
    ensures
        r@.len() == inputs@.len(),
        forall|k: int| 0 <= k < r@.len() ==> input_model_of_pair(r@[k]) == zero_input(inputs@[k]@),
{
    let zero_sig: [u8; 64] = [0u8; 64];
    proof {
        assert(zero_sig@ =~= zeroed_sigscript());
    }
    let mut r: Vec<([u8; 32], [u8; 64])> = Vec::new();
    let mut i: usize = 0;
    while i < inputs.len()
        invariant
            i <= inputs@.len(),
            r@.len() == i,
            zero_sig@ == zeroed_sigscript(),
            forall|k: int| 0 <= k < i ==> input_model_of_pair(r@[k]) == zero_input(inputs@[k]@),
        decreases inputs@.len() - i,
    {
        r.push((inputs[i].outpoint, zero_sig));
        i += 1;
    }
    r
}

/// Lays a transaction's outputs out as plain pairs for the encoder.
fn output_pairs(outputs: &Vec<TransactionOutput>) -> (r: Vec<(Value, [u8; 32])>)
    ensures
        r@.len() == outputs@.len(),
        forall|k: int| 0 <= k < r@.len() ==> output_model_of_pair(r@[k]) == outputs@[k]@,
{
    let mut r: Vec<(Value, [u8; 32])> = Vec::new();
    let mut i: usize = 0;
    while i < outputs.len()
        invariant
            i <= outputs@.len(),
            r@.len() == i,
            forall|k: int| 0 <= k < i ==> output_model_of_pair(r@[k]) == outputs@[k]@,
        decreases outputs@.len() - i,
    {
        r.push((outputs[i].value, outputs[i].pubkey));
        i += 1;
    }
    r
}

/// Encodes a transaction canonically.
pub fn encode_transaction(tx: &Transaction) -> (r: Vec<u8>)
    requires
        encodable(tx@),
    ensures
        r@ == tx_encoding(tx@),
        r@.len() <= 10 + 96 * tx@.inputs.len() + 48 * tx@.outputs.len(),
{
    let ins = input_pairs(&tx.inputs);
    let outs = output_pairs(&tx.outputs);
    proof {
        assert(ins@.map_values(|p: ([u8; 32], [u8; 64])| input_model_of_pair(p)) =~= tx@.inputs);
        assert(outs@.map_values(|q: (Value, [u8; 32])| output_model_of_pair(q)) =~= tx@.outputs);
    }
    scale_encode_tx(&ins, &outs)
}

/// Produces the signature-stripped encoding of a transaction: identical to
/// the transaction, but every input's sigscript replaced by zeroes.
pub fn get_simple_tx(tx: &Transaction) -> (r: Vec<u8>)
    requires
        encodable(tx@),
    ensures
        r@ == simple_tx_encoding(tx@),
        r@.len() <= 10 + 96 * tx@.inputs.len() + 48 * tx@.outputs.len(),
{
    let ins = zeroed_input_pairs(&tx.inputs);
    let outs = output_pairs(&tx.outputs);
    proof {
        assert(ins@.map_values(|p: ([u8; 32], [u8; 64])| input_model_of_pair(p)) =~= zeroed_inputs(
            tx@.inputs,
        ));
        assert(outs@.map_values(|q: (Value, [u8; 32])| output_model_of_pair(q)) =~= tx@.outputs);
    }
    scale_encode_tx(&ins, &outs)
}

/// Derives the store key of the output at `index` of a transaction, from the
/// transaction's canonical encoding.
pub fn output_key_of(tx_enc: &Vec<u8>, index: u64) -> (r: [u8; 32])
    requires
        tx_enc@.len() <= u32::MAX,
    ensures
        r@ == blake2_of(scale_bytes_u64(tx_enc@, index)),
{
    let paired = scale_encode_bytes_u64(tx_enc, index);
    blake2_256_digest(&paired)
}

/// Derives the store key of a genesis-seeded output.
pub fn genesis_key_of(output: &TransactionOutput) -> (r: [u8; 32])
    ensures
        r@ == genesis_key(output@),
{
    let enc = scale_encode_output(output.value, &output.pubkey);
    blake2_256_digest(&enc)
}

/// Derives the store key of a block's reward output.
pub fn reward_key_of(output: &TransactionOutput, block: u64) -> (r: [u8; 32])
    ensures
        r@ == reward_key(output@, block),
{
    let enc = scale_encode_output_u64(output.value, &output.pubkey, block);
    blake2_256_digest(&enc)
}

} // verus!
