//! A UTXO ledger: validation and application of spend transactions against a
//! store of unspent outputs, with a halving block-subsidy schedule and fee
//! accumulation dispersed to block authors.
//!
//! The engine is a pure, deterministic state machine over the store and the
//! reward accumulator. Hashing, canonical encoding and signature verification
//! are external collaborators, reached through the trusted wrappers in
//! `crypto`; everything else is verified: `validate_transaction` returns
//! exactly what `spec_validate` says, mutation follows `apply_tx`, and the
//! `laws` module proves conservation, size-change, rejection and anti-replay
//! properties on top of those contracts.

pub mod crypto;
pub mod issuance;
pub mod laws;
pub mod ledger;
pub mod store;
pub mod types;
pub mod validation;
