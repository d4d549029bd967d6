//! Read-only query layer for an Ethereum bridge attached to a ledger.
//!
//! Every operation here is a pure function over an immutable snapshot of
//! ledger state: whether the bridge is active, the current bridge pool nonce
//! and Merkle root (live and at historical heights), the Ethereum key
//! directory of the validator set, the canonical fractional-voting-power
//! validator set that cross-chain proofs attach to, and the per-epoch
//! schedule for validator-set-update vote extensions. Determinism is the
//! paramount property: every node must derive byte-identical results from
//! the same snapshot.

pub mod codec;
pub mod storage;
pub mod types;
pub mod validator_set;
