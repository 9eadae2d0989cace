//! A minimal proof-of-work ledger: an append-only chain of blocks whose
//! transactions move value between addresses through an unspent-output model.
//!
//! The crate provides the canonical byte encoding used for hashing, the
//! proof-of-work search, and the block-acceptance protocol that maintains a
//! consistent unspent-output set across the chain.

use vstd::prelude::*;

pub mod block;
pub mod blockchain;
pub mod digest;
pub mod encode;
pub mod laws;
pub mod transaction;
pub mod utxo;

verus! {

/// A 32-byte content identifier, produced by digesting an entity's canonical
/// byte encoding.
pub type Hash = Vec<u8>;

/// A recipient of value, identified only by name.
pub type Address = String;

} // verus!
