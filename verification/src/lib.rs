//! A permissioned ledger core: a registry of digital rights kept in
//! Merkle-authenticated collections, and the round-based agreement protocol
//! that orders the transactions applied to it.
//!
//! The registry side: `crypto` and `codec` give hashes, signatures and the
//! canonical byte form; `merkle` and `storage` the authenticated list and
//! map; `records`, `txs` and `view` the entities, the transactions and the
//! schema; `rights` the state transition and the state hash; `invariants`
//! what holds of the registry after every transaction.
//!
//! The agreement side: `messages` gives the signed messages, `state` what a
//! node remembers at a height, `protocol` the protocol as a function on a
//! node's state, `consensus` the handler that implements it, and `safety`
//! what a node that follows the protocol never does.
//!
//! `wire` and `decoding` read the canonical byte form back.

pub mod codec;
pub mod consensus;
pub mod crypto;
pub mod decoding;
pub mod invariants;
pub mod merkle;
pub mod messages;
pub mod protocol;
pub mod records;
pub mod rights;
pub mod safety;
pub mod state;
pub mod storage;
pub mod txs;
pub mod view;
pub mod wire;
