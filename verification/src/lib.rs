//! An on-ledger registry of uniquely identified, breedable assets ("kitties").
//!
//! Every asset is owned by exactly one account and indexed twice: a dense
//! per-owner list supporting constant-time append and swap-and-truncate
//! removal, and a reverse map from asset id to (owner, position). A global
//! append-only list records every asset ever created, for supply queries.
//! New genetic material is a blake2 digest of caller-supplied entropy, and
//! breeding combines two parent DNA sequences bit by bit under a
//! pseudo-random selector.

/// The identity & DNA engine: fresh DNA derivation and genetic combination.
pub mod dna;
/// Failure kinds surfaced to callers.
pub mod errors;
/// The global enumeration index, for supply queries.
pub mod global;
/// The ownership index: per-account dense lists plus reverse lookup.
pub mod ownership;
/// The registry service: create, breed and transfer as atomic operations.
pub mod registry;
/// The asset table: id to record.
pub mod table;

pub use errors::Error;
pub use registry::Registry;
pub use table::Kitty;
