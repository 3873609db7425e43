//! Verified core of a multi-chain bridge-event indexer: the event codec,
//! the per-rollup worker's window logic, the keyed event store with its
//! idempotence and checkpoint guarantees, the content-id derivation, the
//! read-only query screen, and the bridge-accounting aggregates.

pub mod codec;
pub mod database;
pub mod discovery;
pub mod indexer;
pub mod query;
pub mod text;
pub mod utils;
