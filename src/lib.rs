//! Projection of one contract's storage mutations into relational rows.
//!
//! The pipeline walks the result tree of each transaction of a ledger,
//! classifies the storage changes of successful invocations of the target
//! contract, decodes their keys and values into domain events, reconciles
//! vector-valued slots against their pre-image, and applies the events to a
//! row store with insert-or-patch semantics.

pub mod val;
pub mod hexfmt;
pub mod keys;
pub mod types;
pub mod ledger;
pub mod decode;
pub mod owners;
pub mod reconcile;
pub mod events;
pub mod pipeline;
pub mod store;
pub mod laws;
pub mod idempotence;
