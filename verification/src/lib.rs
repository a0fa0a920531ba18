//! Fractional-ownership ledger for tokenized spaces.
//!
//! A space (a physical asset) is tokenized into a fixed pool of ownership
//! units.  A custodian-gated ledger tracks, per token, which accounts hold how
//! many units, keeps a reverse owner index and aggregate statistics, and an
//! orchestration layer interprets the outcome of an asynchronous cross-service
//! mint request.

pub mod env;
pub mod holders;
pub mod ledger;
pub mod owner_index;
pub mod protocol;
pub mod service;
pub mod types;
