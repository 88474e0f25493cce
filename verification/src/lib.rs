//! Canonical-chain engine for a proof-of-stake consensus client.
//!
//! The crate models the chain-state engine: the block import and validation
//! pipeline, fork-choice head selection with re-org detection, the caches
//! that feed attestation production, the aggregation pools, and the protocol
//! for keeping an external execution engine's view of the canonical chain
//! consistent with finality and payload-validity changes.

pub mod block;
pub mod caches;
pub mod chain;
pub mod config;
pub mod errors;
pub mod fork_choice;
pub mod head_tracker;
pub mod observed;
pub mod pool;
pub mod primitives;
pub mod state;
pub mod store;
