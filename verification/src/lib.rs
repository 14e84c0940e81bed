//! Core consensus and bootstrap machinery of a delegated-proof-of-stake
//! cryptocurrency node in the style of Nano: per-account block chains,
//! a ledger validator, election scheduling, legacy bootstrap bookkeeping
//! and peer history.

pub mod blocks;
pub mod bootstrap;
pub mod cementing;
pub mod crypto;
pub mod election;
pub mod json;
pub mod ledger;
pub mod messages;
pub mod numbers;
pub mod peer_history;
pub mod processor;
pub mod scheduler;
pub mod solicitor;
pub mod stats;
pub mod store;
pub mod unchecked;
pub mod voting;
pub mod wire;
