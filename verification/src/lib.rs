//! Core logic of a faucet service for a UTXO-style ledger.
//!
//! The faucet dispenses fixed-size grants of the native asset to recipient
//! keys on request. This crate holds the verified engine behind that service:
//! the persistent request-queue index and its crash-recovery algorithm, the
//! admission rules, the transfer workers' decision logic, and the planning
//! rules of the background record breaker. The surrounding process (HTTP
//! framing, the wallet, disk and channel plumbing) drives these functions and
//! carries out the actions they decide on.

pub mod breaker;
pub mod health;
pub mod index;
pub mod log;
pub mod queue;
pub mod types;
pub mod worker;
