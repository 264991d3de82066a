//! Account-management core of a wallet client for a UTXO-style ledger.
//!
//! The crate tracks per-account address and output state, reconciles that
//! state against a remote ledger node, builds transfers by selecting inputs
//! and constructing outputs, runs a signing pipeline over a pluggable secret
//! store, and manages the lifecycle of the unlock credential.  All ledger and
//! secret-store I/O happens outside this crate; the functions here take the
//! observed values as plain data and are verified over them.

pub mod account;
pub mod dispatcher;
pub mod error;
pub mod response;
pub mod scheduler;
pub mod secret;
pub mod signing;
pub mod sync;
pub mod transfer;
pub mod types;
