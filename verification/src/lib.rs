//! Core engine of a Bitcoin-custody bridge: UTXO bookkeeping, deposit-address
//! derivation, the deposit (balance-update) pipeline, the withdrawal pipeline
//! with coin selection, the operating-mode access gate, and the upgrade
//! snapshot boundary. All state mutation is local and synchronous; calls to
//! the external collaborators (chain indexer, compliance screener, threshold
//! signer, fungible ledger) are performed by the host, which feeds their
//! results back into the step functions defined here.

pub mod address;
pub mod config;
pub mod mode;
pub mod selection;
pub mod services;
pub mod snapshot;
pub mod state;
pub mod utxo;
pub mod withdrawal;
