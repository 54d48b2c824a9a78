//! A custodial signing vault: deterministic subaccount derivation, checksummed
//! account identifiers, per-chain address generation, bridge-transfer
//! bookkeeping, and a role-gated request queue.

pub mod account;
pub mod chain;
pub mod encoding;
pub mod errors;
pub mod evm;
pub mod hashes;
pub mod identifier;
pub mod ledger;
pub mod public_keys;
pub mod request;
pub mod state;
pub mod subaccount;
pub mod system;
pub mod transfer;
pub mod types;
