//! Shared value types of the wallet's public surface.

use vstd::prelude::*;

use crate::account::Metadata;

verus! {

/// Arguments granting a canister a signing allowance.
#[derive(Debug)]
pub struct SignerAllowanceArgs {
    pub limit: Option<u8>,
    pub metadata: Metadata,
    pub expires_at: Option<u64>,
}

/// The lifecycle of a broadcast transaction as a chain backend reports it.
#[derive(Clone, Copy, PartialEq, Eq, Structural, Debug)]
pub enum TransactionStatus {
    Pending,
    Success,
    Failed,
}

impl Default for TransactionStatus {
    /// A transaction starts pending.
    fn default() -> (r: TransactionStatus)
        ensures
            r == TransactionStatus::Pending,
    {
        TransactionStatus::Pending
    }
}

/// How many accounts each environment has created.
#[derive(Clone, Copy, PartialEq, Eq, Structural, Debug)]
pub struct AccountsStatus {
    pub dev_counter: u64,
    pub prod_counter: u64,
    pub stag_counter: u64,
}

/// A named controller of the wallet canister.
#[derive(Debug)]
pub struct WalletController {
    pub name: String,
    pub metadata: Metadata,
}

impl WalletController {
    /// A controller with the given name; missing metadata means an empty
    /// map.
    pub fn new(name: String, metadata: Option<Metadata>) -> (r: WalletController)
        requires
            metadata matches Some(m) ==> m.wf(),
        ensures
            r.name@ == name@,
            r.metadata.wf(),
            metadata matches Some(m) ==> r.metadata == m,
            metadata is None ==> r.metadata.entries@.len() == 0,
    {
        match metadata {
            Some(m) => WalletController { name, metadata: m },
            None => WalletController { name, metadata: Metadata::new() },
        }
    }
}

/// One controller assignment.
#[derive(Debug)]
pub struct WalletControllerEntry {
    pub id: Vec<u8>,
    pub controller: WalletController,
}

/// What a wallet is initialized with: its controllers and optional
/// metadata.
#[derive(Debug)]
pub struct WalletInititializeArgs {
    pub controllers: Vec<WalletControllerEntry>,
    pub metadata: Option<Metadata>,
}

/// What a fresh wallet canister is installed with: its owner and the
/// registry canister it reports to.
#[derive(Debug)]
pub struct WalletCanisterInitArgs {
    pub owner_id: Vec<u8>,
    pub system_id: Vec<u8>,
}

} // verus!
