//! Typed errors surfaced by the engines; nothing is swallowed silently.

use vstd::prelude::*;

verus! {

/// Errors raised by the identifier codec, the address book and the chain
/// ledger.
#[derive(Clone, Copy, PartialEq, Eq, Structural, Debug)]
pub enum WalletError {
    /// Identifier text is not exactly 64 lowercase hex characters.
    InvalidAddress,
    /// A public key was already set for this ledger.
    AlreadySet,
    /// A public key must be exactly 33 bytes (compressed SEC1 form).
    InvalidKeyLength,
    /// A key-dependent chain was used before a public key was set.
    MissingPublicKey,
    /// The compressed public key could not be decoded to a curve point.
    GenerateError,
    /// No binding exists for the requested chain kind.
    ChainNotFound,
    /// The signature could not be normalized to the chain's (r, s, v) layout.
    InvalidSignature,
    /// A signing digest must be exactly 32 bytes.
    InvalidMessageLength,
    /// A raw transaction could not be decoded.
    InvalidTransaction,
    /// No account with the given id is stored.
    AccountNotFound,
    /// An account with the given id is already stored.
    AccountAlreadyExists,
}

/// Errors raised by the request engine.
#[derive(Clone, Copy, PartialEq, Eq, Structural, Debug)]
pub enum RequestError {
    /// The caller's role does not satisfy the request's required role.
    Forbidden,
    /// The request's deadline passed before execution.
    Expired,
    /// The request already reached a terminal status.
    AlreadyExecuted,
    /// No request with the given id is queued.
    RequestNotFound,
    /// The operation requires a chain binding that does not exist.
    ChainNotInitialized,
}

/// Errors raised by the signer registry.
#[derive(Clone, Copy, PartialEq, Eq, Structural, Debug)]
pub enum SystemError {
    /// A signer is already registered for this user.
    UserAlreadyExists,
    /// No release has been registered yet.
    ReleaseNotFound,
}

} // verus!
