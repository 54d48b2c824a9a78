//! The native-ledger transfer builder: a canonical unsigned byte encoding
//! for a transfer on the native ledger, and its 32-byte signing digest.

use vstd::prelude::*;

use crate::encoding::push_all;
use crate::evm::{be64, push_be64};
use crate::hashes::{sha256, sha256_of};
use crate::identifier::AccountIdentifier;

verus! {

/// An unsigned transfer on the native ledger: recipient identifier, amount,
/// fee and memo.
#[derive(Debug)]
pub struct NativeTransfer {
    pub to: AccountIdentifier,
    pub amount: u64,
    pub fee: u64,
    pub memo: u64,
}

impl NativeTransfer {
    /// Well-formed: the recipient identifier holds 32 bytes.
    pub open spec fn wf(&self) -> bool {
        self.to.wf()
    }

    /// The canonical unsigned encoding: a type tag, the 32 recipient bytes,
    /// then amount, fee and memo big-endian.
    pub open spec fn spec_encoding(&self) -> Seq<u8> {
        seq![1u8] + self.to.0@ + be64(self.amount) + be64(self.fee) + be64(self.memo)
    }

    /// Builds the canonical unsigned encoding.
    pub fn encoding(&self) -> (r: Vec<u8>)
        ensures
            r@ == self.spec_encoding(),
    {
        let mut out: Vec<u8> = Vec::new();
        out.push(1);
        push_all(&mut out, &self.to.0);
        push_be64(&mut out, self.amount);
        push_be64(&mut out, self.fee);
        push_be64(&mut out, self.memo);
        proof {
            assert(out@ =~= self.spec_encoding());
        }
        out
    }

    /// The 32-byte signing digest of the unsigned encoding.
    pub fn signing_digest(&self) -> (r: Vec<u8>)
        ensures
            r@ == sha256_of(self.spec_encoding()),
            r@.len() == 32,
    {
        let encoding = self.encoding();
        sha256(&encoding)
    }
}

} // verus!
