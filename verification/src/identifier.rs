//! The identifier codec: a checksummed 32-byte account identifier computed
//! from an owner and a subaccount, with an exact lowercase-hex text form.

use vstd::prelude::*;
use vstd::string::StrSliceExecFns;

use crate::encoding::{
    hex_seq, lemma_hex_round_trip, parse_hex, parse_hex_text, push_all, to_hex, valid_hex_text,
};
use crate::errors::WalletError;
use crate::hashes::{crc32, crc32_of, sha224, sha224_of};
use crate::subaccount::Subaccount;

verus! {

/// The domain separator hashed in front of the owner and subaccount bytes:
/// a length byte, then the ten ASCII characters of `account-id`.
pub open spec fn domain_seq() -> Seq<u8> {
    seq![10u8, 97u8, 99u8, 99u8, 111u8, 117u8, 110u8, 116u8, 45u8, 105u8, 100u8]
}

/// The 32 identifier bytes for an owner and a subaccount: the big-endian
/// CRC-32 of the domain-separated SHA-224 digest, then the digest itself.
pub open spec fn identifier_seq(owner: Seq<u8>, subaccount: Seq<u8>) -> Seq<u8> {
    let digest = sha224_of(domain_seq() + owner + subaccount);
    crate::encoding::be32(crc32_of(digest)) + digest
}

/// A checksummed 32-byte account identifier.
#[derive(Clone, PartialEq, Eq, Debug)]
pub struct AccountIdentifier(pub Vec<u8>);

impl AccountIdentifier {
    /// An identifier is well formed when it holds exactly 32 bytes.
    pub open spec fn wf(&self) -> bool {
        self.0@.len() == 32
    }

    /// Computes the identifier of an owner (its principal bytes) and a
    /// subaccount: a four-byte checksum prefix over a 28-byte
    /// domain-separated digest.
    pub fn new(owner: &Vec<u8>, subaccount: &Subaccount) -> (r: AccountIdentifier)
        ensures
            r.0@ == identifier_seq(owner@, subaccount.0@),
            r.wf(),
    {
        let mut data: Vec<u8> = Vec::new();
        data.push(10);
        data.push(97);
        data.push(99);
        data.push(99);
        data.push(111);
        data.push(117);
        data.push(110);
        data.push(116);
        data.push(45);
        data.push(105);
        data.push(100);
        proof {
            assert(data@ =~= domain_seq());
        }
        push_all(&mut data, owner);
        push_all(&mut data, &subaccount.0);
        proof {
            assert(data@ =~= domain_seq() + owner@ + subaccount.0@);
        }
        let digest = sha224(&data);
        let checksum = crc32(&digest);
        let mut out: Vec<u8> = Vec::new();
        crate::encoding::push_be32(&mut out, checksum);
        push_all(&mut out, &digest);
        proof {
            assert(out@ =~= identifier_seq(owner@, subaccount.0@));
        }
        AccountIdentifier(out)
    }

    /// Parses the 64-character lowercase-hex text form. Fails with
    /// `InvalidAddress` exactly when the text is not 64 lowercase hex digits.
    pub fn from_str(s: &str) -> (r: Result<AccountIdentifier, WalletError>)
        ensures
            (r is Ok) == (s@.len() == 64 && valid_hex_text(s@)),
            r matches Ok(id) ==> id.0@ == parse_hex(s@) && id.wf(),
            r matches Err(e) ==> e == WalletError::InvalidAddress,
    {
        if s.unicode_len() != 64 {
            return Err(WalletError::InvalidAddress);
        }
        match parse_hex_text(s) {
            Some(bytes) => Ok(AccountIdentifier(bytes)),
            None => Err(WalletError::InvalidAddress),
        }
    }

    /// Renders the identifier as 64 lowercase hex characters.
    pub fn to_str(&self) -> (r: String)
        ensures
            r@ == hex_seq(self.0@),
    {
        to_hex(&self.0)
    }
}

impl Default for AccountIdentifier {
    /// The all-zero identifier.
    fn default() -> (r: AccountIdentifier)
        ensures
            r.wf(),
            r.0@ =~= Seq::new(32, |i: int| 0u8),
    {
        let mut v: Vec<u8> = Vec::new();
        let mut i: usize = 0;
        while i < 32
            invariant
                i <= 32,
                v@.len() == i,
                forall|j: int| 0 <= j < i ==> v@[j] == 0u8,
            decreases 32 - i,
        {
            v.push(0);
            i = i + 1;
        }
        proof {
            assert(v@ =~= Seq::new(32, |j: int| 0u8));
        }
        AccountIdentifier(v)
    }
}

impl Subaccount {
    /// The account identifier of this subaccount under the given owner.
    pub fn account_identifier(&self, owner: &Vec<u8>) -> (r: AccountIdentifier)
        ensures
            r.0@ == identifier_seq(owner@, self.0@),
            r.wf(),
    {
        AccountIdentifier::new(owner, self)
    }
}

/// Round trip: the text form of any 32 identifier bytes is 64 valid
/// lowercase hex characters, and parsing it back recovers the bytes exactly.
pub proof fn lemma_identifier_text_round_trip(bytes: Seq<u8>)
    requires
        bytes.len() == 32,
    ensures
        hex_seq(bytes).len() == 64,
        valid_hex_text(hex_seq(bytes)),
        parse_hex(hex_seq(bytes)) == bytes,
{
    lemma_hex_round_trip(bytes);
}

} // verus!
