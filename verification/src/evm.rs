//! The transaction builder: a canonical unsigned byte encoding for EVM
//! transactions, the 32-byte signing digest, recoverable-signature
//! embedding, and deterministic contract-address derivation.

use vstd::prelude::*;

use crate::encoding::{be32, bytes_eq, hex_seq, push_all, push_be32, sub_bytes, to_hex};
use crate::errors::{RequestError, WalletError};
use crate::hashes::{keccak256, keccak256_of, recover_of, recover_public_key, uncompressed_of};
use crate::ledger::Ledger;
use crate::subaccount::clone_bytes;

verus! {

/// The big-endian eight-byte rendering of a 64-bit value.
pub open spec fn be64(x: u64) -> Seq<u8> {
    seq![
        ((x >> 56u64) & 0xff) as u8,
        ((x >> 48u64) & 0xff) as u8,
        ((x >> 40u64) & 0xff) as u8,
        ((x >> 32u64) & 0xff) as u8,
        ((x >> 24u64) & 0xff) as u8,
        ((x >> 16u64) & 0xff) as u8,
        ((x >> 8u64) & 0xff) as u8,
        ((x >> 0u64) & 0xff) as u8,
    ]
}

/// Appends the big-endian eight-byte rendering of a 64-bit value.
pub fn push_be64(out: &mut Vec<u8>, x: u64)
    ensures
        final(out)@ == old(out)@ + be64(x),
{
    assert((x >> 56u64) & 0xff < 256 && (x >> 48u64) & 0xff < 256 && (x >> 40u64) & 0xff < 256 && (x
        >> 32u64) & 0xff < 256 && (x >> 24u64) & 0xff < 256 && (x >> 16u64) & 0xff < 256 && (x
        >> 8u64) & 0xff < 256 && (x >> 0u64) & 0xff < 256) by (bit_vector);
    out.push(((x >> 56u64) & 0xff) as u8);
    out.push(((x >> 48u64) & 0xff) as u8);
    out.push(((x >> 40u64) & 0xff) as u8);
    out.push(((x >> 32u64) & 0xff) as u8);
    out.push(((x >> 24u64) & 0xff) as u8);
    out.push(((x >> 16u64) & 0xff) as u8);
    out.push(((x >> 8u64) & 0xff) as u8);
    out.push(((x >> 0u64) & 0xff) as u8);
    assert(final(out)@ =~= old(out)@ + be64(x));
}

/// The 64-bit value whose big-endian rendering sits at an offset.
pub open spec fn be64_at(s: Seq<u8>, off: int) -> u64
    recommends
        0 <= off,
        off + 8 <= s.len(),
{
    ((s[off] as u64) << 56u64) | ((s[off + 1] as u64) << 48u64) | ((s[off + 2] as u64) << 40u64) | (
    (s[off + 3] as u64) << 32u64) | ((s[off + 4] as u64) << 24u64) | ((s[off + 5] as u64)
        << 16u64) | ((s[off + 6] as u64) << 8u64) | (s[off + 7] as u64)
}

/// The 32-bit value whose big-endian rendering sits at an offset.
pub open spec fn be32_at(s: Seq<u8>, off: int) -> u32
    recommends
        0 <= off,
        off + 4 <= s.len(),
{
    ((s[off] as u32) << 24u32) | ((s[off + 1] as u32) << 16u32) | ((s[off + 2] as u32) << 8u32) | (
    s[off + 3] as u32)
}

/// Reads the big-endian 64-bit value at an offset.
fn read_be64(v: &Vec<u8>, off: usize) -> (r: u64)
    requires
        off + 8 <= v@.len(),
        v@.len() <= usize::MAX,
    ensures
        r == be64_at(v@, off as int),
{
    ((v[off] as u64) << 56u64) | ((v[off + 1] as u64) << 48u64) | ((v[off + 2] as u64) << 40u64) | (
    (v[off + 3] as u64) << 32u64) | ((v[off + 4] as u64) << 24u64) | ((v[off + 5] as u64)
        << 16u64) | ((v[off + 6] as u64) << 8u64) | (v[off + 7] as u64)
}

/// Reads the big-endian 32-bit value at an offset.
fn read_be32(v: &Vec<u8>, off: usize) -> (r: u32)
    requires
        off + 4 <= v@.len(),
        v@.len() <= usize::MAX,
    ensures
        r == be32_at(v@, off as int),
{
    ((v[off] as u32) << 24u32) | ((v[off + 1] as u32) << 16u32) | ((v[off + 2] as u32) << 8u32) | (
    v[off + 3] as u32)
}

/// An embedded recoverable signature: the recovery id and the two 32-byte
/// scalars.
#[derive(Debug)]
pub struct EvmSignature {
    pub v: u8,
    pub r: Vec<u8>,
    pub s: Vec<u8>,
}

/// The mathematical shape of an embedded signature.
#[verifier::ext_equal]
pub struct EvmSignatureView {
    pub v: u8,
    pub r: Seq<u8>,
    pub s: Seq<u8>,
}

impl View for EvmSignature {
    type V = EvmSignatureView;

    open spec fn view(&self) -> EvmSignatureView {
        EvmSignatureView { v: self.v, r: self.r@, s: self.s@ }
    }
}

/// A type-2 (fee-market) EVM transaction: fee fields, recipient, value,
/// payload, and the embedded signature once signed. The access list is the
/// empty placeholder.
#[derive(Debug)]
pub struct EvmTransaction1559 {
    pub chain_id: u64,
    pub nonce: u64,
    pub max_priority_fee_per_gas: u64,
    pub max_fee_per_gas: u64,
    pub gas_limit: u64,
    pub to: Vec<u8>,
    pub value: u64,
    pub data: Vec<u8>,
    pub signature: Option<EvmSignature>,
}

impl EvmTransaction1559 {
    /// Well-formed: the variable-length fields fit their length prefixes.
    pub open spec fn wf(&self) -> bool {
        &&& self.to@.len() <= 0xffff_ffff
        &&& self.data@.len() <= 0xffff_ffff
    }

    /// The canonical unsigned encoding: a type tag, the five numeric fields
    /// big-endian, then the length-prefixed recipient and payload.
    pub open spec fn spec_unsigned(&self) -> Seq<u8> {
        seq![2u8] + be64(self.chain_id) + be64(self.nonce) + be64(self.max_priority_fee_per_gas)
            + be64(self.max_fee_per_gas) + be64(self.gas_limit) + be32(self.to@.len() as u32)
            + self.to@ + be64(self.value) + be32(self.data@.len() as u32) + self.data@
    }

    /// Builds the canonical unsigned encoding.
    pub fn unsigned_encoding(&self) -> (r: Vec<u8>)
        requires
            self.wf(),
        ensures
            r@ == self.spec_unsigned(),
    {
        let mut out: Vec<u8> = Vec::new();
        out.push(2);
        push_be64(&mut out, self.chain_id);
        push_be64(&mut out, self.nonce);
        push_be64(&mut out, self.max_priority_fee_per_gas);
        push_be64(&mut out, self.max_fee_per_gas);
        push_be64(&mut out, self.gas_limit);
        push_be32(&mut out, self.to.len() as u32);
        push_all(&mut out, &self.to);
        push_be64(&mut out, self.value);
        push_be32(&mut out, self.data.len() as u32);
        push_all(&mut out, &self.data);
        proof {
            assert(out@ =~= self.spec_unsigned());
        }
        out
    }

    /// The 32-byte signing digest of the unsigned encoding.
    pub fn signing_digest(&self) -> (r: Vec<u8>)
        requires
            self.wf(),
        ensures
            r@ == keccak256_of(self.spec_unsigned()),
            r@.len() == 32,
    {
        let encoding = self.unsigned_encoding();
        keccak256(&encoding)
    }

    /// Embeds a recoverable signature: the 64 signature bytes split into the
    /// two scalars, and the recovery id chosen so that the signature
    /// recovers to the given public key over this transaction's digest.
    /// Fails with `InvalidSignature` when the signature is not 64 bytes or
    /// recovers to the key under neither recovery id.
    pub fn sign(&mut self, signature: Vec<u8>, public_key: Vec<u8>) -> (r: Result<(), WalletError>)
        requires
            old(self).wf(),
        ensures
            final(self).wf(),
            final(self).chain_id == old(self).chain_id,
            final(self).nonce == old(self).nonce,
            final(self).max_priority_fee_per_gas == old(self).max_priority_fee_per_gas,
            final(self).max_fee_per_gas == old(self).max_fee_per_gas,
            final(self).gas_limit == old(self).gas_limit,
            final(self).to == old(self).to,
            final(self).value == old(self).value,
            final(self).data == old(self).data,
            ({
                let digest = keccak256_of(old(self).spec_unsigned());
                let rec0 = recover_of(digest, signature@, 0);
                let rec1 = recover_of(digest, signature@, 1);
                if signature@.len() != 64 {
                    r == Err::<(), WalletError>(WalletError::InvalidSignature) && *final(self)
                        == *old(self)
                } else if rec0 matches Some(k0) && k0 == public_key@ {
                    r is Ok && (final(self).signature matches Some(sig) && sig@
                        == (EvmSignatureView {
                        v: 0,
                        r: signature@.subrange(0, 32),
                        s: signature@.subrange(32, 64),
                    }))
                } else if rec1 matches Some(k1) && k1 == public_key@ {
                    r is Ok && (final(self).signature matches Some(sig) && sig@
                        == (EvmSignatureView {
                        v: 1,
                        r: signature@.subrange(0, 32),
                        s: signature@.subrange(32, 64),
                    }))
                } else {
                    r == Err::<(), WalletError>(WalletError::InvalidSignature) && *final(self)
                        == *old(self)
                }
            }),
    {
        if signature.len() != 64 {
            return Err(WalletError::InvalidSignature);
        }
        let digest = self.signing_digest();
        let v: u8 = match recover_public_key(&digest, &signature, 0) {
            Some(k0) => {
                proof {
                    assert(k0.deep_view() =~= k0@);
                }
                if bytes_eq(&k0, &public_key) {
                    0
                } else {
                    match recover_public_key(&digest, &signature, 1) {
                        Some(k1) => {
                            proof {
                                assert(k1.deep_view() =~= k1@);
                            }
                            if bytes_eq(&k1, &public_key) {
                                1
                            } else {
                                return Err(WalletError::InvalidSignature);
                            }
                        },
                        None => {
                            return Err(WalletError::InvalidSignature);
                        },
                    }
                }
            },
            None => {
                match recover_public_key(&digest, &signature, 1) {
                    Some(k1) => {
                        proof {
                            assert(k1.deep_view() =~= k1@);
                        }
                        if bytes_eq(&k1, &public_key) {
                            1
                        } else {
                            return Err(WalletError::InvalidSignature);
                        }
                    },
                    None => {
                        return Err(WalletError::InvalidSignature);
                    },
                }
            },
        };
        let sig_r = sub_bytes(&signature, 0, 32);
        let sig_s = sub_bytes(&signature, 32, 64);
        self.signature = Some(EvmSignature { v, r: sig_r, s: sig_s });
        Ok(())
    }

    /// The signed encoding: the unsigned encoding, then the recovery id and
    /// the two scalars. Fails with `InvalidSignature` before `sign`
    /// succeeded.
    pub fn signed_encoding(&self) -> (r: Result<Vec<u8>, WalletError>)
        requires
            self.wf(),
        ensures
            self.signature is None ==> r == Err::<Vec<u8>, WalletError>(
                WalletError::InvalidSignature,
            ),
            self.signature matches Some(sig) ==> (r matches Ok(bytes) && bytes@
                == self.spec_unsigned() + seq![sig@.v] + sig@.r + sig@.s),
    {
        match &self.signature {
            Some(sig) => {
                let mut out = self.unsigned_encoding();
                out.push(sig.v);
                push_all(&mut out, &sig.r);
                push_all(&mut out, &sig.s);
                proof {
                    assert(out@ =~= self.spec_unsigned() + seq![self.signature->Some_0@.v]
                        + self.signature->Some_0@.r + self.signature->Some_0@.s);
                }
                Ok(out)
            },
            None => Err(WalletError::InvalidSignature),
        }
    }
}

/// A fully signed transaction, ready to broadcast.
#[derive(Debug)]
pub struct SignedTransaction {
    pub data: Vec<u8>,
}

impl SignedTransaction {
    pub fn new(data: Vec<u8>) -> (r: SignedTransaction)
        ensures
            r.data@ == data@,
    {
        SignedTransaction { data }
    }
}

/// The contract address a deployment from this key at this account nonce
/// creates: the sender address bytes and the nonce, hashed again.
pub open spec fn contract_address_of(key: Seq<u8>, nonce: u64) -> Seq<char>
    recommends
        uncompressed_of(key) is Some,
{
    let sender = keccak256_of((uncompressed_of(key)->Some_0).subrange(1, 65)).subrange(12, 32);
    seq!['0', 'x'] + hex_seq(keccak256_of(sender + be64(nonce)).subrange(12, 32))
}

/// Derives the deterministic contract address for a deployment signed by
/// this compressed key at this account nonce. Fails with `GenerateError`
/// when the key decodes to no curve point.
pub fn create_address_from(public_key: &Vec<u8>, nonce: u64) -> (r: Result<String, WalletError>)
    requires
        public_key@.len() == 33,
    ensures
        (r is Ok) == (uncompressed_of(public_key@) is Some),
        r matches Ok(a) ==> a@ == contract_address_of(public_key@, nonce) && a@.len() == 42,
        r is Err ==> r == Err::<String, WalletError>(WalletError::GenerateError),
{
    let uncompressed = match crate::hashes::decompress_public_key(public_key) {
        Some(u) => u,
        None => {
            return Err(WalletError::GenerateError);
        },
    };
    proof {
        assert(uncompressed.deep_view() =~= uncompressed@);
        assert(uncompressed_of(public_key@) == Some(uncompressed@));
    }
    let coords = sub_bytes(&uncompressed, 1, 65);
    let sender_digest = keccak256(&coords);
    let mut preimage = sub_bytes(&sender_digest, 12, 32);
    push_be64(&mut preimage, nonce);
    let digest = keccak256(&preimage);
    let tail = sub_bytes(&digest, 12, 32);
    let hex_tail = to_hex(&tail);
    let mut address = {
        let s: &str = "0x";
        s.to_owned()
    };
    vstd::string::StringExecFns::append(&mut address, hex_tail.as_str());
    proof {
        reveal_strlit("0x");
        assert("0x"@ =~= seq!['0', 'x']);
        assert(address@ =~= contract_address_of(public_key@, nonce));
    }
    Ok(address)
}

/// A request to deploy a contract on an EVM chain from an account's key.
#[derive(Debug)]
pub struct EvmDeployContract {
    pub account_id: String,
    pub chain_id: u64,
    pub nonce: u64,
    pub hex_byte_code: Vec<u8>,
    pub gas_limit: Option<u64>,
    pub max_fee_per_gas: Option<u64>,
    pub max_priority_fee_per_gas: Option<u64>,
}

impl EvmDeployContract {
    pub fn new(
        account_id: String,
        chain_id: u64,
        nonce: u64,
        hex_byte_code: Vec<u8>,
        gas_limit: Option<u64>,
        max_fee_per_gas: Option<u64>,
        max_priority_fee_per_gas: Option<u64>,
    ) -> (r: EvmDeployContract)
        ensures
            r.account_id@ == account_id@,
            r.chain_id == chain_id,
            r.nonce == nonce,
            r.hex_byte_code@ == hex_byte_code@,
            r.gas_limit == gas_limit,
            r.max_fee_per_gas == max_fee_per_gas,
            r.max_priority_fee_per_gas == max_priority_fee_per_gas,
    {
        EvmDeployContract {
            account_id,
            chain_id,
            nonce,
            hex_byte_code,
            gas_limit,
            max_fee_per_gas,
            max_priority_fee_per_gas,
        }
    }

    /// The deployment is valid only when the target account's ledger
    /// already binds the EVM chain it names.
    pub fn validate_request(&self, ledger: &Ledger) -> (r: Result<(), RequestError>)
        requires
            ledger.wf(),
        ensures
            (r is Ok) == (ledger.spec_binding(
                crate::chain::ChainKindView::Evm(self.chain_id),
            ) is Some),
            r is Err ==> r == Err::<(), RequestError>(RequestError::ChainNotInitialized),
    {
        match ledger.binding(&crate::chain::ChainKind::Evm(self.chain_id)) {
            Some(_) => Ok(()),
            None => Err(RequestError::ChainNotInitialized),
        }
    }

    /// The method name this request dispatches under.
    pub fn method_name(&self) -> (r: String)
        ensures
            r@ == "evm_deploy_contract"@,
    {
        let s: &str = "evm_deploy_contract";
        s.to_owned()
    }

    /// The local half of executing the deployment: builds the unsigned
    /// deployment transaction (missing fee fields default to zero) and
    /// derives the contract address from the key and the nonce. The caller
    /// obtains the external signature over the transaction's digest and
    /// embeds it with `sign`.
    pub fn prepare(&self, public_key: &Vec<u8>) -> (r: Result<
        (EvmTransaction1559, String),
        WalletError,
    >)
        requires
            public_key@.len() == 33,
            self.hex_byte_code@.len() <= 0xffff_ffff,
        ensures
            (r is Ok) == (uncompressed_of(public_key@) is Some),
            r is Err ==> r == Err::<(EvmTransaction1559, String), WalletError>(
                WalletError::GenerateError,
            ),
            r matches Ok((tx, address)) ==> ({
                &&& tx.wf()
                &&& tx.chain_id == self.chain_id
                &&& tx.nonce == self.nonce
                &&& tx.gas_limit == (match self.gas_limit {
                    Some(g) => g,
                    None => 0u64,
                })
                &&& tx.max_fee_per_gas == (match self.max_fee_per_gas {
                    Some(g) => g,
                    None => 0u64,
                })
                &&& tx.max_priority_fee_per_gas == (match self.max_priority_fee_per_gas {
                    Some(g) => g,
                    None => 0u64,
                })
                &&& tx.to@ == Seq::<u8>::empty()
                &&& tx.value == 0
                &&& tx.data@ == self.hex_byte_code@
                &&& tx.signature is None
                &&& address@ == contract_address_of(public_key@, self.nonce)
            }),
    {
        let address = match create_address_from(public_key, self.nonce) {
            Ok(a) => a,
            Err(e) => {
                return Err(e);
            },
        };
        let gas_limit = match self.gas_limit {
            Some(g) => g,
            None => 0,
        };
        let max_fee_per_gas = match self.max_fee_per_gas {
            Some(g) => g,
            None => 0,
        };
        let max_priority_fee_per_gas = match self.max_priority_fee_per_gas {
            Some(g) => g,
            None => 0,
        };
        let to: Vec<u8> = Vec::new();
        proof {
            assert(to@ =~= Seq::<u8>::empty());
        }
        let tx = EvmTransaction1559 {
            chain_id: self.chain_id,
            nonce: self.nonce,
            max_priority_fee_per_gas,
            max_fee_per_gas,
            gas_limit,
            to,
            value: 0,
            data: clone_bytes(&self.hex_byte_code),
            signature: None,
        };
        Ok((tx, address))
    }
}

/// The plain fields a raw unsigned encoding denotes.
#[verifier::ext_equal]
pub struct TxFields {
    pub chain_id: u64,
    pub nonce: u64,
    pub max_priority_fee_per_gas: u64,
    pub max_fee_per_gas: u64,
    pub gas_limit: u64,
    pub to: Seq<u8>,
    pub value: u64,
    pub data: Seq<u8>,
}

/// The fields an unsigned encoding denotes, or `None` when the bytes are no
/// unsigned encoding: wrong tag, too short, or a length prefix that does not
/// match the byte count.
pub open spec fn spec_decode(raw: Seq<u8>) -> Option<TxFields> {
    if raw.len() < 57 {
        None
    } else if raw[0] != 2u8 {
        None
    } else {
        let to_len = be32_at(raw, 41) as int;
        if raw.len() < 57 + to_len {
            None
        } else {
            let data_len = be32_at(raw, 53 + to_len) as int;
            if raw.len() != 57 + to_len + data_len {
                None
            } else {
                Some(
                    TxFields {
                        chain_id: be64_at(raw, 1),
                        nonce: be64_at(raw, 9),
                        max_priority_fee_per_gas: be64_at(raw, 17),
                        max_fee_per_gas: be64_at(raw, 25),
                        gas_limit: be64_at(raw, 33),
                        to: raw.subrange(45, 45 + to_len),
                        value: be64_at(raw, 45 + to_len),
                        data: raw.subrange(57 + to_len, 57 + to_len + data_len),
                    },
                )
            }
        }
    }
}

/// The fields of a transaction value.
pub open spec fn spec_fields(t: EvmTransaction1559) -> TxFields {
    TxFields {
        chain_id: t.chain_id,
        nonce: t.nonce,
        max_priority_fee_per_gas: t.max_priority_fee_per_gas,
        max_fee_per_gas: t.max_fee_per_gas,
        gas_limit: t.gas_limit,
        to: t.to@,
        value: t.value,
        data: t.data@,
    }
}

/// Reassembling the eight bytes read at an offset renders the same bytes.
proof fn lemma_be64_reassemble(s: Seq<u8>, off: int)
    requires
        0 <= off,
        off + 8 <= s.len(),
    ensures
        be64(be64_at(s, off)) =~= s.subrange(off, off + 8),
{
    let b0 = s[off];
    let b1 = s[off + 1];
    let b2 = s[off + 2];
    let b3 = s[off + 3];
    let b4 = s[off + 4];
    let b5 = s[off + 5];
    let b6 = s[off + 6];
    let b7 = s[off + 7];
    let x = be64_at(s, off);
    assert({
        let y = ((b0 as u64) << 56u64) | ((b1 as u64) << 48u64) | ((b2 as u64) << 40u64) | ((
        b3 as u64) << 32u64) | ((b4 as u64) << 24u64) | ((b5 as u64) << 16u64) | ((b6 as u64)
            << 8u64) | (b7 as u64);
        ((y >> 56u64) & 0xff) as u8 == b0 && ((y >> 48u64) & 0xff) as u8 == b1 && ((y >> 40u64)
            & 0xff) as u8 == b2 && ((y >> 32u64) & 0xff) as u8 == b3 && ((y >> 24u64)
            & 0xff) as u8 == b4 && ((y >> 16u64) & 0xff) as u8 == b5 && ((y >> 8u64)
            & 0xff) as u8 == b6 && ((y >> 0u64) & 0xff) as u8 == b7
    }) by (bit_vector);
}

/// Reassembling the four bytes read at an offset renders the same bytes.
proof fn lemma_be32_reassemble(s: Seq<u8>, off: int)
    requires
        0 <= off,
        off + 4 <= s.len(),
    ensures
        be32(be32_at(s, off)) =~= s.subrange(off, off + 4),
{
    let b0 = s[off];
    let b1 = s[off + 1];
    let b2 = s[off + 2];
    let b3 = s[off + 3];
    assert({
        let y = ((b0 as u32) << 24u32) | ((b1 as u32) << 16u32) | ((b2 as u32) << 8u32) | (
        b3 as u32);
        ((y >> 24) & 0xff) as u8 == b0 && ((y >> 16) & 0xff) as u8 == b1 && ((y >> 8)
            & 0xff) as u8 == b2 && (y & 0xff) as u8 == b3
    }) by (bit_vector);
}

/// Decodes a raw unsigned encoding for the given chain. Fails with
/// `InvalidTransaction` exactly when the bytes are no unsigned encoding or
/// name another chain; on success the decoded transaction re-encodes to the
/// input bytes exactly.
pub fn decode_transaction(raw: &Vec<u8>, chain_id: u64) -> (r: Result<
    EvmTransaction1559,
    WalletError,
>)
    ensures
        spec_decode(raw@) is None ==> r == Err::<EvmTransaction1559, WalletError>(
            WalletError::InvalidTransaction,
        ),
        spec_decode(raw@) matches Some(f) ==> ({
            &&& f.chain_id != chain_id ==> r == Err::<EvmTransaction1559, WalletError>(
                WalletError::InvalidTransaction,
            )
            &&& f.chain_id == chain_id ==> (r matches Ok(t) && t.wf() && spec_fields(t) == f
                && t.signature is None && t.spec_unsigned() == raw@)
        }),
{
    let n = raw.len();
    if n < 57 {
        return Err(WalletError::InvalidTransaction);
    }
    if raw[0] != 2 {
        return Err(WalletError::InvalidTransaction);
    }
    let to_len = read_be32(raw, 41) as usize;
    if n < 57 || to_len > n - 57 {
        return Err(WalletError::InvalidTransaction);
    }
    let data_len = read_be32(raw, 53 + to_len) as usize;
    if data_len != n - 57 - to_len {
        return Err(WalletError::InvalidTransaction);
    }
    let decoded_chain_id = read_be64(raw, 1);
    if decoded_chain_id != chain_id {
        return Err(WalletError::InvalidTransaction);
    }
    let t = EvmTransaction1559 {
        chain_id: decoded_chain_id,
        nonce: read_be64(raw, 9),
        max_priority_fee_per_gas: read_be64(raw, 17),
        max_fee_per_gas: read_be64(raw, 25),
        gas_limit: read_be64(raw, 33),
        to: sub_bytes(raw, 45, 45 + to_len),
        value: read_be64(raw, 45 + to_len),
        data: sub_bytes(raw, 57 + to_len, 57 + to_len + data_len),
        signature: None,
    };
    proof {
        let f = spec_decode(raw@)->Some_0;
        assert(spec_fields(t) =~= f);
        lemma_be64_reassemble(raw@, 1);
        lemma_be64_reassemble(raw@, 9);
        lemma_be64_reassemble(raw@, 17);
        lemma_be64_reassemble(raw@, 25);
        lemma_be64_reassemble(raw@, 33);
        lemma_be32_reassemble(raw@, 41);
        lemma_be64_reassemble(raw@, 45 + to_len as int);
        lemma_be32_reassemble(raw@, 53 + to_len as int);
        assert(t.to@.len() == to_len);
        assert(t.data@.len() == data_len);
        assert(be32(t.to@.len() as u32) =~= raw@.subrange(41, 45));
        assert(be32(t.data@.len() as u32) =~= raw@.subrange(
            53 + to_len as int,
            57 + to_len as int,
        ));
        assert(t.spec_unsigned() =~= raw@);
    }
    Ok(t)
}

/// Round trip: decoding the unsigned encoding of any well-formed
/// transaction recovers its fields exactly.
pub proof fn lemma_encode_decode_round_trip(t: EvmTransaction1559)
    requires
        t.wf(),
    ensures
        spec_decode(t.spec_unsigned()) == Some(spec_fields(t)),
{
    let enc = t.spec_unsigned();
    let l = t.to@.len() as int;
    let d = t.data@.len() as int;
    assert(enc.len() == 57 + l + d);
    assert(enc[0] == 2u8);
    lemma_be64_of_value_at(enc, 1, t.chain_id);
    lemma_be64_of_value_at(enc, 9, t.nonce);
    lemma_be64_of_value_at(enc, 17, t.max_priority_fee_per_gas);
    lemma_be64_of_value_at(enc, 25, t.max_fee_per_gas);
    lemma_be64_of_value_at(enc, 33, t.gas_limit);
    lemma_be32_of_value_at(enc, 41, t.to@.len() as u32);
    assert(be32_at(enc, 41) as int == l);
    lemma_be64_of_value_at(enc, 45 + l, t.value);
    lemma_be32_of_value_at(enc, 53 + l, t.data@.len() as u32);
    assert(be32_at(enc, 53 + l) as int == d);
    assert(enc.subrange(45, 45 + l) =~= t.to@);
    assert(enc.subrange(57 + l, 57 + l + d) =~= t.data@);
    assert(spec_decode(enc) matches Some(f) && f =~= spec_fields(t));
}

/// Reading eight bytes where a value was rendered recovers the value.
proof fn lemma_be64_of_value_at(s: Seq<u8>, off: int, x: u64)
    requires
        0 <= off,
        off + 8 <= s.len(),
        s.subrange(off, off + 8) =~= be64(x),
    ensures
        be64_at(s, off) == x,
{
    assert(s[off] == be64(x)[0]);
    assert(s[off + 1] == be64(x)[1]);
    assert(s[off + 2] == be64(x)[2]);
    assert(s[off + 3] == be64(x)[3]);
    assert(s[off + 4] == be64(x)[4]);
    assert(s[off + 5] == be64(x)[5]);
    assert(s[off + 6] == be64(x)[6]);
    assert(s[off + 7] == be64(x)[7]);
    assert(((((x >> 56u64) & 0xff) as u8 as u64) << 56u64) | ((((x >> 48u64)
        & 0xff) as u8 as u64) << 48u64) | ((((x >> 40u64) & 0xff) as u8 as u64) << 40u64) | ((((x
        >> 32u64) & 0xff) as u8 as u64) << 32u64) | ((((x >> 24u64) & 0xff) as u8 as u64)
        << 24u64) | ((((x >> 16u64) & 0xff) as u8 as u64) << 16u64) | ((((x >> 8u64)
        & 0xff) as u8 as u64) << 8u64) | (((x >> 0u64) & 0xff) as u8 as u64) == x)
        by (bit_vector);
}

/// Reading four bytes where a value was rendered recovers the value.
proof fn lemma_be32_of_value_at(s: Seq<u8>, off: int, x: u32)
    requires
        0 <= off,
        off + 4 <= s.len(),
        s.subrange(off, off + 4) =~= be32(x),
    ensures
        be32_at(s, off) == x,
{
    assert(s[off] == be32(x)[0]);
    assert(s[off + 1] == be32(x)[1]);
    assert(s[off + 2] == be32(x)[2]);
    assert(s[off + 3] == be32(x)[3]);
    assert(((((x >> 24) & 0xff) as u8 as u32) << 24u32) | ((((x >> 16) & 0xff) as u8 as u32)
        << 16u32) | ((((x >> 8) & 0xff) as u8 as u32) << 8u32) | (((x & 0xff) as u8 as u32)) == x)
        by (bit_vector);
}

/// The local half of signing a raw transaction: decodes the bytes for the
/// chain and computes the 32-byte signing digest. The caller obtains the
/// external signature over the digest and embeds it with `sign`.
pub fn prepare_eth_transaction(raw: &Vec<u8>, chain_id: u64) -> (r: Result<
    (EvmTransaction1559, Vec<u8>),
    WalletError,
>)
    ensures
        spec_decode(raw@) is None ==> r == Err::<(EvmTransaction1559, Vec<u8>), WalletError>(
            WalletError::InvalidTransaction,
        ),
        spec_decode(raw@) matches Some(f) ==> ({
            &&& f.chain_id != chain_id ==> r == Err::<(EvmTransaction1559, Vec<u8>), WalletError>(
                WalletError::InvalidTransaction,
            )
            &&& f.chain_id == chain_id ==> (r matches Ok((t, digest)) && t.wf() && spec_fields(t)
                == f && t.signature is None && digest@ == keccak256_of(raw@) && digest@.len()
                == 32)
        }),
{
    let t = match decode_transaction(raw, chain_id) {
        Ok(t) => t,
        Err(e) => {
            return Err(e);
        },
    };
    let digest = t.signing_digest();
    Ok((t, digest))
}

} // verus!
