//! The address book: a set-once compressed ECDSA public key, the account
//! identifier, and the per-chain derived addresses.

use vstd::prelude::*;
use vstd::string::StringExecFns;

use crate::chain::{AddressMap, BtcNetwork, ChainKind, ChainKindView};
use crate::encoding::{hex_seq, push_all, sub_bytes, to_hex};
use crate::errors::WalletError;
use crate::hashes::{
    base58_encode, base58_of, decompress_public_key, keccak256, keccak256_of, ripemd160,
    ripemd160_of, sha256, sha256_of, uncompressed_of,
};
use crate::identifier::AccountIdentifier;
use crate::subaccount::{clone_bytes, Subaccount};

verus! {

/// The EVM address derived from a compressed public key: `0x`, then the
/// lowercase hex of the last 20 bytes of the Keccak-256 digest of the
/// uncompressed key's 64 coordinate bytes.
pub open spec fn eth_address_of(key: Seq<u8>) -> Seq<char>
    recommends
        uncompressed_of(key) is Some,
{
    seq!['0', 'x'] + hex_seq(
        keccak256_of((uncompressed_of(key)->Some_0).subrange(1, 65)).subrange(12, 32),
    )
}

/// The version byte prepended to a Bitcoin address payload.
pub open spec fn btc_version_byte(network: BtcNetwork) -> u8 {
    if network == BtcNetwork::Mainnet {
        0x00
    } else {
        0x6f
    }
}

/// The base58check payload of a Bitcoin address: version byte, RIPEMD-160 of
/// the compressed key, and the first four bytes of the double SHA-256
/// checksum.
pub open spec fn btc_payload_of(key: Seq<u8>, network: BtcNetwork) -> Seq<u8> {
    let versioned = seq![btc_version_byte(network)] + ripemd160_of(key);
    versioned + sha256_of(sha256_of(versioned)).subrange(0, 4)
}

/// The Bitcoin address derived from a compressed public key on a network.
pub open spec fn btc_address_of(key: Seq<u8>, network: BtcNetwork) -> Seq<char> {
    base58_of(btc_payload_of(key, network))
}

/// Different version bytes give different address payloads for the same key:
/// the payloads differ in their first byte.
pub proof fn lemma_btc_payload_distinguishes_networks(key: Seq<u8>, n1: BtcNetwork, n2: BtcNetwork)
    requires
        btc_version_byte(n1) != btc_version_byte(n2),
    ensures
        btc_payload_of(key, n1) != btc_payload_of(key, n2),
{
    assert(btc_payload_of(key, n1)[0] == btc_version_byte(n1));
    assert(btc_payload_of(key, n2)[0] == btc_version_byte(n2));
}

/// The set-once public key, the account identifier, and every derived
/// address, keyed by chain kind.
#[derive(Debug)]
pub struct PublicKeys {
    pub ecdsa: Option<Vec<u8>>,
    pub addresses: AddressMap,
    pub identifier: AccountIdentifier,
}

impl PublicKeys {
    /// Well-formed: the identifier holds 32 bytes, the address map has
    /// unique keys, and a set key holds exactly 33 bytes.
    pub open spec fn wf(&self) -> bool {
        &&& self.identifier.wf()
        &&& self.addresses.wf()
        &&& self.ecdsa matches Some(k) ==> k@.len() == 33
    }

    /// Whether a public key has been set.
    pub open spec fn spec_is_ecdsa_set(&self) -> bool {
        self.ecdsa is Some
    }

    /// The bytes of the set public key, if any.
    pub open spec fn spec_ecdsa(&self) -> Option<Seq<u8>> {
        match self.ecdsa {
            Some(k) => Some(k@),
            None => None,
        }
    }

    /// The address book of a fresh subaccount under an owner: no key yet,
    /// and one native-ledger address equal to the identifier text.
    pub fn from_subaccount(subaccount: &Subaccount, owner: &Vec<u8>) -> (r: PublicKeys)
        ensures
            r.wf(),
            !r.spec_is_ecdsa_set(),
            r.identifier.0@ == crate::identifier::identifier_seq(owner@, subaccount.0@),
            r.addresses.spec_get(ChainKindView::NativeLedger) == Some(hex_seq(r.identifier.0@)),
            r.addresses.entries@.len() == 1,
    {
        let identifier = AccountIdentifier::new(owner, subaccount);
        let mut addresses = AddressMap::new();
        let text = identifier.to_str();
        addresses.insert(ChainKind::NativeLedger, text);
        PublicKeys { ecdsa: None, addresses, identifier }
    }

    pub fn is_ecdsa_set(&self) -> (r: bool)
        ensures
            r == self.spec_is_ecdsa_set(),
    {
        match &self.ecdsa {
            Some(_) => true,
            None => false,
        }
    }

    /// The set public key, or `MissingPublicKey` when none is set.
    pub fn ecdsa(&self) -> (r: Result<Vec<u8>, WalletError>)
        ensures
            self.spec_is_ecdsa_set() ==> (r matches Ok(k) && Some(k@) == self.spec_ecdsa()),
            !self.spec_is_ecdsa_set() ==> r == Err::<Vec<u8>, WalletError>(
                WalletError::MissingPublicKey,
            ),
    {
        match &self.ecdsa {
            Some(k) => Ok(clone_bytes(k)),
            None => Err(WalletError::MissingPublicKey),
        }
    }

    /// A copy of the account identifier.
    pub fn identifier(&self) -> (r: AccountIdentifier)
        ensures
            r.0@ == self.identifier.0@,
    {
        AccountIdentifier(clone_bytes(&self.identifier.0))
    }

    /// A copy of the address map.
    pub fn addresses(&self) -> (r: AddressMap)
        requires
            self.wf(),
        ensures
            r.wf(),
            forall|k: ChainKindView| r.spec_get(k) == self.addresses.spec_get(k),
            r.entries@.len() == self.addresses.entries@.len(),
    {
        self.addresses.dup()
    }

    /// Sets the public key, exactly once: fails with `AlreadySet` when a key
    /// is present and `InvalidKeyLength` when the key is not 33 bytes; on
    /// success eagerly derives the default EVM and Bitcoin mainnet addresses
    /// and returns the full address map. A key that decodes to no curve
    /// point fails with `GenerateError` and leaves no partial state: the
    /// book is unchanged and the key stays unset.
    pub fn set_ecdsa(&mut self, ecdsa: Vec<u8>) -> (r: Result<AddressMap, WalletError>)
        requires
            old(self).wf(),
        ensures
            final(self).wf(),
            final(self).identifier == old(self).identifier,
            old(self).spec_is_ecdsa_set() ==> r == Err::<AddressMap, WalletError>(
                WalletError::AlreadySet,
            ) && *final(self) == *old(self),
            !old(self).spec_is_ecdsa_set() && ecdsa@.len() != 33 ==> r == Err::<
                AddressMap,
                WalletError,
            >(WalletError::InvalidKeyLength) && *final(self) == *old(self),
            !old(self).spec_is_ecdsa_set() && ecdsa@.len() == 33 ==> {
                if uncompressed_of(ecdsa@) is Some {
                    &&& final(self).spec_ecdsa() == Some(ecdsa@)
                    &&& final(self).addresses.spec_get(ChainKindView::Evm(0)) == Some(
                        eth_address_of(ecdsa@),
                    )
                    &&& final(self).addresses.spec_get(
                        ChainKindView::Bitcoin(BtcNetwork::Mainnet),
                    ) == Some(btc_address_of(ecdsa@, BtcNetwork::Mainnet))
                    &&& forall|x: ChainKindView|
                        x != ChainKindView::Evm(0) && x != ChainKindView::Bitcoin(
                            BtcNetwork::Mainnet,
                        ) ==> final(self).addresses.spec_get(x) == old(self).addresses.spec_get(x)
                    &&& r matches Ok(m) && m.wf() && forall|k: ChainKindView|
                        m.spec_get(k) == final(self).addresses.spec_get(k)
                } else {
                    r == Err::<AddressMap, WalletError>(WalletError::GenerateError) && *final(self)
                        == *old(self)
                }
            },
    {
        if self.is_ecdsa_set() {
            return Err(WalletError::AlreadySet);
        }
        if ecdsa.len() != 33 {
            return Err(WalletError::InvalidKeyLength);
        }
        self.ecdsa = Some(ecdsa);
        match self.generate_eth_address(0) {
            Ok(_) => {},
            Err(e) => {
                self.ecdsa = None;
                proof {
                    assert(*self == *old(self));
                }
                return Err(e);
            },
        }
        match self.generate_btc_address(BtcNetwork::Mainnet) {
            Ok(_) => {},
            Err(e) => {
                return Err(e);
            },
        }
        Ok(self.addresses())
    }

    /// Derives and stores the EVM address for a chain id. The chain id
    /// selects the map entry only; the address depends on the key alone.
    pub fn generate_eth_address(&mut self, chain: u64) -> (r: Result<String, WalletError>)
        requires
            old(self).wf(),
        ensures
            final(self).wf(),
            final(self).identifier == old(self).identifier,
            final(self).ecdsa == old(self).ecdsa,
            !old(self).spec_is_ecdsa_set() ==> r == Err::<String, WalletError>(
                WalletError::MissingPublicKey,
            ) && *final(self) == *old(self),
            old(self).spec_is_ecdsa_set() ==> {
                let key = old(self).spec_ecdsa()->Some_0;
                if uncompressed_of(key) is Some {
                    &&& r matches Ok(a) && a@ == eth_address_of(key) && a@.len() == 42 && a@[0]
                        == '0' && a@[1] == 'x' && crate::encoding::valid_hex_text(
                        a@.subrange(2, 42),
                    )
                    &&& final(self).addresses.spec_get(ChainKindView::Evm(chain)) == Some(
                        eth_address_of(key),
                    )
                    &&& forall|x: ChainKindView|
                        x != ChainKindView::Evm(chain) ==> final(self).addresses.spec_get(x) == old(self).addresses.spec_get(x)
                } else {
                    r == Err::<String, WalletError>(WalletError::GenerateError) && *final(self)
                        == *old(self)
                }
            },
    {
        let key = match &self.ecdsa {
            Some(k) => clone_bytes(k),
            None => {
                return Err(WalletError::MissingPublicKey);
            },
        };
        let uncompressed = match decompress_public_key(&key) {
            Some(u) => u,
            None => {
                return Err(WalletError::GenerateError);
            },
        };
        proof {
            assert(uncompressed.deep_view() =~= uncompressed@);
            assert(uncompressed_of(key@) == Some(uncompressed@));
        }
        let coords = sub_bytes(&uncompressed, 1, 65);
        let digest = keccak256(&coords);
        let tail = sub_bytes(&digest, 12, 32);
        let hex_tail = to_hex(&tail);
        let mut address = "0x".to_owned();
        address.append(hex_tail.as_str());
        proof {
            reveal_strlit("0x");
            assert("0x"@ =~= seq!['0', 'x']);
            assert(address@ =~= eth_address_of(key@));
            crate::encoding::lemma_hex_round_trip(tail@);
            assert(address@.subrange(2, 42) =~= hex_seq(tail@));
        }
        self.addresses.insert(ChainKind::Evm(chain), address.clone());
        Ok(address)
    }

    /// Derives and stores the Bitcoin address for a network: RIPEMD-160 of
    /// the compressed key under a network version byte, base58check encoded.
    pub fn generate_btc_address(&mut self, bitcoin_network: BtcNetwork) -> (r: Result<
        String,
        WalletError,
    >)
        requires
            old(self).wf(),
        ensures
            final(self).wf(),
            final(self).identifier == old(self).identifier,
            final(self).ecdsa == old(self).ecdsa,
            !old(self).spec_is_ecdsa_set() ==> r == Err::<String, WalletError>(
                WalletError::MissingPublicKey,
            ) && *final(self) == *old(self),
            old(self).spec_is_ecdsa_set() ==> {
                let key = old(self).spec_ecdsa()->Some_0;
                &&& r matches Ok(a) && a@ == btc_address_of(key, bitcoin_network)
                &&& final(self).addresses.spec_get(ChainKindView::Bitcoin(bitcoin_network))
                    == Some(btc_address_of(key, bitcoin_network))
                &&& forall|x: ChainKindView|
                    x != ChainKindView::Bitcoin(bitcoin_network) ==> final(self).addresses.spec_get(x) == old(self).addresses.spec_get(x)
            },
    {
        let key = match &self.ecdsa {
            Some(k) => clone_bytes(k),
            None => {
                return Err(WalletError::MissingPublicKey);
            },
        };
        let digest = ripemd160(&key);
        let prefix: u8 = match bitcoin_network {
            BtcNetwork::Mainnet => 0x00,
            _ => 0x6f,
        };
        let mut versioned: Vec<u8> = Vec::new();
        versioned.push(prefix);
        push_all(&mut versioned, &digest);
        proof {
            assert(versioned@ =~= seq![btc_version_byte(bitcoin_network)] + ripemd160_of(key@));
        }
        let checksum_full = sha256(&sha256(&versioned));
        let checksum = sub_bytes(&checksum_full, 0, 4);
        let mut payload = versioned;
        push_all(&mut payload, &checksum);
        proof {
            assert(payload@ =~= btc_payload_of(key@, bitcoin_network));
        }
        let address = base58_encode(&payload);
        self.addresses.insert(ChainKind::Bitcoin(bitcoin_network), address.clone());
        Ok(address)
    }

    /// Stores the identifier text as the address of a named token ledger.
    pub fn generate_sns_address(&mut self, token: String) -> (r: Result<String, WalletError>)
        requires
            old(self).wf(),
        ensures
            final(self).wf(),
            final(self).identifier == old(self).identifier,
            final(self).ecdsa == old(self).ecdsa,
            r matches Ok(a) && a@ == hex_seq(old(self).identifier.0@),
            final(self).addresses.spec_get(ChainKindView::NamedToken(token@)) == Some(
                hex_seq(old(self).identifier.0@),
            ),
            forall|x: ChainKindView|
                x != ChainKindView::NamedToken(token@) ==> final(self).addresses.spec_get(x) == old(self).addresses.spec_get(x),
    {
        let address = self.identifier.to_str();
        self.addresses.insert(ChainKind::NamedToken(token), address.clone());
        Ok(address)
    }

    /// Derives and stores the address for a chain kind: identifier text for
    /// ledger-style kinds, key-derived addresses for Bitcoin and EVM kinds.
    pub fn generate_address(&mut self, network: ChainKind) -> (r: Result<String, WalletError>)
        requires
            old(self).wf(),
        ensures
            final(self).wf(),
            final(self).identifier == old(self).identifier,
            final(self).ecdsa == old(self).ecdsa,
            network@ is Evm ==> (!old(self).spec_is_ecdsa_set() ==> r == Err::<
                String,
                WalletError,
            >(WalletError::MissingPublicKey) && *final(self) == *old(self)) && (old(self).spec_is_ecdsa_set() ==> {
                let key = old(self).spec_ecdsa()->Some_0;
                if uncompressed_of(key) is Some {
                    &&& r matches Ok(a) && a@ == eth_address_of(key)
                    &&& final(self).addresses.spec_get(network@) == Some(eth_address_of(key))
                    &&& forall|x: ChainKindView|
                        x != network@ ==> final(self).addresses.spec_get(x) == old(self).addresses.spec_get(x)
                } else {
                    r == Err::<String, WalletError>(WalletError::GenerateError) && *final(self)
                        == *old(self)
                }
            }),
            network@ is Bitcoin ==> (old(self).spec_is_ecdsa_set() ==> {
                let key = old(self).spec_ecdsa()->Some_0;
                &&& r matches Ok(a) && a@ == btc_address_of(key, network@->Bitcoin_0)
                &&& final(self).addresses.spec_get(network@) == Some(
                    btc_address_of(key, network@->Bitcoin_0),
                )
            }) && (!old(self).spec_is_ecdsa_set() ==> r == Err::<String, WalletError>(
                WalletError::MissingPublicKey,
            ) && *final(self) == *old(self)),
            network@ is NativeLedger ==> ({
                &&& r matches Ok(a) && a@ == hex_seq(old(self).identifier.0@)
                &&& *final(self) == *old(self)
            }),
            (network@ is NamedToken || network@ is GenericToken || network@ is WrappedBitcoin)
                ==> ({
                &&& r matches Ok(a) && a@ == hex_seq(old(self).identifier.0@)
                &&& final(self).addresses.spec_get(network@) == Some(
                    hex_seq(old(self).identifier.0@),
                )
                &&& forall|x: ChainKindView|
                    x != network@ ==> final(self).addresses.spec_get(x) == old(
                        self,
                    ).addresses.spec_get(x)
            }),
    {
        match network {
            ChainKind::Evm(chain) => self.generate_eth_address(chain),
            ChainKind::Bitcoin(n) => self.generate_btc_address(n),
            ChainKind::NativeLedger => Ok(self.identifier.to_str()),
            ChainKind::NamedToken(token) => self.generate_sns_address(token),
            ChainKind::GenericToken(id) => {
                let address = self.identifier.to_str();
                self.addresses.insert(ChainKind::GenericToken(id), address.clone());
                Ok(address)
            },
            ChainKind::WrappedBitcoin(n) => {
                let address = self.identifier.to_str();
                self.addresses.insert(ChainKind::WrappedBitcoin(n), address.clone());
                Ok(address)
            },
        }
    }

}

} // verus!
