use b3_wallet::chain::{BtcNetwork, ChainKind};
use b3_wallet::errors::WalletError;
use b3_wallet::public_keys::PublicKeys;
use b3_wallet::subaccount::{Environment, Subaccount};
use sha2::Digest;

// The compressed secp256k1 generator point: the public key of secret key 1.
fn generator_key() -> Vec<u8> {
    let mut key = vec![0x02];
    key.extend_from_slice(&[
        0x79, 0xBE, 0x66, 0x7E, 0xF9, 0xDC, 0xBB, 0xAC, 0x55, 0xA0, 0x62, 0x95, 0xCE, 0x87, 0x0B,
        0x07, 0x02, 0x9B, 0xFC, 0xDB, 0x2D, 0xCE, 0x28, 0xD9, 0x59, 0xF2, 0x81, 0x5B, 0x16, 0xF8,
        0x17, 0x98,
    ]);
    key
}

fn fresh_public_keys() -> PublicKeys {
    let owner: Vec<u8> = vec![1, 2, 3, 4];
    let subaccount = Subaccount::new(Environment::Production, 0);
    PublicKeys::from_subaccount(&subaccount, &owner)
}

#[test]
fn set_public_key_rejects_wrong_lengths() {
    let mut pk = fresh_public_keys();
    assert_eq!(pk.set_ecdsa(vec![2u8; 32]).err(), Some(WalletError::InvalidKeyLength));
    assert_eq!(pk.set_ecdsa(vec![2u8; 34]).err(), Some(WalletError::InvalidKeyLength));
    assert!(!pk.is_ecdsa_set());
}

#[test]
fn set_public_key_is_set_once() {
    let mut pk = fresh_public_keys();
    let map = pk.set_ecdsa(generator_key()).unwrap();
    assert!(pk.is_ecdsa_set());
    assert!(map.get(&ChainKind::Evm(0)).is_some());
    assert!(map.get(&ChainKind::Bitcoin(BtcNetwork::Mainnet)).is_some());
    // a second call fails, whatever key it carries
    assert_eq!(pk.set_ecdsa(generator_key()).err(), Some(WalletError::AlreadySet));
    assert_eq!(pk.set_ecdsa(vec![3u8; 33]).err(), Some(WalletError::AlreadySet));
    // the stored key is untouched
    assert_eq!(pk.ecdsa().unwrap(), generator_key());
}

#[test]
fn set_public_key_rejects_invalid_point() {
    let mut pk = fresh_public_keys();
    // 33 bytes that decode to no curve point
    let bogus = vec![0x05; 33];
    assert_eq!(pk.set_ecdsa(bogus).err(), Some(WalletError::GenerateError));
    // the failed call leaves no partial state: the key stays unset and no
    // address was derived
    assert!(!pk.is_ecdsa_set());
    assert!(pk.addresses().get(&ChainKind::Evm(0)).is_none());
    // a valid key still sets afterwards
    assert!(pk.set_ecdsa(generator_key()).is_ok());
    assert!(pk.is_ecdsa_set());
}

#[test]
fn eth_address_of_generator_key() {
    let mut pk = fresh_public_keys();
    pk.set_ecdsa(generator_key()).unwrap();
    let address = pk.generate_eth_address(5).unwrap();
    // the address of secret key 1 is well known
    assert_eq!(address, "0x7e5f4552091a69125d5dfcb7b8c2659029395bdf");
    assert_eq!(address.len(), 42);
    // the chain id selects the map entry, never the address
    let again = pk.generate_eth_address(99).unwrap();
    assert_eq!(address, again);
}

#[test]
fn eth_address_requires_key() {
    let mut pk = fresh_public_keys();
    assert_eq!(pk.generate_eth_address(0), Err(WalletError::MissingPublicKey));
    assert_eq!(
        pk.generate_btc_address(BtcNetwork::Mainnet),
        Err(WalletError::MissingPublicKey)
    );
}

#[test]
fn btc_address_matches_base58check_construction() {
    let mut pk = fresh_public_keys();
    pk.set_ecdsa(generator_key()).unwrap();
    let address = pk.generate_btc_address(BtcNetwork::Mainnet).unwrap();

    let mut hasher = ripemd::Ripemd160::new();
    hasher.update(generator_key());
    let digest = hasher.finalize();
    let mut payload = vec![0x00u8];
    payload.extend_from_slice(&digest);
    let check1 = sha2::Sha256::digest(&payload);
    let check2 = sha2::Sha256::digest(check1);
    payload.extend_from_slice(&check2[..4]);
    let expected = bs58::encode(&payload).into_string();
    assert_eq!(address, expected);
}

#[test]
fn btc_addresses_differ_by_network() {
    let mut pk = fresh_public_keys();
    pk.set_ecdsa(generator_key()).unwrap();
    let mainnet = pk.generate_btc_address(BtcNetwork::Mainnet).unwrap();
    let testnet = pk.generate_btc_address(BtcNetwork::Testnet).unwrap();
    assert_ne!(mainnet, testnet);

    // both decode under base58check with a matching checksum and the
    // network's version byte
    for (address, version) in [(mainnet, 0x00u8), (testnet, 0x6fu8)] {
        let payload = bs58::decode(&address).into_vec().unwrap();
        assert_eq!(payload.len(), 25);
        assert_eq!(payload[0], version);
        let check1 = sha2::Sha256::digest(&payload[..21]);
        let check2 = sha2::Sha256::digest(check1);
        assert_eq!(&payload[21..], &check2[..4]);
    }
}

#[test]
fn ledger_style_addresses_are_identifier_text() {
    let mut pk = fresh_public_keys();
    let identifier_text = pk.identifier().to_str();
    let native = pk.generate_address(ChainKind::NativeLedger).unwrap();
    assert_eq!(native, identifier_text);
    let token = pk
        .generate_address(ChainKind::NamedToken("ckusdc".to_string()))
        .unwrap();
    assert_eq!(token, identifier_text);
    let generic = pk.generate_address(ChainKind::GenericToken(7)).unwrap();
    assert_eq!(generic, identifier_text);
    let wrapped = pk
        .generate_address(ChainKind::WrappedBitcoin(BtcNetwork::Mainnet))
        .unwrap();
    assert_eq!(wrapped, identifier_text);
}
