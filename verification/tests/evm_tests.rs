use b3_wallet::errors::WalletError;
use b3_wallet::identifier::AccountIdentifier;
use b3_wallet::transfer::NativeTransfer;
use sha2::Digest;
use b3_wallet::evm::{
    create_address_from, decode_transaction, prepare_eth_transaction, EvmDeployContract,
    EvmTransaction1559, SignedTransaction,
};

fn generator_key() -> Vec<u8> {
    let mut key = vec![0x02];
    key.extend_from_slice(&[
        0x79, 0xBE, 0x66, 0x7E, 0xF9, 0xDC, 0xBB, 0xAC, 0x55, 0xA0, 0x62, 0x95, 0xCE, 0x87, 0x0B,
        0x07, 0x02, 0x9B, 0xFC, 0xDB, 0x2D, 0xCE, 0x28, 0xD9, 0x59, 0xF2, 0x81, 0x5B, 0x16, 0xF8,
        0x17, 0x98,
    ]);
    key
}

fn sample_transaction() -> EvmTransaction1559 {
    EvmTransaction1559 {
        chain_id: 5,
        nonce: 7,
        max_priority_fee_per_gas: 2,
        max_fee_per_gas: 30,
        gas_limit: 21000,
        to: vec![0xAA; 20],
        value: 1_000_000,
        data: vec![1, 2, 3],
        signature: None,
    }
}

#[test]
fn encode_decode_round_trip() {
    let tx = sample_transaction();
    let raw = tx.unsigned_encoding();
    let back = decode_transaction(&raw, 5).unwrap();
    assert_eq!(back.chain_id, tx.chain_id);
    assert_eq!(back.nonce, tx.nonce);
    assert_eq!(back.max_priority_fee_per_gas, tx.max_priority_fee_per_gas);
    assert_eq!(back.max_fee_per_gas, tx.max_fee_per_gas);
    assert_eq!(back.gas_limit, tx.gas_limit);
    assert_eq!(back.to, tx.to);
    assert_eq!(back.value, tx.value);
    assert_eq!(back.data, tx.data);
    assert_eq!(back.unsigned_encoding(), raw);
}

#[test]
fn decode_rejects_garbage_and_wrong_chain() {
    assert_eq!(decode_transaction(&vec![], 5).err(), Some(WalletError::InvalidTransaction));
    assert_eq!(
        decode_transaction(&vec![0u8; 60], 5).err(),
        Some(WalletError::InvalidTransaction)
    );
    let raw = sample_transaction().unsigned_encoding();
    // the right chain decodes; another chain is rejected
    assert!(decode_transaction(&raw, 5).is_ok());
    assert_eq!(decode_transaction(&raw, 6).err(), Some(WalletError::InvalidTransaction));
    // a truncated encoding is rejected
    let truncated = raw[..raw.len() - 1].to_vec();
    assert_eq!(decode_transaction(&truncated, 5).err(), Some(WalletError::InvalidTransaction));
}

#[test]
fn sign_embeds_a_recoverable_signature() {
    let mut tx = sample_transaction();
    let digest = tx.signing_digest();
    assert_eq!(digest.len(), 32);

    // sign the digest with secret key 1, whose public key is the generator
    let secret = libsecp256k1::SecretKey::parse(&[
        0, 0, 0, 0, 0, 0, 0, 0, 0, 0, 0, 0, 0, 0, 0, 0, 0, 0, 0, 0, 0, 0, 0, 0, 0, 0, 0, 0, 0, 0,
        0, 1,
    ])
    .unwrap();
    let message = libsecp256k1::Message::parse_slice(&digest).unwrap();
    let (signature, _) = libsecp256k1::sign(&message, &secret);
    let sig_bytes = signature.serialize().to_vec();

    tx.sign(sig_bytes.clone(), generator_key()).unwrap();
    let embedded = tx.signature.as_ref().unwrap();
    assert!(embedded.v < 2);
    assert_eq!(embedded.r, sig_bytes[..32].to_vec());
    assert_eq!(embedded.s, sig_bytes[32..].to_vec());

    let signed = tx.signed_encoding().unwrap();
    let unsigned = tx.unsigned_encoding();
    assert_eq!(signed.len(), unsigned.len() + 65);
    let broadcastable = SignedTransaction::new(signed.clone());
    assert_eq!(broadcastable.data, signed);
}

#[test]
fn sign_rejects_foreign_signatures() {
    let mut tx = sample_transaction();
    // a signature of the wrong length
    assert_eq!(
        tx.sign(vec![0u8; 63], generator_key()),
        Err(WalletError::InvalidSignature)
    );
    // a valid-shape signature that recovers to another key
    let secret = libsecp256k1::SecretKey::parse(&[
        0, 0, 0, 0, 0, 0, 0, 0, 0, 0, 0, 0, 0, 0, 0, 0, 0, 0, 0, 0, 0, 0, 0, 0, 0, 0, 0, 0, 0, 0,
        0, 2,
    ])
    .unwrap();
    let digest = tx.signing_digest();
    let message = libsecp256k1::Message::parse_slice(&digest).unwrap();
    let (signature, _) = libsecp256k1::sign(&message, &secret);
    assert_eq!(
        tx.sign(signature.serialize().to_vec(), generator_key()),
        Err(WalletError::InvalidSignature)
    );
    // an unsigned transaction has no signed encoding
    assert_eq!(tx.signed_encoding(), Err(WalletError::InvalidSignature));
}

#[test]
fn contract_address_is_deterministic() {
    let a = create_address_from(&generator_key(), 3).unwrap();
    let b = create_address_from(&generator_key(), 3).unwrap();
    assert_eq!(a, b);
    assert_eq!(a.len(), 42);
    assert!(a.starts_with("0x"));
    // another nonce yields another address
    let c = create_address_from(&generator_key(), 4).unwrap();
    assert_ne!(a, c);
    // an invalid key is rejected
    assert_eq!(
        create_address_from(&vec![0x05; 33], 3),
        Err(WalletError::GenerateError)
    );
}

#[test]
fn deploy_contract_prepares_a_deployment() {
    let deploy = EvmDeployContract::new(
        "default".to_string(),
        1,
        9,
        vec![0x60, 0x60, 0x60],
        Some(50_000),
        None,
        None,
    );
    assert_eq!(deploy.method_name(), "evm_deploy_contract");
    let (tx, address) = deploy.prepare(&generator_key()).unwrap();
    assert_eq!(tx.chain_id, 1);
    assert_eq!(tx.nonce, 9);
    assert_eq!(tx.gas_limit, 50_000);
    assert_eq!(tx.max_fee_per_gas, 0);
    assert_eq!(tx.max_priority_fee_per_gas, 0);
    assert!(tx.to.is_empty());
    assert_eq!(tx.value, 0);
    assert_eq!(tx.data, vec![0x60, 0x60, 0x60]);
    assert_eq!(address, create_address_from(&generator_key(), 9).unwrap());
}

#[test]
fn prepare_eth_transaction_checks_the_chain() {
    let raw = sample_transaction().unsigned_encoding();
    let (tx, digest) = prepare_eth_transaction(&raw, 5).unwrap();
    assert_eq!(digest.len(), 32);
    assert_eq!(tx.unsigned_encoding(), raw);
    assert_eq!(
        prepare_eth_transaction(&raw, 1).err(),
        Some(WalletError::InvalidTransaction)
    );
}

#[test]
fn native_transfer_digest_is_sha256_of_encoding() {
    let transfer = NativeTransfer {
        to: AccountIdentifier::default(),
        amount: 1_000,
        fee: 10,
        memo: 7,
    };
    let encoding = transfer.encoding();
    assert_eq!(encoding.len(), 1 + 32 + 24);
    assert_eq!(encoding[0], 1);
    let digest = transfer.signing_digest();
    assert_eq!(digest, sha2::Sha256::digest(&encoding).to_vec());
}
