use b3_wallet::chain::{BtcNetwork, ChainKind};
use b3_wallet::errors::WalletError;
use b3_wallet::ledger::Ledger;
use b3_wallet::subaccount::{Environment, Subaccount};

fn generator_key() -> Vec<u8> {
    let mut key = vec![0x02];
    key.extend_from_slice(&[
        0x79, 0xBE, 0x66, 0x7E, 0xF9, 0xDC, 0xBB, 0xAC, 0x55, 0xA0, 0x62, 0x95, 0xCE, 0x87, 0x0B,
        0x07, 0x02, 0x9B, 0xFC, 0xDB, 0x2D, 0xCE, 0x28, 0xD9, 0x59, 0xF2, 0x81, 0x5B, 0x16, 0xF8,
        0x17, 0x98,
    ]);
    key
}

fn fresh_ledger() -> Ledger {
    let owner: Vec<u8> = vec![1, 2, 3];
    Ledger::new(Subaccount::new(Environment::Production, 0), &owner)
}

#[test]
fn bind_requires_key_for_key_dependent_kinds() {
    let mut ledger = fresh_ledger();
    assert_eq!(
        ledger.bind_chain(&ChainKind::Bitcoin(BtcNetwork::Mainnet)),
        Err(WalletError::MissingPublicKey)
    );
    assert_eq!(
        ledger.bind_chain(&ChainKind::Evm(1)),
        Err(WalletError::MissingPublicKey)
    );
    // ledger-style kinds bind without a key
    assert!(ledger.bind_chain(&ChainKind::NativeLedger).is_ok());
}

#[test]
fn rebinding_preserves_pending_transfers() {
    let mut ledger = fresh_ledger();
    let kind = ChainKind::WrappedBitcoin(BtcNetwork::Mainnet);
    ledger.bind_chain(&kind).unwrap();
    ledger.initiate_receive(&kind, "tx-1".to_string()).unwrap();
    ledger.initiate_receive(&kind, "tx-2".to_string()).unwrap();
    // binding again keeps the in-flight transfers
    ledger.bind_chain(&kind).unwrap();
    let binding = ledger.binding(&kind).unwrap();
    assert_eq!(binding.pending_receive, vec!["tx-1".to_string(), "tx-2".to_string()]);
}

#[test]
fn settle_removes_exactly_the_confirmed_handles() {
    let mut ledger = fresh_ledger();
    let kind = ChainKind::WrappedBitcoin(BtcNetwork::Mainnet);
    ledger.bind_chain(&kind).unwrap();
    ledger.initiate_receive(&kind, "a".to_string()).unwrap();
    ledger.initiate_receive(&kind, "b".to_string()).unwrap();
    ledger.initiate_receive(&kind, "c".to_string()).unwrap();

    let confirmed = vec!["b".to_string(), "zz".to_string()];
    let removed = ledger.settle_receive(&kind, &confirmed).unwrap();
    assert_eq!(removed, vec!["b".to_string()]);

    let binding = ledger.binding(&kind).unwrap();
    assert_eq!(binding.pending_receive, vec!["a".to_string(), "c".to_string()]);
    assert!(binding.pending_send.is_empty());
}

#[test]
fn clearing_an_absent_handle_is_a_noop() {
    let mut ledger = fresh_ledger();
    let kind = ChainKind::NativeLedger;
    ledger.bind_chain(&kind).unwrap();
    ledger.initiate_send(&kind, "s-1".to_string()).unwrap();
    // clearing a handle that is not pending succeeds and changes nothing
    ledger
        .clear_pending_send(&kind, &"missing".to_string())
        .unwrap();
    let binding = ledger.binding(&kind).unwrap();
    assert_eq!(binding.pending_send, vec!["s-1".to_string()]);
    // clearing the pending handle removes it
    ledger.clear_pending_send(&kind, &"s-1".to_string()).unwrap();
    let binding = ledger.binding(&kind).unwrap();
    assert!(binding.pending_send.is_empty());
}

#[test]
fn pending_operations_need_a_binding() {
    let mut ledger = fresh_ledger();
    let kind = ChainKind::Evm(5);
    assert_eq!(
        ledger.initiate_receive(&kind, "x".to_string()),
        Err(WalletError::ChainNotFound)
    );
    assert_eq!(
        ledger.settle_receive(&kind, &vec![]),
        Err(WalletError::ChainNotFound)
    );
    assert_eq!(
        ledger.clear_pending_receive(&kind, &"x".to_string()),
        Err(WalletError::ChainNotFound)
    );
    assert_eq!(ledger.remove_binding(&kind), Err(WalletError::ChainNotFound));
}

#[test]
fn remove_binding_drops_only_that_kind() {
    let mut ledger = fresh_ledger();
    ledger.bind_chain(&ChainKind::NativeLedger).unwrap();
    ledger.bind_chain(&ChainKind::GenericToken(1)).unwrap();
    ledger.remove_binding(&ChainKind::NativeLedger).unwrap();
    assert!(ledger.binding(&ChainKind::NativeLedger).is_none());
    assert!(ledger.binding(&ChainKind::GenericToken(1)).is_some());
}

#[test]
fn end_to_end_key_and_binding_scenario() {
    // deriving the same subaccount twice yields identical bytes
    let a = Subaccount::new(Environment::Production, 0);
    let b = Subaccount::new(Environment::Production, 0);
    assert_eq!(a.0, b.0);

    let owner: Vec<u8> = vec![1, 2, 3];
    let mut ledger = Ledger::new(a, &owner);

    // binding Bitcoin mainnet before a key is set fails
    assert_eq!(
        ledger.bind_chain(&ChainKind::Bitcoin(BtcNetwork::Mainnet)),
        Err(WalletError::MissingPublicKey)
    );

    // setting a valid 33-byte key populates the EVM and Bitcoin entries
    let map = ledger.set_ecdsa_public_key(generator_key()).unwrap();
    let evm_entry = map.get(&ChainKind::Evm(0)).unwrap().clone();
    let btc_entry = map
        .get(&ChainKind::Bitcoin(BtcNetwork::Mainnet))
        .unwrap()
        .clone();
    assert_eq!(evm_entry, "0x7e5f4552091a69125d5dfcb7b8c2659029395bdf");

    // binding Bitcoin mainnet now succeeds with the address book's address
    ledger
        .bind_chain(&ChainKind::Bitcoin(BtcNetwork::Mainnet))
        .unwrap();
    let binding = ledger
        .binding(&ChainKind::Bitcoin(BtcNetwork::Mainnet))
        .unwrap();
    assert_eq!(binding.address, btc_entry);
}

#[test]
fn failed_key_set_leaves_ledger_unchanged() {
    let mut ledger = fresh_ledger();
    // a 33-byte key that decodes to no curve point
    assert_eq!(
        ledger.set_ecdsa_public_key(vec![0x05; 33]).err(),
        Some(WalletError::GenerateError)
    );
    // no partial state: the key stays unset and a valid key still sets
    assert!(!ledger.is_public_key_set());
    assert!(ledger.set_ecdsa_public_key(generator_key()).is_ok());
    assert!(ledger.is_public_key_set());
}
