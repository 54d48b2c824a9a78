use b3_wallet::account::WalletAccount;
use b3_wallet::errors::{SystemError, WalletError};
use b3_wallet::state::WalletState;
use b3_wallet::subaccount::{Environment, Subaccount};
use b3_wallet::system::{Release, SignerCanister, State};
use b3_wallet::types::{TransactionStatus, WalletController};

fn owner() -> Vec<u8> {
    vec![1, 2, 3]
}

#[test]
fn account_lifecycle() {
    let mut state = WalletState::new();
    assert_eq!(state.accounts_len(), 0);

    let subaccount = state.new_subaccount(None);
    assert_eq!(subaccount.nonce(), 0);
    let account = WalletAccount::from_subaccount(subaccount, &owner());
    let id = state.insert_account(account, Some("Main".to_string()));
    assert_eq!(id, "default");
    assert_eq!(state.accounts_len(), 1);
    assert_eq!(state.counters().production, 1);

    // the next production subaccount gets the advanced nonce
    let next = state.new_subaccount(Some(Environment::Production));
    assert_eq!(next.nonce(), 1);

    let renamed = state.rename_account(&id, "Spending".to_string()).unwrap();
    assert_eq!(renamed, "Spending");
    assert_eq!(state.account(&id).unwrap().name(), "Spending");

    state.hide_account(&id).unwrap();
    assert!(state.account(&id).unwrap().hidden);
    state.unhide_account(&id).unwrap();
    assert!(!state.account(&id).unwrap().hidden);

    state.remove_account(&id).unwrap();
    assert_eq!(state.accounts_len(), 0);
    assert_eq!(
        state.remove_account(&id),
        Err(WalletError::AccountNotFound)
    );
    assert_eq!(
        state.rename_account(&"nope".to_string(), "x".to_string()).err(),
        Some(WalletError::AccountNotFound)
    );
}

#[test]
fn restore_rejects_a_stored_id() {
    let mut state = WalletState::new();
    let subaccount = Subaccount::new(Environment::Staging, 3);
    state.restore_account(subaccount, &owner()).unwrap();
    assert!(state.account(&"staging_account_3".to_string()).is_some());
    assert_eq!(
        state.restore_account(Subaccount::new(Environment::Staging, 3), &owner()),
        Err(WalletError::AccountAlreadyExists)
    );
}

#[test]
fn reset_clears_everything() {
    let mut state = WalletState::new();
    let subaccount = state.new_subaccount(Some(Environment::Development));
    let account = WalletAccount::from_subaccount(subaccount, &owner());
    state.insert_account(account, None);
    assert_eq!(state.counters().development, 1);
    state.reset();
    assert_eq!(state.accounts_len(), 0);
    assert_eq!(state.counters().development, 0);
}

#[test]
fn account_metadata_round_trip() {
    let mut account =
        WalletAccount::from_subaccount(Subaccount::new(Environment::Production, 1), &owner());
    account.add_metadata("color".to_string(), "blue".to_string());
    account.update_metadata("color".to_string(), "red".to_string());
    assert_eq!(
        account.metadata().get(&"color".to_string()),
        Some(&"red".to_string())
    );
    account.remove_metadata(&"color".to_string());
    assert_eq!(account.metadata().get(&"color".to_string()), None);
    // removing an absent key stays a no-op
    account.remove_metadata(&"color".to_string());
    assert_eq!(account.environment(), Environment::Production);
    assert_eq!(account.id(), "account_1");
}

#[test]
fn registry_users_and_controllers() {
    let mut registry = State::new();
    let alice: Vec<u8> = vec![10];
    let bob: Vec<u8> = vec![11];

    let signer = registry.init_user(alice.clone()).unwrap();
    assert!(signer.canister_id.is_none());
    assert_eq!(
        registry.init_user(alice.clone()).err(),
        Some(SystemError::UserAlreadyExists)
    );

    // get_or_init returns the registered signer, or registers a seeded one
    let again = registry.get_or_init_user(alice.clone(), Some(vec![99])).unwrap();
    assert!(again.canister_id.is_none());
    let seeded = registry.get_or_init_user(bob.clone(), Some(vec![99])).unwrap();
    assert_eq!(seeded.canister_id, Some(vec![99]));

    assert_eq!(registry.number_of_signers(), 2);
    assert_eq!(registry.user_ids(), vec![alice.clone(), bob.clone()]);
    assert_eq!(registry.signer_canisters().len(), 2);

    registry.remove_user(&alice);
    assert_eq!(registry.number_of_signers(), 1);

    registry.add_user(bob.clone(), SignerCanister::from_canister(vec![7]));
    assert_eq!(registry.number_of_signers(), 1);

    registry.add_controller(vec![1]);
    registry.add_controller(vec![2]);
    registry.add_controller(vec![1]);
    assert_eq!(registry.get_controllers().len(), 3);
    registry.remove_controller(&vec![1]);
    assert_eq!(registry.get_controllers(), vec![vec![2u8]]);
}

#[test]
fn latest_release_is_the_last_added() {
    let mut registry = State::new();
    assert!(matches!(
        registry.latest_release(),
        Err(SystemError::ReleaseNotFound)
    ));
    registry.add_release(Release { version: "0.1.0".to_string() });
    registry.add_release(Release { version: "0.2.0".to_string() });
    assert_eq!(registry.latest_release().unwrap().version, "0.2.0");
}

#[test]
fn shared_value_types() {
    assert_eq!(TransactionStatus::default(), TransactionStatus::Pending);
    let controller = WalletController::new("ops".to_string(), None);
    assert_eq!(controller.name, "ops");
    assert!(controller.metadata.entries.is_empty());
}
