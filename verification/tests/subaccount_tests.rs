use b3_wallet::subaccount::{EcdsaConfig, Environment, Subaccount};

#[test]
fn test_initial_subaccount() {
    let subaccount = Subaccount(vec![0; 32]);
    assert_eq!(subaccount.environment(), Environment::Production);
    assert_eq!(subaccount.nonce(), 0);
    assert_eq!(subaccount.id(), "default");
}

#[test]
fn subaccount_test_initial_subaccount() {
    let subaccount = Subaccount::default();
    assert_eq!(subaccount.environment(), Environment::Production);
    assert_eq!(subaccount.nonce(), 0);
    assert_eq!(subaccount.name(), "Default");
    assert_eq!(subaccount.id(), "default");

    let owner: Vec<u8> = vec![
        0, 0, 0, 0, 0, 0, 0, 7, 1, 1, 0, 0, 0, 0, 0, 0, 0, 0, 0, 0, 0, 0, 0, 0, 0, 0, 0, 0, 0,
    ];
    let identifier = subaccount.account_identifier(&owner);
    assert_eq!(identifier.to_str().len(), 64);
}

#[test]
fn test_subaccount() {
    let subaccount = Subaccount::new(Environment::Production, 1);
    assert_eq!(subaccount.environment(), Environment::Production);
    assert_eq!(subaccount.nonce(), 1);
    assert_eq!(subaccount.id(), "account_1");

    let subaccount = Subaccount::new(Environment::Staging, 1);
    assert_eq!(subaccount.environment(), Environment::Staging);
    assert_eq!(subaccount.nonce(), 1);
    assert_eq!(subaccount.id(), "staging_account_1");

    let subaccount = Subaccount::new(Environment::Development, 1);
    assert_eq!(subaccount.environment(), Environment::Development);
    assert_eq!(subaccount.nonce(), 1);
    assert_eq!(subaccount.id(), "development_account_1");
}

#[test]
fn subaccount_test_subaccount() {
    let subaccount = Subaccount::new(Environment::Production, 1);
    assert_eq!(subaccount.environment(), Environment::Production);
    assert_eq!(subaccount.nonce(), 1);
    assert_eq!(subaccount.name(), "Account 2");
    assert_eq!(subaccount.id(), "account_1");

    let subaccount = Subaccount::new(Environment::Staging, 1);
    assert_eq!(subaccount.environment(), Environment::Staging);
    assert_eq!(subaccount.nonce(), 1);
    assert_eq!(subaccount.name(), "Staging Account 2");
    assert_eq!(subaccount.id(), "staging_account_1");

    let subaccount = Subaccount::new(Environment::Development, 1);
    assert_eq!(subaccount.environment(), Environment::Development);
    assert_eq!(subaccount.nonce(), 1);
    assert_eq!(subaccount.name(), "Development Account 2");
    assert_eq!(subaccount.id(), "development_account_1");
}

#[test]
fn test_subaccount_derivation_path() {
    let subaccount = Subaccount::new(Environment::Production, 0);
    assert_eq!(subaccount.derivation_path(), vec![vec![0u8; 32]]);
    assert_eq!(subaccount.id(), "default");
    assert_eq!(subaccount.name(), "Default");

    let subaccount = Subaccount::new(Environment::Production, 1);
    assert_eq!(
        subaccount.derivation_path(),
        vec![vec![
            0, 0, 0, 0, 0, 0, 0, 0, 0, 0, 0, 0, 0, 0, 0, 0, 0, 0, 0, 0, 0, 0, 0, 0, 0, 0, 0, 0,
            0, 0, 0, 1,
        ]]
    );
    assert_eq!(subaccount.id(), "account_1");
    assert_eq!(subaccount.name(), "Account 2");

    let subaccount = Subaccount::new(Environment::Production, 255);
    assert_eq!(subaccount.environment(), Environment::Production);
    assert_eq!(
        subaccount.derivation_path(),
        vec![vec![
            0, 0, 0, 0, 0, 0, 0, 0, 0, 0, 0, 0, 0, 0, 0, 0, 0, 0, 0, 0, 0, 0, 0, 0, 0, 0, 0, 0,
            0, 0, 0, 255,
        ]]
    );
    assert_eq!(subaccount.id(), "account_255");
    assert_eq!(subaccount.name(), "Account 256");

    let subaccount = Subaccount::new(Environment::Staging, 512);
    assert_eq!(subaccount.environment(), Environment::Staging);
    assert_eq!(
        subaccount.derivation_path(),
        vec![vec![
            16, 0, 0, 0, 0, 0, 0, 0, 0, 0, 0, 0, 0, 0, 0, 0, 0, 0, 0, 0, 0, 0, 0, 0, 0, 0, 0, 0,
            0, 0, 2, 0,
        ]]
    );
    assert_eq!(subaccount.id(), "staging_account_512");
    assert_eq!(subaccount.name(), "Staging Account 513");

    let subaccount = Subaccount::new(Environment::Development, 1024);
    assert_eq!(subaccount.environment(), Environment::Development);
    assert_eq!(
        subaccount.derivation_path(),
        vec![vec![
            8, 0, 0, 0, 0, 0, 0, 0, 0, 0, 0, 0, 0, 0, 0, 0, 0, 0, 0, 0, 0, 0, 0, 0, 0, 0, 0, 0,
            0, 0, 4, 0,
        ]]
    );
    assert_eq!(subaccount.id(), "development_account_1024");
    assert_eq!(subaccount.name(), "Development Account 1025");
}

#[test]
fn derive_round_trips_large_nonces() {
    for nonce in [0u64, 1, 255, 256, 65536, u64::MAX - 1, u64::MAX] {
        for env in [
            Environment::Production,
            Environment::Staging,
            Environment::Development,
        ] {
            let subaccount = Subaccount::new(env, nonce);
            assert_eq!(subaccount.environment(), env);
            assert_eq!(subaccount.nonce(), nonce);
        }
    }
}

#[test]
fn derive_is_deterministic() {
    let a = Subaccount::new(Environment::Production, 0);
    let b = Subaccount::new(Environment::Production, 0);
    assert_eq!(a.0, b.0);
    assert_eq!(a.0.len(), 32);
}

#[test]
fn key_config_per_environment() {
    let production = Subaccount::new(Environment::Production, 0);
    let (key_id, cycles, path) = production.key_id_with_cycles_and_path();
    assert_eq!(key_id.name, "key_1");
    assert_eq!(cycles, 26_153_846_153);
    assert_eq!(path, vec![vec![0u8; 32]]);

    let staging = Subaccount::new(Environment::Staging, 0);
    assert_eq!(staging.key_id().name, "test_key_1");
    assert_eq!(staging.config(), EcdsaConfig::TestKey1);
    assert_eq!(staging.config().sign_cycles(), 10_000_000_000);

    let development = Subaccount::new(Environment::Development, 0);
    assert_eq!(development.key_id().name, "dfx_test_key");
    assert_eq!(development.config().sign_cycles(), 0);
}

#[test]
fn subaccount_test_subaccount_derivation_path() {
    let subaccount = Subaccount::new(Environment::Production, 0);
    assert_eq!(subaccount.derivation_path(), vec![vec![0u8; 32]]);

    let subaccount = Subaccount::new(Environment::Production, 1);
    assert_eq!(
        subaccount.derivation_path(),
        vec![vec![
            0, 0, 0, 0, 0, 0, 0, 0, 0, 0, 0, 0, 0, 0, 0, 0, 0, 0, 0, 0, 0, 0, 0, 0, 0, 0, 0, 0,
            0, 0, 0, 1,
        ]]
    );

    let subaccount = Subaccount::new(Environment::Production, 256);
    assert_eq!(subaccount.environment(), Environment::Production);
    assert_eq!(
        subaccount.derivation_path(),
        vec![vec![
            0, 0, 0, 0, 0, 0, 0, 0, 0, 0, 0, 0, 0, 0, 0, 0, 0, 0, 0, 0, 0, 0, 0, 0, 0, 0, 0, 0,
            0, 0, 1, 0,
        ]]
    );

    let subaccount = Subaccount::new(Environment::Staging, 512);
    assert_eq!(subaccount.environment(), Environment::Staging);
    assert_eq!(
        subaccount.derivation_path(),
        vec![vec![
            16, 0, 0, 0, 0, 0, 0, 0, 0, 0, 0, 0, 0, 0, 0, 0, 0, 0, 0, 0, 0, 0, 0, 0, 0, 0, 0, 0,
            0, 0, 2, 0,
        ]]
    );

    let subaccount = Subaccount::new(Environment::Development, 1024);
    assert_eq!(subaccount.environment(), Environment::Development);
    assert_eq!(
        subaccount.derivation_path(),
        vec![vec![
            8, 0, 0, 0, 0, 0, 0, 0, 0, 0, 0, 0, 0, 0, 0, 0, 0, 0, 0, 0, 0, 0, 0, 0, 0, 0, 0, 0,
            0, 0, 4, 0,
        ]]
    );
}
