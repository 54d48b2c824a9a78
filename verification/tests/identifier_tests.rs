use b3_wallet::errors::WalletError;
use b3_wallet::identifier::AccountIdentifier;
use b3_wallet::subaccount::{Environment, Subaccount};
use sha2::Digest;

fn expected_identifier(owner: &[u8], subaccount: &[u8]) -> Vec<u8> {
    let mut hasher = sha2::Sha224::new();
    hasher.update(b"\x0Aaccount-id");
    hasher.update(owner);
    hasher.update(subaccount);
    let digest = hasher.finalize();

    let mut crc = crc32fast::Hasher::new();
    crc.update(&digest);
    let checksum = crc.finalize().to_be_bytes();

    let mut out = checksum.to_vec();
    out.extend_from_slice(&digest);
    out
}

#[test]
fn identifier_matches_domain_separated_hash() {
    let owner: Vec<u8> = vec![0, 0, 0, 0, 0, 0, 0, 7, 1, 1];
    let subaccount = Subaccount::new(Environment::Production, 0);
    let id = AccountIdentifier::new(&owner, &subaccount);
    assert_eq!(id.0, expected_identifier(&owner, &subaccount.0));
    assert_eq!(id.0.len(), 32);
}

#[test]
fn identifier_depends_on_subaccount() {
    let owner: Vec<u8> = vec![1, 2, 3];
    let a = AccountIdentifier::new(&owner, &Subaccount::new(Environment::Production, 0));
    let b = AccountIdentifier::new(&owner, &Subaccount::new(Environment::Production, 1));
    assert_ne!(a.0, b.0);
}

#[test]
fn text_round_trip() {
    let owner: Vec<u8> = vec![9, 9, 9];
    let id = AccountIdentifier::new(&owner, &Subaccount::new(Environment::Staging, 42));
    let text = id.to_str();
    assert_eq!(text.len(), 64);
    assert!(text.chars().all(|c| c.is_ascii_hexdigit() && !c.is_ascii_uppercase()));
    let back = AccountIdentifier::from_str(&text).unwrap();
    assert_eq!(back.0, id.0);
}

#[test]
fn from_str_rejects_bad_text() {
    // wrong length
    assert_eq!(
        AccountIdentifier::from_str("abcd"),
        Err(WalletError::InvalidAddress)
    );
    // 63 characters
    let short = "0".repeat(63);
    assert_eq!(
        AccountIdentifier::from_str(&short),
        Err(WalletError::InvalidAddress)
    );
    // 65 characters
    let long = "0".repeat(65);
    assert_eq!(
        AccountIdentifier::from_str(&long),
        Err(WalletError::InvalidAddress)
    );
    // uppercase hex is rejected
    let upper = "A".repeat(64);
    assert_eq!(
        AccountIdentifier::from_str(&upper),
        Err(WalletError::InvalidAddress)
    );
    // non-hex character
    let mut bad = "0".repeat(63);
    bad.push('g');
    assert_eq!(
        AccountIdentifier::from_str(&bad),
        Err(WalletError::InvalidAddress)
    );
    // valid lowercase hex of 64 characters parses
    let good = "0123456789abcdef".repeat(4);
    assert!(AccountIdentifier::from_str(&good).is_ok());
}

#[test]
fn default_identifier_is_zero() {
    let id = AccountIdentifier::default();
    assert_eq!(id.0, vec![0u8; 32]);
    assert_eq!(id.to_str(), "0".repeat(64));
}
