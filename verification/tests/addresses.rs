use utxo_node::error::Error;
use utxo_node::text::to_hex;
use utxo_node::wallet::{key_hash_of_address, Wallet, ADDRESS_CHECKSUM_LEN, VERSION};

const EMPTY_KEY_ADDRESS: &str = "1HT7xU2Ngenf7D4yocz2SAcnNLW7rK8d4E";
const ABC_KEY_ADDRESS: &str = "1J4LoFeFctabK8tMJcPiAjg8sEbvEKfcpE";

#[test]
fn key_hash_is_ripemd160_of_sha256() {
    assert_eq!(
        to_hex(&Wallet::hash_pub_key(b"")),
        "b472a266d0bd89c13706a4132ccfb16f7c3b9fcb"
    );
    assert_eq!(
        to_hex(&Wallet::hash_pub_key(b"abc")),
        "bb1be98c142444d7a56aa3981c3942a978e4dc33"
    );
}

#[test]
fn known_addresses_are_valid_and_name_their_key_hash() {
    assert!(Wallet::validate_address(EMPTY_KEY_ADDRESS));
    assert!(Wallet::validate_address(ABC_KEY_ADDRESS));
    assert_eq!(
        to_hex(&key_hash_of_address(EMPTY_KEY_ADDRESS).unwrap()),
        "b472a266d0bd89c13706a4132ccfb16f7c3b9fcb"
    );
    assert_eq!(
        to_hex(&key_hash_of_address(ABC_KEY_ADDRESS).unwrap()),
        "bb1be98c142444d7a56aa3981c3942a978e4dc33"
    );
}

#[test]
fn address_with_a_changed_character_is_not_valid() {
    assert!(!Wallet::validate_address("1HT7xU2Ngenf7D4yocz2SAcnNLW7rK8d4F"));
    assert!(!Wallet::validate_address("1J4LoFeFctabK8tMJcPiAjg8sEbvEKfcpF"));
}

#[test]
fn text_that_is_not_base58_is_not_an_address() {
    assert!(!Wallet::validate_address("0OIl"));
    assert!(!Wallet::validate_address("not an address"));
    assert_eq!(key_hash_of_address("0OIl"), Err(Error::InvalidAddress));
}

#[test]
fn text_too_short_for_version_and_checksum_is_not_an_address() {
    assert!(!Wallet::validate_address(""));
    assert!(!Wallet::validate_address("1"));
    assert!(!Wallet::validate_address("1111"));
    assert_eq!(key_hash_of_address(""), Err(Error::InvalidAddress));
    assert_eq!(key_hash_of_address("1111"), Err(Error::InvalidAddress));
}

#[test]
fn address_of_a_new_wallet_is_valid() {
    for _ in 0..5 {
        let wallet = Wallet::new().unwrap();
        let address = wallet.get_address();
        assert!(Wallet::validate_address(&address));
        assert_eq!(
            key_hash_of_address(&address).unwrap(),
            Wallet::hash_pub_key(&wallet.public_key())
        );
    }
}

#[test]
fn address_is_version_hash_and_checksum_in_base58() {
    let wallet = Wallet::new().unwrap();
    let decoded = bs58::decode(wallet.get_address()).into_vec().unwrap();
    assert_eq!(decoded.len(), 1 + 20 + ADDRESS_CHECKSUM_LEN);
    assert_eq!(decoded[0], VERSION);
    assert_eq!(&decoded[1..21], &Wallet::hash_pub_key(&wallet.public_key())[..]);
}

#[test]
fn wallet_is_stored_as_its_key_document() {
    let wallet = Wallet::new().unwrap();
    let stored = wallet.serialize();
    assert_eq!(stored, wallet.pkcs8_bytes());
    let again = Wallet::deserialize(stored).unwrap();
    assert_eq!(again.public_key(), wallet.public_key());
    assert_eq!(again.get_address(), wallet.get_address());
    assert_eq!(wallet.public_key().len(), 32);
}

#[test]
fn bytes_that_are_no_key_make_no_wallet() {
    assert!(matches!(Wallet::deserialize(vec![]), Err(Error::InvalidKey)));
    assert!(matches!(Wallet::deserialize(vec![1, 2, 3]), Err(Error::InvalidKey)));
}

#[test]
fn two_new_wallets_differ() {
    let a = Wallet::new().unwrap();
    let b = Wallet::new().unwrap();
    assert_ne!(a.get_address(), b.get_address());
}
