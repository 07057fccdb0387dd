use utxo_node::digest::sha256_hex_digest;
use utxo_node::error::Error;
use utxo_node::transaction::{
    clone_inputs, clone_outputs, find_by_id, position_by_id, TXInput, TXOutput, Transaction,
    SUBSIDY,
};
use utxo_node::wallet::Wallet;

const PAYLOAD_ALPHABET: &str =
    "ABCDEFGHIJKLMNOPQRSTUVWXYZabcdefghijklmnopqrstuvwxyz0123456789)(*&^%$#@!~";

fn funding(wallet: &Wallet, tag: &str) -> Transaction {
    Transaction::coinbase_with_payload(&wallet.get_address(), tag.as_bytes().to_vec()).unwrap()
}

fn spending(wallet: &Wallet, sources: &[&Transaction], to: &Wallet) -> Transaction {
    let inputs = sources
        .iter()
        .map(|s| TXInput::new(s.id(), 0, vec![], wallet.public_key()))
        .collect();
    let outputs = vec![TXOutput::new(4, &to.get_address()).unwrap()];
    Transaction::with_digest(inputs, outputs)
}

#[test]
fn subsidy_is_ten() {
    assert_eq!(SUBSIDY, 10);
}

#[test]
fn coinbase_has_one_empty_input_and_pays_the_subsidy() {
    let wallet = Wallet::new().unwrap();
    let tx = Transaction::new_coin_base_tx(&wallet.get_address(), "reward").unwrap();
    assert!(tx.is_coinbase());
    assert_eq!(tx.v_in().len(), 1);
    assert_eq!(tx.v_in()[0].tx_id(), "");
    assert_eq!(tx.v_in()[0].v_out(), -1);
    assert_eq!(tx.v_in()[0].signature(), &[] as &[u8]);
    assert_eq!(tx.v_in()[0].pub_key(), b"reward");
    assert_eq!(tx.v_out().len(), 1);
    assert_eq!(tx.v_out()[0].value(), 10);
    assert_eq!(tx.v_out()[0].pub_key_hash(), &Wallet::hash_pub_key(&wallet.public_key())[..]);
    assert!(tx.v_out()[0].is_locked_with_key(&Wallet::hash_pub_key(&wallet.public_key())));
    assert!(!tx.v_out()[0].is_locked_with_key(&[0; 20]));
}

#[test]
fn id_is_the_digest_of_the_encoding_with_empty_id() {
    let wallet = Wallet::new().unwrap();
    let tx = Transaction::new_coin_base_tx(&wallet.get_address(), "reward").unwrap();
    let blank = Transaction::from_parts(
        String::new(),
        clone_inputs(tx.v_in()),
        clone_outputs(tx.v_out()),
    );
    assert_eq!(tx.id(), sha256_hex_digest(&blank.serialize()));
    assert_eq!(tx.id().len(), 64);
    assert!(tx.has_own_id());
    let renamed =
        Transaction::from_parts("x".to_string(), clone_inputs(tx.v_in()), clone_outputs(tx.v_out()));
    assert!(!renamed.has_own_id());
}

#[test]
fn coinbase_without_data_gets_thirty_random_characters() {
    let wallet = Wallet::new().unwrap();
    let a = Transaction::new_coin_base_tx(&wallet.get_address(), "").unwrap();
    let b = Transaction::new_coin_base_tx(&wallet.get_address(), "").unwrap();
    for tx in [&a, &b] {
        let payload = tx.v_in()[0].pub_key();
        assert_eq!(payload.len(), 30);
        for byte in payload {
            assert!(PAYLOAD_ALPHABET.as_bytes().contains(byte), "{}", byte);
        }
        assert!(tx.is_coinbase());
        assert!(tx.has_own_id());
    }
    assert_ne!(a.id(), b.id());
}

#[test]
fn coinbase_with_the_same_data_is_the_same() {
    let wallet = Wallet::new().unwrap();
    let a = Transaction::new_coin_base_tx(&wallet.get_address(), "same").unwrap();
    let b = Transaction::coinbase_with_payload(&wallet.get_address(), b"same".to_vec()).unwrap();
    assert_eq!(a.serialize(), b.serialize());
}

#[test]
fn coinbase_to_a_bad_address_is_refused() {
    assert!(matches!(
        Transaction::new_coin_base_tx("not an address", "x"),
        Err(Error::InvalidAddress)
    ));
    assert!(matches!(Transaction::new_coin_base_tx("", ""), Err(Error::InvalidAddress)));
    assert!(matches!(TXOutput::new(1, "0OIl"), Err(Error::InvalidAddress)));
}

#[test]
fn transaction_with_inputs_is_no_coinbase() {
    let tx = Transaction::with_digest(vec![TXInput::new("ab", -1, vec![], vec![])], vec![]);
    assert!(!tx.is_coinbase());
    let tx = Transaction::with_digest(vec![TXInput::new("", 0, vec![], vec![])], vec![]);
    assert!(!tx.is_coinbase());
    let tx = Transaction::with_digest(
        vec![TXInput::new("", -1, vec![], vec![]), TXInput::new("", -1, vec![], vec![])],
        vec![],
    );
    assert!(!tx.is_coinbase());
    let tx = Transaction::with_digest(vec![], vec![]);
    assert!(!tx.is_coinbase());
}

#[test]
fn trimmed_copy_clears_signatures_and_keys() {
    let tx = Transaction::from_parts(
        "id".to_string(),
        vec![TXInput::new("a", 1, vec![1, 2], vec![3]), TXInput::new("b", 2, vec![4], vec![5, 6])],
        vec![TXOutput::locked_to(3, vec![7])],
    );
    let copy = tx.trimmed_copy();
    assert_eq!(copy.id(), "id");
    assert_eq!(copy.v_in().len(), 2);
    for (i, input) in copy.v_in().iter().enumerate() {
        assert_eq!(input.tx_id(), tx.v_in()[i].tx_id());
        assert_eq!(input.v_out(), tx.v_in()[i].v_out());
        assert!(input.signature().is_empty());
        assert!(input.pub_key().is_empty());
    }
    assert_eq!(copy.v_out().len(), 1);
    assert_eq!(copy.v_out()[0].value(), 3);
    assert_eq!(copy.v_out()[0].pub_key_hash(), &[7]);
}

#[test]
fn inputs_can_be_changed_in_place() {
    let mut tx = Transaction::from_parts(
        "id".to_string(),
        vec![TXInput::new("a", 1, vec![], vec![])],
        vec![],
    );
    tx.mut_v_in()[0].set_pub_key(&[1, 2]);
    tx.mut_v_in()[0].set_signature(&[3]);
    assert_eq!(tx.v_in()[0].pub_key(), &[1, 2]);
    assert_eq!(tx.v_in()[0].signature(), &[3]);
    assert_eq!(tx.v_in()[0].tx_id(), "a");
}

#[test]
fn input_uses_the_key_whose_hash_it_matches() {
    let wallet = Wallet::new().unwrap();
    let input = TXInput::new("a", 0, vec![], wallet.public_key());
    assert!(input.uses_key(&Wallet::hash_pub_key(&wallet.public_key())));
    assert!(!input.uses_key(&Wallet::hash_pub_key(b"other")));
    assert!(!input.uses_key(&[]));
}

#[test]
fn lookup_by_id_finds_the_first_match() {
    let a = Transaction::from_parts("a".to_string(), vec![], vec![]);
    let b = Transaction::from_parts("b".to_string(), vec![], vec![TXOutput::locked_to(1, vec![])]);
    let b2 = Transaction::from_parts("b".to_string(), vec![], vec![]);
    let empty = Transaction::from_parts(String::new(), vec![], vec![]);
    let txs = vec![a, b, b2, empty];
    assert_eq!(position_by_id(&txs, "a"), Some(0));
    assert_eq!(position_by_id(&txs, "b"), Some(1));
    assert_eq!(position_by_id(&txs, "c"), None);
    assert_eq!(position_by_id(&txs, ""), Some(3));
    assert_eq!(find_by_id(&txs, "b"), Some(1));
    assert_eq!(find_by_id(&txs, ""), None);
    assert_eq!(find_by_id(&txs, "zz"), None);
}

#[test]
fn signed_transaction_verifies() {
    let alice = Wallet::new().unwrap();
    let bob = Wallet::new().unwrap();
    let first = funding(&alice, "one");
    let second = funding(&alice, "two");
    let mut tx = spending(&alice, &[&first, &second], &bob);
    let id = tx.id().to_string();
    let prev = vec![first, second];
    assert_eq!(tx.verify(&prev), Ok(false));
    assert!(tx.has_own_id());
    tx.sign(alice.pkcs8_bytes(), &prev).unwrap();
    assert_eq!(tx.verify(&prev), Ok(true));
    assert_eq!(tx.id(), id);
    assert!(tx.has_own_id());
    let blank = Transaction::from_parts(
        String::new(),
        clone_inputs(tx.v_in()),
        clone_outputs(tx.v_out()),
    );
    assert_ne!(tx.id(), sha256_hex_digest(&blank.serialize()));
    for input in tx.v_in() {
        assert_eq!(input.signature().len(), 64);
        assert_eq!(input.pub_key(), &alice.public_key()[..]);
    }
    assert_ne!(tx.v_in()[0].signature(), tx.v_in()[1].signature());
}

#[test]
fn signing_twice_gives_transactions_that_both_verify() {
    let alice = Wallet::new().unwrap();
    let bob = Wallet::new().unwrap();
    let first = funding(&alice, "one");
    let mut a = spending(&alice, &[&first], &bob);
    let mut b = spending(&alice, &[&first], &bob);
    let prev = vec![first];
    a.sign(alice.pkcs8_bytes(), &prev).unwrap();
    b.sign(alice.pkcs8_bytes(), &prev).unwrap();
    assert_eq!(a.verify(&prev), Ok(true));
    assert_eq!(b.verify(&prev), Ok(true));
    assert_eq!(a.serialize(), b.serialize());
    a.sign(alice.pkcs8_bytes(), &prev).unwrap();
    assert_eq!(a.verify(&prev), Ok(true));
    assert_eq!(a.serialize(), b.serialize());
}

#[test]
fn signature_covers_the_digest_of_the_trimmed_copy() {
    let alice = Wallet::new().unwrap();
    let bob = Wallet::new().unwrap();
    let first = funding(&alice, "one");
    let mut tx = spending(&alice, &[&first], &bob);
    let lock = first.v_out()[0].pub_key_hash().to_vec();
    let prev = vec![first];
    tx.sign(alice.pkcs8_bytes(), &prev).unwrap();
    let copy = Transaction::from_parts(
        String::new(),
        vec![TXInput::new(tx.v_in()[0].tx_id(), 0, vec![], lock)],
        clone_outputs(tx.v_out()),
    );
    let message = sha256_hex_digest(&copy.serialize());
    let key = ring::signature::UnparsedPublicKey::new(
        &ring::signature::ED25519,
        alice.public_key(),
    );
    assert!(key.verify(message.as_bytes(), tx.v_in()[0].signature()).is_ok());
}

#[test]
fn signature_of_another_key_does_not_verify() {
    let alice = Wallet::new().unwrap();
    let mallory = Wallet::new().unwrap();
    let first = funding(&alice, "one");
    let mut tx = spending(&alice, &[&first], &mallory);
    let prev = vec![first];
    tx.sign(mallory.pkcs8_bytes(), &prev).unwrap();
    assert_eq!(tx.verify(&prev), Ok(false));
}

#[test]
fn changed_transaction_does_not_verify() {
    let alice = Wallet::new().unwrap();
    let bob = Wallet::new().unwrap();
    let first = funding(&alice, "one");
    let mut tx = spending(&alice, &[&first], &bob);
    let prev = vec![first];
    tx.sign(alice.pkcs8_bytes(), &prev).unwrap();
    let more = Transaction::from_parts(
        tx.id().to_string(),
        clone_inputs(tx.v_in()),
        vec![TXOutput::new(5, &bob.get_address()).unwrap()],
    );
    assert_eq!(more.verify(&prev), Ok(false));
    let mut broken = Transaction::from_parts(
        tx.id().to_string(),
        clone_inputs(tx.v_in()),
        clone_outputs(tx.v_out()),
    );
    let mut signature = tx.v_in()[0].signature().to_vec();
    signature[0] ^= 1;
    broken.mut_v_in()[0].set_signature(&signature);
    assert_eq!(broken.verify(&prev), Ok(false));
}

#[test]
fn coinbase_verifies_and_is_left_unsigned() {
    let alice = Wallet::new().unwrap();
    let mut tx = funding(&alice, "one");
    let before = tx.serialize();
    assert_eq!(tx.verify(&[]), Ok(true));
    assert_eq!(tx.sign(alice.pkcs8_bytes(), &[]), Ok(()));
    assert_eq!(tx.serialize(), before);
    assert_eq!(tx.sign(&[1, 2, 3], &[]), Ok(()));
}

#[test]
fn missing_source_transaction_is_an_error() {
    let alice = Wallet::new().unwrap();
    let bob = Wallet::new().unwrap();
    let first = funding(&alice, "one");
    let mut tx = spending(&alice, &[&first], &bob);
    let before = tx.serialize();
    assert_eq!(tx.verify(&[]), Err(Error::TransactionNotFound));
    assert_eq!(tx.sign(alice.pkcs8_bytes(), &[]), Err(Error::TransactionNotFound));
    assert_eq!(tx.serialize(), before);
    let other = vec![funding(&alice, "two")];
    assert_eq!(tx.verify(&other), Err(Error::TransactionNotFound));
}

#[test]
fn source_without_the_named_output_is_an_error() {
    let alice = Wallet::new().unwrap();
    let first = funding(&alice, "one");
    for number in [1, 2, -1, -5, i32::MAX, i32::MIN] {
        let mut tx = Transaction::with_digest(
            vec![TXInput::new(first.id(), number, vec![], alice.public_key())],
            vec![TXOutput::locked_to(1, vec![])],
        );
        let prev = vec![funding(&alice, "one")];
        assert_eq!(tx.verify(&prev), Err(Error::OutputNotFound));
        assert_eq!(tx.sign(alice.pkcs8_bytes(), &prev), Err(Error::OutputNotFound));
    }
}

#[test]
fn bytes_that_are_no_key_do_not_sign() {
    let alice = Wallet::new().unwrap();
    let bob = Wallet::new().unwrap();
    let first = funding(&alice, "one");
    let mut tx = spending(&alice, &[&first], &bob);
    let before = tx.serialize();
    let prev = vec![first];
    assert_eq!(tx.sign(&[1, 2, 3], &prev), Err(Error::InvalidKey));
    assert_eq!(tx.sign(&[], &prev), Err(Error::InvalidKey));
    assert_eq!(tx.serialize(), before);
}

#[test]
fn transaction_as_text() {
    let tx = Transaction::from_parts(
        "abc".to_string(),
        vec![TXInput::new("feed", 2, vec![1, 2], vec![]), TXInput::new("", -1, vec![], vec![255])],
        vec![TXOutput::locked_to(10, vec![7, 8]), TXOutput::locked_to(-3, vec![])],
    );
    let expected = "--- Transaction abc:\n\
                    \x20    Input 0:\n\
                    \x20      TXID:      feed\n\
                    \x20      Out:       2\n\
                    \x20      Signature: [1, 2]\n\
                    \x20      PubKey:    []\n\n\
                    \x20    Input 1:\n\
                    \x20      TXID:      \n\
                    \x20      Out:       -1\n\
                    \x20      Signature: []\n\
                    \x20      PubKey:    [255]\n\n\
                    \x20    Output 0:\n\
                    \x20      Value:  10\n\
                    \x20      Script: [7, 8]\n\n\
                    \x20    Output 1:\n\
                    \x20      Value:  -3\n\
                    \x20      Script: []\n\n";
    assert_eq!(tx.to_string(), expected);
}

#[test]
fn setting_the_id_twice_gives_the_same_id() {
    let wallet = Wallet::new().unwrap();
    let lock = Wallet::hash_pub_key(&wallet.public_key());
    let mut tx = Transaction::from_parts(
        "anything".to_string(),
        vec![TXInput::new("source", 0, vec![], wallet.public_key())],
        vec![TXOutput::locked_to(4, lock)],
    );
    let blank = Transaction::from_parts(
        String::new(),
        clone_inputs(tx.v_in()),
        clone_outputs(tx.v_out()),
    );
    tx.set_id();
    let id = tx.id().to_string();
    assert_eq!(id, sha256_hex_digest(&blank.serialize()));
    assert_eq!(id.len(), 64);
    assert!(id.chars().all(|c| c.is_ascii_digit() || ('a'..='f').contains(&c)));
    assert_eq!(tx.v_in().len(), 1);
    assert_eq!(tx.v_out()[0].value(), 4);
    tx.set_id();
    assert_eq!(tx.id(), id);
}

#[test]
fn public_keys_have_thirty_two_bytes() {
    let wallet = Wallet::new().unwrap();
    assert_eq!(wallet.public_key().len(), 32);
}
