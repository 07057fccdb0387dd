use utxo_node::block::Block;
use utxo_node::digest::sha256_hex_digest;
use utxo_node::proofofwork::{ProofOfWork, MAX_NONCE, TARGET_BYTE, TARGET_LEN};
use utxo_node::text::{str_less, to_hex};
use utxo_node::transaction::{TXInput, TXOutput, Transaction};

const TARGET: &str = "0010000000000000000000000000000000000000000000000000000000000000";

fn sample_tx(tag: u8) -> Transaction {
    Transaction::with_digest(
        vec![TXInput::new("", -1, vec![], vec![tag])],
        vec![TXOutput::locked_to(10, vec![tag; 20])],
    )
}

#[test]
fn constants_of_the_target() {
    assert_eq!(MAX_NONCE, u64::MAX);
    assert_eq!(TARGET_BYTE, 61);
    assert_eq!(TARGET_LEN, 64);
    assert_eq!(TARGET.len(), 64);
    let from_formula: String =
        (0..64).rev().map(|x| if x == TARGET_BYTE { '1' } else { '0' }).collect();
    assert_eq!(from_formula, TARGET);
}

#[test]
fn header_text_is_prev_root_timestamp_target_nonce() {
    let block = Block::mine(1234, vec![sample_tx(1)], "abcd", 1).unwrap();
    let pow = ProofOfWork::new(&block);
    let expected = format!("abcd{}{}{}{}", block.hash_transactions(), 1234, TARGET, 77);
    assert_eq!(pow.prepare_data(77), expected);
}

#[test]
fn root_of_transactions_is_hex_of_the_merkle_root() {
    let a = sample_tx(1);
    let b = sample_tx(2);
    let mut encodings = vec![a.serialize(), b.serialize()];
    let root = utxo_node::merkle_tree::MerkleTree::new(&mut encodings).data();
    let block = Block::mine(1, vec![a, b], "", 0).unwrap();
    assert_eq!(block.hash_transactions(), to_hex(&root));
    assert_eq!(block.hash_transactions().len(), 64);
}

#[test]
fn mined_block_has_a_hash_below_the_target() {
    let block = Block::new(vec![sample_tx(3)], "", 0).unwrap();
    assert!(block.hash() < TARGET);
    assert!(str_less(block.hash(), TARGET));
    assert!(block.hash().starts_with("000"));
    assert_eq!(block.hash().len(), 64);
    assert!(ProofOfWork::new(&block).validate());
}

#[test]
fn hash_of_a_mined_block_is_the_digest_of_its_header() {
    let block = Block::mine(99, vec![sample_tx(4)], "00ff", 3).unwrap();
    let pow = ProofOfWork::new(&block);
    let header = pow.prepare_data(block.nonce());
    assert_eq!(block.hash(), sha256_hex_digest(header.as_bytes()));
}

#[test]
fn mining_finds_the_first_nonce_that_meets_the_target() {
    let block = Block::mine(42, vec![sample_tx(5)], "", 0).unwrap();
    let pow = ProofOfWork::new(&block);
    for nonce in 0..block.nonce() {
        let hash = sha256_hex_digest(pow.prepare_data(nonce).as_bytes());
        assert!(!(hash.as_str() < TARGET), "nonce {} already meets the target", nonce);
    }
    let (nonce, hash) = pow.run().unwrap();
    assert_eq!(nonce, block.nonce());
    assert_eq!(hash, block.hash());
}

#[test]
fn mining_is_determined_by_timestamp_transactions_and_link() {
    let a = Block::mine(7, vec![sample_tx(6)], "p", 1).unwrap();
    let b = Block::mine(7, vec![sample_tx(6)], "p", 5).unwrap();
    assert_eq!(a.nonce(), b.nonce());
    assert_eq!(a.hash(), b.hash());
    let c = Block::mine(8, vec![sample_tx(6)], "p", 1).unwrap();
    assert_ne!(a.hash(), c.hash());
}

#[test]
fn block_keeps_what_it_was_made_of() {
    let block = Block::mine(1_600_000_000, vec![sample_tx(7), sample_tx(8)], "link", 12).unwrap();
    assert_eq!(block.timestamp(), 1_600_000_000);
    assert_eq!(block.prev_block_hash(), "link");
    assert_eq!(block.height(), 12);
    assert_eq!(block.transactions().len(), 2);
    assert_eq!(block.transactions()[1].serialize(), sample_tx(8).serialize());
}

#[test]
fn new_block_is_stamped_with_the_current_time() {
    let before = std::time::SystemTime::now()
        .duration_since(std::time::UNIX_EPOCH)
        .unwrap()
        .as_secs();
    let block = Block::new(vec![sample_tx(9)], "x", 1).unwrap();
    let after = std::time::SystemTime::now()
        .duration_since(std::time::UNIX_EPOCH)
        .unwrap()
        .as_secs();
    assert!(before <= block.timestamp() && block.timestamp() <= after);
}

#[test]
fn genesis_block_has_no_predecessor_and_height_zero() {
    let coinbase = sample_tx(10);
    let bytes = coinbase.serialize();
    let block = Block::new_genesis_block(coinbase).unwrap();
    assert_eq!(block.prev_block_hash(), "");
    assert_eq!(block.height(), 0);
    assert_eq!(block.transactions().len(), 1);
    assert_eq!(block.transactions()[0].serialize(), bytes);
    assert!(ProofOfWork::new(&block).validate());
}

#[test]
fn block_with_a_wrong_nonce_does_not_validate() {
    let block = Block::mine(11, vec![sample_tx(11)], "", 0).unwrap();
    let mut bytes = block.serialize();
    let n = bytes.len();
    // The nonce is the 8 bytes before the 4 bytes of the height.
    let mut wrong = block.nonce();
    loop {
        wrong = wrong.wrapping_add(1);
        let pow = ProofOfWork::new(&block);
        let hash = sha256_hex_digest(pow.prepare_data(wrong).as_bytes());
        if !(hash.as_str() < TARGET) {
            break;
        }
    }
    bytes[n - 12..n - 4].copy_from_slice(&wrong.to_le_bytes());
    let forged = Block::deserialize(bytes).unwrap();
    assert_eq!(forged.nonce(), wrong);
    assert!(!ProofOfWork::new(&forged).validate());
}
