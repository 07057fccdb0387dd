use utxo_node::block::Block;
use utxo_node::blockchain::{Blockchain, CHECK_KEY, CHECK_VALUE, GENESIS_COINBASE_DATA, TIP_KEY};
use utxo_node::cli::CLI;
use utxo_node::error::Error;
use utxo_node::proofofwork::ProofOfWork;
use utxo_node::store::{copy_store, Store, StoreValue};
use utxo_node::table::Table;
use utxo_node::transaction::{TXInput, TXOutput, TXOutputs, Transaction};
use utxo_node::unspent::unspent_outputs;
use utxo_node::utxo_set::UTXOSet;
use utxo_node::wallet::Wallet;
use utxo_node::wallets::Wallets;

struct Node {
    wallets: Wallets,
    bc: Blockchain,
    utxo: UTXOSet,
    a: String,
    b: String,
}

fn node() -> Node {
    let mut wallets = Wallets::new(Table::new());
    let a = wallets.create_wallet().unwrap();
    let b = wallets.create_wallet().unwrap();
    let (bc, utxo) = CLI::create_blockchain(Table::new(), &a).unwrap();
    Node { wallets, bc, utxo, a, b }
}

fn balance(node: &Node, address: &str) -> i32 {
    CLI::get_balance(&node.utxo, address).unwrap()
}

fn key_hash(address: &str) -> Vec<u8> {
    utxo_node::wallet::key_hash_of_address(address).unwrap()
}

fn snapshot(store: &Store) -> Vec<(String, Vec<u8>)> {
    let mut entries: Vec<(String, Vec<u8>)> = store
        .keys_vec()
        .into_iter()
        .map(|k| {
            let v = match store.get(&k).unwrap() {
                StoreValue::Bytes(b) => b.clone(),
                StoreValue::Text(t) => t.as_bytes().to_vec(),
            };
            (k, v)
        })
        .collect();
    entries.sort();
    entries
}

fn reindexed(bc: &Blockchain) -> UTXOSet {
    let mut fresh = UTXOSet::new(Table::new());
    fresh.reindex(bc).unwrap();
    fresh
}

#[test]
fn genesis_and_balance() {
    let node = node();
    assert_eq!(balance(&node, &node.a), 10);
    assert_eq!(balance(&node, &node.b), 0);
    assert_eq!(node.bc.get_best_height(), Ok(0));
    assert_eq!(node.utxo.count_transactions(), 1);
}

#[test]
fn genesis_block_carries_the_times_headline() {
    let node = node();
    let blocks = node.bc.blocks().unwrap();
    assert_eq!(blocks.len(), 1);
    let genesis = &blocks[0];
    assert_eq!(genesis.prev_block_hash(), "");
    assert_eq!(genesis.height(), 0);
    assert_eq!(genesis.transactions().len(), 1);
    let coinbase = &genesis.transactions()[0];
    assert!(coinbase.is_coinbase());
    assert_eq!(
        coinbase.v_in()[0].pub_key(),
        b"The Times 03/Jan/2009 Chancellor on brink of second bailout for banks"
    );
    assert_eq!(GENESIS_COINBASE_DATA.as_bytes(), coinbase.v_in()[0].pub_key());
    assert_eq!(coinbase.v_out()[0].pub_key_hash(), &key_hash(&node.a)[..]);
}

#[test]
fn store_of_a_new_chain_holds_sentinel_block_and_tip() {
    let node = node();
    let store = node.bc.store();
    assert_eq!(store.len(), 3);
    assert!(matches!(store.get(CHECK_KEY), Some(StoreValue::Text(t)) if t == CHECK_VALUE));
    let tip = match store.get(TIP_KEY) {
        Some(StoreValue::Text(t)) => t.clone(),
        _ => panic!("no tip"),
    };
    let genesis = node.bc.get_block(&tip).unwrap();
    assert_eq!(genesis.hash(), tip);
    assert!(matches!(store.get(&tip), Some(StoreValue::Bytes(b)) if b == &genesis.serialize()));
    assert_eq!(TIP_KEY, "l");
    assert_eq!(CHECK_KEY, "check_key");
    assert_eq!(CHECK_VALUE, "check_value");
}

#[test]
fn send_and_change() {
    let mut node = node();
    let (a, b) = (node.a.clone(), node.b.clone());
    let block = CLI::send(&node.wallets, &mut node.bc, &mut node.utxo, &a, &b, 3).unwrap();
    assert_eq!(balance(&node, &a), 17);
    assert_eq!(balance(&node, &b), 3);
    assert_eq!(block.height(), 1);
    assert_eq!(block.transactions().len(), 2);
    assert!(block.transactions()[0].is_coinbase());
    let payment = &block.transactions()[1];
    assert_eq!(payment.v_in().len(), 1);
    assert_eq!(payment.v_in()[0].v_out(), 0);
    assert_eq!(payment.v_out().len(), 2);
    assert_eq!(payment.v_out()[0].value(), 3);
    assert_eq!(payment.v_out()[0].pub_key_hash(), &key_hash(&b)[..]);
    assert_eq!(payment.v_out()[1].value(), 7);
    assert_eq!(payment.v_out()[1].pub_key_hash(), &key_hash(&a)[..]);
    assert_eq!(node.bc.verify_transaction(payment), Ok(true));
}

#[test]
fn payment_of_the_whole_amount_has_no_change() {
    let mut node = node();
    let (a, b) = (node.a.clone(), node.b.clone());
    let block = CLI::send(&node.wallets, &mut node.bc, &mut node.utxo, &a, &b, 10).unwrap();
    assert_eq!(block.transactions()[1].v_out().len(), 1);
    assert_eq!(balance(&node, &a), 10);
    assert_eq!(balance(&node, &b), 10);
}

#[test]
fn insufficient_funds() {
    let mut node = node();
    let (a, b) = (node.a.clone(), node.b.clone());
    let before = snapshot(node.bc.store());
    let r = CLI::send(&node.wallets, &mut node.bc, &mut node.utxo, &a, &b, 9999);
    assert!(matches!(r, Err(Error::NotEnoughFunds)));
    let r = CLI::send(&node.wallets, &mut node.bc, &mut node.utxo, &b, &a, 1);
    assert!(matches!(r, Err(Error::NotEnoughFunds)));
    assert_eq!(snapshot(node.bc.store()), before);
    assert_eq!(balance(&node, &a), 10);
}

#[test]
fn send_needs_valid_addresses_and_a_wallet() {
    let mut node = node();
    let (a, b) = (node.a.clone(), node.b.clone());
    let r = CLI::send(&node.wallets, &mut node.bc, &mut node.utxo, "nonsense", &b, 1);
    assert!(matches!(r, Err(Error::InvalidAddress)));
    let r = CLI::send(&node.wallets, &mut node.bc, &mut node.utxo, &a, "nonsense", 1);
    assert!(matches!(r, Err(Error::InvalidAddress)));
    let stranger = Wallet::new().unwrap().get_address();
    let chain = snapshot(node.bc.store());
    let index = snapshot(node.utxo.store());
    let r = CLI::send(&node.wallets, &mut node.bc, &mut node.utxo, &stranger, &b, 1);
    assert!(matches!(r, Err(Error::WalletNotFound)));
    // An address that is not valid is said first, whatever else is wrong.
    let r = CLI::send(&node.wallets, &mut node.bc, &mut node.utxo, &stranger, "nonsense", 9999);
    assert!(matches!(r, Err(Error::InvalidAddress)));
    // A wallet that is missing is said before the funds.
    let r = CLI::send(&node.wallets, &mut node.bc, &mut node.utxo, &stranger, &b, 9999);
    assert!(matches!(r, Err(Error::WalletNotFound)));
    assert_eq!(snapshot(node.bc.store()), chain);
    assert_eq!(snapshot(node.utxo.store()), index);
}

#[test]
fn send_with_an_index_that_cannot_be_read() {
    let mut node = node();
    let (a, b) = (node.a.clone(), node.b.clone());
    let mut store = copy_store(node.utxo.store());
    store.insert("zz".to_string(), StoreValue::Text("oops".to_string()));
    let mut broken = UTXOSet::new(store);
    let chain = snapshot(node.bc.store());
    let index = snapshot(broken.store());
    let r = CLI::send(&node.wallets, &mut node.bc, &mut broken, &a, &b, 11);
    assert!(matches!(r, Err(Error::WrongValueKind)));
    assert_eq!(snapshot(node.bc.store()), chain);
    assert_eq!(snapshot(broken.store()), index);
}

#[test]
fn sent_block_holds_the_reward_and_the_payment() {
    let mut node = node();
    let (a, b) = (node.a.clone(), node.b.clone());
    let tip = node.bc.get_block_hashes().unwrap()[0].clone();
    let block = CLI::send(&node.wallets, &mut node.bc, &mut node.utxo, &a, &b, 4).unwrap();
    assert_eq!(block.prev_block_hash(), tip);
    assert_eq!(block.height(), 1);
    let reward = &block.transactions()[0];
    assert!(reward.is_coinbase());
    assert_eq!(reward.v_out().len(), 1);
    assert_eq!(reward.v_out()[0].value(), 10);
    assert_eq!(reward.v_out()[0].pub_key_hash(), &key_hash(&a)[..]);
    assert_eq!(reward.v_in()[0].pub_key().len(), 30);
    let payment = &block.transactions()[1];
    assert_eq!(payment.v_in().len(), 1);
    assert_eq!(payment.v_in()[0].v_out(), 0);
    assert_eq!(payment.v_in()[0].signature().len(), 64);
    let paid: Vec<(i32, Vec<u8>)> =
        payment.v_out().iter().map(|o| (o.value(), o.pub_key_hash().to_vec())).collect();
    assert_eq!(paid, vec![(4, key_hash(&b)), (6, key_hash(&a))]);
}

#[test]
fn creating_a_chain_says_why_it_is_refused() {
    let node = node();
    let full = copy_store(node.bc.store());
    assert!(matches!(
        CLI::create_blockchain(full, "nonsense"),
        Err(Error::InvalidAddress)
    ));
    let full = copy_store(node.bc.store());
    assert!(matches!(CLI::create_blockchain(full, &node.b), Err(Error::BlockchainExists)));
    let (bc, utxo) = CLI::create_blockchain(Table::new(), &node.b).unwrap();
    let blocks = bc.blocks().unwrap();
    assert_eq!(blocks.len(), 1);
    assert_eq!(bc.get_block_hashes().unwrap(), vec![blocks[0].hash().to_string()]);
    assert_eq!(CLI::get_balance(&utxo, &node.b), Ok(10));
    assert_eq!(CLI::get_balance(&utxo, &node.a), Ok(0));
}

#[test]
fn every_block_read_back_is_mined_and_stored_under_its_hash() {
    let mut node = node();
    let (a, b) = (node.a.clone(), node.b.clone());
    CLI::send(&node.wallets, &mut node.bc, &mut node.utxo, &a, &b, 3).unwrap();
    CLI::send(&node.wallets, &mut node.bc, &mut node.utxo, &b, &a, 2).unwrap();
    let blocks = node.bc.blocks().unwrap();
    assert_eq!(blocks.len(), 3);
    for (i, block) in blocks.iter().enumerate() {
        assert!(ProofOfWork::new(block).validate());
        assert_eq!(node.bc.get_block(block.hash()).unwrap().serialize(), block.serialize());
        if i + 1 < blocks.len() {
            assert_eq!(block.prev_block_hash(), blocks[i + 1].hash());
        } else {
            assert_eq!(block.prev_block_hash(), "");
        }
    }
}

#[test]
fn chain_iteration_is_newest_first() {
    let mut node = node();
    let (a, b) = (node.a.clone(), node.b.clone());
    let second = CLI::send(&node.wallets, &mut node.bc, &mut node.utxo, &a, &b, 3).unwrap();
    let blocks = node.bc.blocks().unwrap();
    assert_eq!(blocks.len(), 2);
    assert_eq!(blocks[0].hash(), second.hash());
    assert_eq!(blocks[0].prev_block_hash(), blocks[1].hash());
    assert_eq!(blocks[1].prev_block_hash(), "");
    assert_eq!(blocks[0].height(), 1);
    assert_eq!(blocks[1].height(), 0);
    for block in &blocks {
        assert!(ProofOfWork::new(block).validate());
    }
    assert_eq!(
        node.bc.get_block_hashes().unwrap(),
        vec![blocks[0].hash().to_string(), blocks[1].hash().to_string()]
    );
    let mut it = node.bc.iter();
    assert_eq!(it.next().unwrap().unwrap().hash(), blocks[0].hash());
    assert_eq!(it.next().unwrap().unwrap().hash(), blocks[1].hash());
    assert!(it.next().unwrap().is_none());
    assert!(it.next().unwrap().is_none());
}

#[test]
fn printed_chain_lists_two_blocks_with_valid_proof_of_work() {
    let mut node = node();
    let (a, b) = (node.a.clone(), node.b.clone());
    CLI::send(&node.wallets, &mut node.bc, &mut node.utxo, &a, &b, 3).unwrap();
    let text = CLI::print_chain(&node.bc).unwrap();
    let blocks = node.bc.blocks().unwrap();
    assert_eq!(text.matches("============ Block ").count(), 2);
    assert_eq!(text.matches("PoW: true\n").count(), 2);
    assert_eq!(text.matches("PoW: false").count(), 0);
    let first = format!("============ Block {} ============\n", blocks[0].hash());
    let second = format!("============ Block {} ============\n", blocks[1].hash());
    assert!(text.starts_with(&first));
    assert!(text.find(&second).unwrap() > 0);
    assert!(text.contains(&format!("Prev. block: {}\n", blocks[1].hash())));
    assert!(text.contains(&blocks[0].transactions()[1].to_string()));
    assert_eq!(text.matches("--- Transaction ").count(), 3);
}

#[test]
fn reindex_twice_leaves_the_same_index() {
    let mut node = node();
    let (a, b) = (node.a.clone(), node.b.clone());
    CLI::send(&node.wallets, &mut node.bc, &mut node.utxo, &a, &b, 3).unwrap();
    assert_eq!(CLI::reindex_utxo(&node.bc, &mut node.utxo), Ok(2));
    let once = snapshot(node.utxo.store());
    assert_eq!(CLI::reindex_utxo(&node.bc, &mut node.utxo), Ok(2));
    assert_eq!(snapshot(node.utxo.store()), once);
}

#[test]
fn updating_block_by_block_gives_what_reindexing_gives() {
    let mut node = node();
    let (a, b) = (node.a.clone(), node.b.clone());
    assert_eq!(snapshot(node.utxo.store()), snapshot(reindexed(&node.bc).store()));
    CLI::send(&node.wallets, &mut node.bc, &mut node.utxo, &a, &b, 3).unwrap();
    assert_eq!(snapshot(node.utxo.store()), snapshot(reindexed(&node.bc).store()));
    CLI::send(&node.wallets, &mut node.bc, &mut node.utxo, &a, &b, 12).unwrap();
    assert_eq!(snapshot(node.utxo.store()), snapshot(reindexed(&node.bc).store()));
    CLI::send(&node.wallets, &mut node.bc, &mut node.utxo, &b, &a, 15).unwrap();
    assert_eq!(snapshot(node.utxo.store()), snapshot(reindexed(&node.bc).store()));
    assert_eq!(balance(&node, &a) + balance(&node, &b), 40);
    assert_eq!(balance(&node, &b), 10);
}

#[test]
fn keys_of_the_index_come_in_the_order_of_reading_or_of_arrival() {
    let mut node = node();
    let (a, b) = (node.a.clone(), node.b.clone());
    let first = CLI::send(&node.wallets, &mut node.bc, &mut node.utxo, &a, &b, 3).unwrap();
    let second = CLI::send(&node.wallets, &mut node.bc, &mut node.utxo, &b, &a, 1).unwrap();
    let ids = |block: &Block| -> Vec<String> {
        block.transactions().iter().map(|t| t.id().to_string()).collect()
    };
    // Brought up to date block by block: the ids in the order in which
    // their transactions arrived.
    let mut arrived = ids(&first);
    arrived.extend(ids(&second));
    assert_eq!(node.utxo.store().keys_vec(), arrived);
    // Rebuilt: the ids in the order in which the chain is read, newest
    // block first.
    let mut read = ids(&second);
    read.extend(ids(&first));
    assert_eq!(reindexed(&node.bc).store().keys_vec(), read);
    assert_eq!(node.bc.find_utxo().unwrap().keys_vec(), read);
}

#[test]
fn listed_outputs_are_not_spent_by_later_blocks() {
    let mut node = node();
    let (a, b) = (node.a.clone(), node.b.clone());
    CLI::send(&node.wallets, &mut node.bc, &mut node.utxo, &a, &b, 3).unwrap();
    CLI::send(&node.wallets, &mut node.bc, &mut node.utxo, &a, &b, 12).unwrap();
    let blocks = node.bc.blocks().unwrap();
    let table = node.bc.find_utxo().unwrap();
    let mut listed = 0;
    for (height, block) in blocks.iter().rev().enumerate() {
        for tx in block.transactions() {
            let spent: Vec<i32> = blocks
                .iter()
                .rev()
                .skip(height + 1)
                .flat_map(|later| later.transactions().iter())
                .filter(|later| !later.is_coinbase())
                .flat_map(|later| later.v_in().iter())
                .filter(|input| input.tx_id() == tx.id())
                .map(|input| input.v_out())
                .collect();
            let live: Vec<(u64, i32, Vec<u8>)> = tx
                .v_out()
                .iter()
                .enumerate()
                .filter(|(i, _)| !spent.contains(&(*i as i32)))
                .map(|(i, o)| (i as u64, o.value(), o.pub_key_hash().to_vec()))
                .collect();
            match table.get(tx.id()) {
                Some(entry) => {
                    let kept: Vec<(u64, i32, Vec<u8>)> = entry
                        .outputs
                        .iter()
                        .map(|o| (o.number, o.output.value(), o.output.pub_key_hash().to_vec()))
                        .collect();
                    assert_eq!(kept, live);
                    listed += kept.len();
                }
                None => assert!(live.is_empty()),
            }
        }
    }
    assert!(listed >= 3);
}

#[test]
fn unspent_outputs_of_an_empty_chain() {
    let table = unspent_outputs(&[]);
    assert_eq!(table.len(), 0);
}

#[test]
fn spendable_outputs_stop_once_the_amount_is_reached() {
    let mut node = node();
    let (a, b) = (node.a.clone(), node.b.clone());
    CLI::send(&node.wallets, &mut node.bc, &mut node.utxo, &a, &b, 3).unwrap();
    let lock = key_hash(&a);
    let (sum, chosen) = node.utxo.find_spendable_outputs(&lock, 1).unwrap();
    assert!(sum == 7 || sum == 10);
    assert_eq!(chosen.len(), 1);
    let (sum, chosen) = node.utxo.find_spendable_outputs(&lock, 17).unwrap();
    assert_eq!(sum, 17);
    assert_eq!(chosen.len(), 2);
    let (sum, chosen) = node.utxo.find_spendable_outputs(&lock, 100).unwrap();
    assert_eq!(sum, 17);
    assert_eq!(chosen.len(), 2);
    let (sum, chosen) = node.utxo.find_spendable_outputs(&lock, 0).unwrap();
    assert_eq!(sum, 0);
    assert_eq!(chosen.len(), 0);
    let (sum, chosen) = node.utxo.find_spendable_outputs(&[1, 2, 3], 5).unwrap();
    assert_eq!(sum, 0);
    assert_eq!(chosen.len(), 0);
    let owned = node.utxo.find_utxo(&lock).unwrap();
    let mut values: Vec<i32> = owned.iter().map(|o| o.value()).collect();
    values.sort();
    assert_eq!(values, vec![7, 10]);
}

#[test]
fn spendable_outputs_are_chosen_in_the_order_of_the_entries() {
    let mut store: Store = Table::new();
    let lock = vec![1u8; 20];
    let other = vec![2u8; 20];
    let first = TXOutputs::new(vec![
        TXOutput::locked_to(5, other.clone()),
        TXOutput::locked_to(2, lock.clone()),
        TXOutput::locked_to(3, lock.clone()),
    ]);
    let second = TXOutputs::new(vec![TXOutput::locked_to(4, lock.clone())]);
    store.insert("t1".to_string(), StoreValue::Bytes(first.serialize()));
    store.insert("t2".to_string(), StoreValue::Bytes(second.serialize()));
    let utxo = UTXOSet::new(store);
    let (sum, chosen) = utxo.find_spendable_outputs(&lock, 4).unwrap();
    assert_eq!(sum, 5);
    assert_eq!(chosen.keys_vec(), vec!["t1".to_string()]);
    assert_eq!(chosen.get("t1"), Some(&vec![1, 2]));
    let (sum, chosen) = utxo.find_spendable_outputs(&lock, 6).unwrap();
    assert_eq!(sum, 9);
    assert_eq!(chosen.get("t1"), Some(&vec![1, 2]));
    assert_eq!(chosen.get("t2"), Some(&vec![0]));
    let (sum, _) = utxo.find_spendable_outputs(&lock, 2).unwrap();
    assert_eq!(sum, 2);
    let owned = utxo.find_utxo(&lock).unwrap();
    assert_eq!(owned.iter().map(|o| o.value()).collect::<Vec<i32>>(), vec![2, 3, 4]);
    assert_eq!(utxo.count_transactions(), 2);
}

#[test]
fn sum_of_chosen_values_must_fit() {
    let mut store: Store = Table::new();
    let lock = vec![1u8; 20];
    let outs = TXOutputs::new(vec![
        TXOutput::locked_to(i32::MAX - 1, lock.clone()),
        TXOutput::locked_to(5, lock.clone()),
    ]);
    store.insert("t1".to_string(), StoreValue::Bytes(outs.serialize()));
    let utxo = UTXOSet::new(store);
    assert!(matches!(
        utxo.find_spendable_outputs(&lock, i32::MAX),
        Err(Error::AmountOverflow)
    ));
    assert!(matches!(utxo.find_spendable_outputs(&lock, 7), Ok((s, _)) if s == i32::MAX - 1));
}

#[test]
fn balance_must_fit() {
    let mut store: Store = Table::new();
    let address = "1HT7xU2Ngenf7D4yocz2SAcnNLW7rK8d4E";
    let lock = key_hash(address);
    let outs = TXOutputs::new(vec![
        TXOutput::locked_to(i32::MAX, lock.clone()),
        TXOutput::locked_to(1, lock.clone()),
        TXOutput::locked_to(-5, lock.clone()),
    ]);
    store.insert("t1".to_string(), StoreValue::Bytes(outs.serialize()));
    let utxo = UTXOSet::new(store);
    assert_eq!(CLI::get_balance(&utxo, address), Err(Error::AmountOverflow));
    assert_eq!(CLI::get_balance(&utxo, "junk"), Err(Error::InvalidAddress));
}

#[test]
fn index_with_unreadable_entries_is_refused() {
    let lock = vec![1u8; 20];
    let mut store: Store = Table::new();
    store.insert("t1".to_string(), StoreValue::Text("oops".to_string()));
    let utxo = UTXOSet::new(store);
    assert!(matches!(utxo.find_utxo(&lock), Err(Error::WrongValueKind)));
    assert!(matches!(utxo.find_spendable_outputs(&lock, 1), Err(Error::WrongValueKind)));
    let mut store: Store = Table::new();
    store.insert("t1".to_string(), StoreValue::Bytes(vec![1, 2, 3]));
    let utxo = UTXOSet::new(store);
    assert!(matches!(utxo.find_utxo(&lock), Err(Error::Malformed)));
    assert!(matches!(utxo.find_spendable_outputs(&lock, 1), Err(Error::Malformed)));
}

#[test]
fn outputs_of_one_transaction_spent_in_two_blocks() {
    let mut node = node();
    let (a, b) = (node.a.clone(), node.b.clone());
    // The payment has two outputs: 3 for `b`, and 7 back to `a`.
    let first = CLI::send(&node.wallets, &mut node.bc, &mut node.utxo, &a, &b, 3).unwrap();
    let payment = first.transactions()[1].clone();
    let id = payment.id().to_string();
    assert_eq!(payment.v_out().iter().map(|o| o.value()).collect::<Vec<i32>>(), vec![3, 7]);
    // `b` spends output 0 in the next block.
    let second = CLI::send(&node.wallets, &mut node.bc, &mut node.utxo, &b, &a, 3).unwrap();
    let spent: Vec<(String, i32)> = second.transactions()[1]
        .v_in()
        .iter()
        .map(|i| (i.tx_id().to_string(), i.v_out()))
        .collect();
    assert_eq!(spent, vec![(id.clone(), 0)]);
    let entry = TXOutputs::deserialize(match node.utxo.store().get(&id).unwrap() {
        StoreValue::Bytes(b) => b.clone(),
        StoreValue::Text(_) => panic!("an entry is bytes"),
    })
    .unwrap();
    assert_eq!(entry.outputs.len(), 1);
    assert_eq!(entry.outputs[0].number, 1);
    assert_eq!(entry.outputs[0].output.value(), 7);
    assert_eq!(snapshot(node.utxo.store()), snapshot(reindexed(&node.bc).store()));
    // `a` spends all it has in the block after that, output 1 with it.
    let all = balance(&node, &a);
    assert_eq!(all, 20);
    let third = CLI::send(&node.wallets, &mut node.bc, &mut node.utxo, &a, &b, all).unwrap();
    let spent: Vec<(String, i32)> = third.transactions()[1]
        .v_in()
        .iter()
        .map(|i| (i.tx_id().to_string(), i.v_out()))
        .collect();
    assert!(spent.contains(&(id.clone(), 1)));
    assert!(!spent.contains(&(id.clone(), 0)));
    assert!(node.utxo.store().get(&id).is_none());
    assert_eq!(snapshot(node.utxo.store()), snapshot(reindexed(&node.bc).store()));
    assert_eq!(balance(&node, &b), 30);
    assert_eq!(balance(&node, &a), 10);
}

#[test]
fn update_removes_the_output_with_the_named_number() {
    let lock = vec![1u8; 20];
    let source = TXOutputs::new(vec![
        TXOutput::locked_to(1, lock.clone()),
        TXOutput::locked_to(2, lock.clone()),
        TXOutput::locked_to(3, lock.clone()),
    ]);
    let mut store: Store = Table::new();
    store.insert("src".to_string(), StoreValue::Bytes(source.serialize()));
    store.insert(
        "one".to_string(),
        StoreValue::Bytes(TXOutputs::new(vec![TXOutput::locked_to(9, lock.clone())]).serialize()),
    );
    let mut utxo = UTXOSet::new(store);
    let spend = Transaction::with_digest(
        vec![
            TXInput::new("src", 0, vec![], vec![]),
            TXInput::new("one", 0, vec![], vec![]),
            TXInput::new("src", 7, vec![], vec![]),
            TXInput::new("src", 0, vec![], vec![]),
        ],
        vec![TXOutput::locked_to(4, lock.clone())],
    );
    let id = spend.id().to_string();
    let block = Block::mine(1, vec![spend], "", 0).unwrap();
    utxo.update(&block).unwrap();
    let left = utxo.find_utxo(&lock).unwrap();
    assert_eq!(left.iter().map(|o| o.value()).collect::<Vec<i32>>(), vec![2, 3, 4]);
    assert_eq!(utxo.store().keys_vec(), vec!["src".to_string(), id.clone()]);
    // The outputs that stay are found again by their numbers.
    let (sum, chosen) = utxo.find_spendable_outputs(&lock, 5).unwrap();
    assert_eq!(sum, 5);
    assert_eq!(chosen.get("src"), Some(&vec![1, 2]));
    let next = Transaction::with_digest(
        vec![TXInput::new("src", 2, vec![], vec![])],
        vec![TXOutput::locked_to(3, lock.clone())],
    );
    let block = Block::mine(2, vec![next], "", 0).unwrap();
    utxo.update(&block).unwrap();
    let (_, chosen) = utxo.find_spendable_outputs(&lock, 2).unwrap();
    assert_eq!(chosen.get("src"), Some(&vec![1]));
}

#[test]
fn update_with_a_missing_entry_changes_nothing() {
    let lock = vec![1u8; 20];
    let mut store: Store = Table::new();
    store.insert(
        "one".to_string(),
        StoreValue::Bytes(TXOutputs::new(vec![TXOutput::locked_to(9, lock.clone())]).serialize()),
    );
    let mut utxo = UTXOSet::new(store);
    let before = snapshot(utxo.store());
    let spend = Transaction::with_digest(
        vec![TXInput::new("one", 0, vec![], vec![]), TXInput::new("gone", 0, vec![], vec![])],
        vec![TXOutput::locked_to(4, lock.clone())],
    );
    let block = Block::mine(1, vec![spend], "", 0).unwrap();
    assert_eq!(utxo.update(&block), Err(Error::EntryNotFound));
    assert_eq!(snapshot(utxo.store()), before);
}

#[test]
fn coinbase_in_a_block_spends_nothing() {
    let lock = vec![1u8; 20];
    let mut utxo = UTXOSet::new(Table::new());
    let coinbase = Transaction::with_digest(
        vec![TXInput::new("", -1, vec![], vec![1])],
        vec![TXOutput::locked_to(10, lock.clone())],
    );
    let id = coinbase.id().to_string();
    let block = Block::mine(1, vec![coinbase], "", 0).unwrap();
    utxo.update(&block).unwrap();
    assert_eq!(utxo.store().keys_vec(), vec![id]);
    assert_eq!(utxo.find_utxo(&lock).unwrap().len(), 1);
}

#[test]
fn name_of_the_index_file() {
    assert_eq!(UTXOSet::get_store_name("3000"), "utxo_set_3000.db");
    assert_eq!(UTXOSet::get_store_name(""), "utxo_set_.db");
}

#[test]
fn opening_a_store_without_a_chain_is_refused() {
    assert!(matches!(Blockchain::new(Table::new()), Err(Error::NoBlockchain)));
    let mut store: Store = Table::new();
    store.insert(CHECK_KEY.to_string(), StoreValue::Text(CHECK_VALUE.to_string()));
    assert!(matches!(Blockchain::new(copy_store(&store)), Err(Error::TipMissing)));
    store.insert(TIP_KEY.to_string(), StoreValue::Bytes(vec![1]));
    assert!(matches!(Blockchain::new(store), Err(Error::WrongValueKind)));
}

#[test]
fn creating_a_chain_twice_is_refused() {
    let node = node();
    let store = copy_store(node.bc.store());
    assert!(matches!(Blockchain::create(store, &node.a), Err(Error::BlockchainExists)));
    assert!(matches!(Blockchain::create(Table::new(), "0OIl"), Err(Error::InvalidAddress)));
    assert!(matches!(Blockchain::create(Table::new(), "11"), Err(Error::InvalidAddress)));
    assert!(matches!(
        CLI::create_blockchain(Table::new(), "nonsense"),
        Err(Error::InvalidAddress)
    ));
}

#[test]
fn reopened_chain_is_the_same_chain() {
    let mut node = node();
    let (a, b) = (node.a.clone(), node.b.clone());
    CLI::send(&node.wallets, &mut node.bc, &mut node.utxo, &a, &b, 3).unwrap();
    let again = Blockchain::new(copy_store(node.bc.store())).unwrap();
    assert_eq!(again.get_block_hashes(), node.bc.get_block_hashes());
    assert_eq!(again.get_best_height(), Ok(1));
}

#[test]
fn block_that_is_not_stored_is_not_found() {
    let node = node();
    assert!(matches!(node.bc.get_block("missing"), Err(Error::BlockNotFound)));
    assert!(matches!(node.bc.get_block(TIP_KEY), Err(Error::WrongValueKind)));
    assert!(matches!(node.bc.find_transaction("missing"), Err(Error::TransactionNotFound)));
}

#[test]
fn transaction_is_found_by_its_id() {
    let mut node = node();
    let (a, b) = (node.a.clone(), node.b.clone());
    let block = CLI::send(&node.wallets, &mut node.bc, &mut node.utxo, &a, &b, 3).unwrap();
    for tx in block.transactions() {
        assert_eq!(node.bc.find_transaction(tx.id()).unwrap().serialize(), tx.serialize());
    }
    let genesis = node.bc.blocks().unwrap().pop().unwrap();
    let coinbase = &genesis.transactions()[0];
    assert_eq!(node.bc.find_transaction(coinbase.id()).unwrap().serialize(), coinbase.serialize());
}

#[test]
fn added_block_becomes_the_tip_whatever_it_is() {
    let mut node = node();
    let stray = Block::mine(
        5,
        vec![Transaction::with_digest(vec![], vec![TXOutput::locked_to(1, vec![])])],
        "nowhere",
        41,
    )
    .unwrap();
    node.bc.add_block(&stray);
    assert_eq!(node.bc.get_best_height(), Ok(41));
    assert_eq!(node.bc.get_block_hashes().unwrap(), vec![stray.hash().to_string()]);
    assert!(matches!(node.bc.store().get(TIP_KEY), Some(StoreValue::Text(t)) if t == stray.hash()));
}

#[test]
fn chain_with_a_corrupt_block_cannot_be_read() {
    let node = node();
    let tip = node.bc.get_block_hashes().unwrap()[0].clone();
    let mut store = copy_store(node.bc.store());
    store.insert(tip.clone(), StoreValue::Bytes(vec![1, 2, 3]));
    let broken = Blockchain::new(store).unwrap();
    assert!(matches!(broken.blocks(), Err(Error::Malformed)));
    assert!(matches!(broken.get_best_height(), Err(Error::Malformed)));
    assert!(matches!(broken.find_utxo(), Err(Error::Malformed)));
    assert!(matches!(broken.find_transaction("x"), Err(Error::Malformed)));
    let mut utxo = UTXOSet::new(Table::new());
    assert!(matches!(utxo.reindex(&broken), Err(Error::Malformed)));
    let mut store = copy_store(node.bc.store());
    store.insert(tip, StoreValue::Text("text".to_string()));
    let broken = Blockchain::new(store).unwrap();
    assert!(matches!(broken.blocks(), Err(Error::WrongValueKind)));
}

#[test]
fn chain_that_links_back_to_itself_is_refused() {
    let mut node = node();
    let tip = node.bc.get_block_hashes().unwrap()[0].clone();
    let looping = Block::mine(
        5,
        vec![Transaction::with_digest(vec![], vec![TXOutput::locked_to(1, vec![])])],
        &tip,
        1,
    )
    .unwrap();
    node.bc.add_block(&looping);
    assert_eq!(node.bc.blocks().unwrap().len(), 2);
    let mut store = copy_store(node.bc.store());
    // Store the second block under the hash of the first as well: the walk
    // then never leaves it.
    store.insert(tip.clone(), StoreValue::Bytes(looping.serialize()));
    let cyclic = Blockchain::new(store).unwrap();
    assert!(matches!(cyclic.blocks(), Err(Error::CyclicChain)));
    assert!(matches!(cyclic.find_transaction("missing"), Err(Error::CyclicChain)));
}

#[test]
fn mining_refuses_a_transaction_that_does_not_verify() {
    let mut node = node();
    let alice = node.wallets.get_wallet(&node.a).unwrap();
    let genesis = node.bc.blocks().unwrap().pop().unwrap();
    let source = genesis.transactions()[0].id().to_string();
    let unsigned = Transaction::with_digest(
        vec![TXInput::new(&source, 0, vec![], alice.public_key())],
        vec![TXOutput::new(10, &node.b).unwrap()],
    );
    let before = snapshot(node.bc.store());
    assert!(matches!(node.bc.mine_block(vec![unsigned]), Err(Error::InvalidTransaction)));
    let orphan = Transaction::with_digest(
        vec![TXInput::new("missing", 0, vec![], alice.public_key())],
        vec![TXOutput::new(10, &node.b).unwrap()],
    );
    assert!(matches!(node.bc.mine_block(vec![orphan]), Err(Error::TransactionNotFound)));
    assert_eq!(snapshot(node.bc.store()), before);
    let mut signed = Transaction::with_digest(
        vec![TXInput::new(&source, 0, vec![], alice.public_key())],
        vec![TXOutput::new(10, &node.b).unwrap()],
    );
    node.bc.sign_transaction(&mut signed, alice.pkcs8_bytes()).unwrap();
    let block = node.bc.mine_block(vec![signed]).unwrap();
    assert_eq!(block.height(), 1);
    assert_eq!(block.prev_block_hash(), genesis.hash());
    assert_eq!(node.bc.get_best_height(), Ok(1));
}

#[test]
fn height_of_the_chain_cannot_pass_the_largest_number() {
    let mut node = node();
    let top = Block::mine(
        5,
        vec![Transaction::with_digest(vec![], vec![TXOutput::locked_to(1, vec![])])],
        "",
        i32::MAX,
    )
    .unwrap();
    node.bc.add_block(&top);
    let coinbase = Transaction::new_coin_base_tx(&node.a, "").unwrap();
    assert!(matches!(node.bc.mine_block(vec![coinbase]), Err(Error::HeightOverflow)));
}

#[test]
fn wallets_are_kept_under_their_addresses() {
    let mut wallets = Wallets::new(Table::new());
    assert!(wallets.get_addresses().is_empty());
    let a = wallets.create_wallet().unwrap();
    let b = wallets.create_wallet().unwrap();
    assert_eq!(wallets.get_addresses(), vec![a.clone(), b.clone()]);
    assert!(Wallet::validate_address(&a));
    let wallet = wallets.get_wallet(&a).unwrap();
    assert_eq!(wallet.get_address(), a);
    assert!(matches!(wallets.store().get(&a), Some(StoreValue::Bytes(d)) if d == &wallet.serialize()));
    assert!(matches!(wallets.get_wallet("unknown"), Err(Error::WalletNotFound)));
    let mut store = copy_store(wallets.store());
    store.insert("text".to_string(), StoreValue::Text("x".to_string()));
    store.insert("junk".to_string(), StoreValue::Bytes(vec![1]));
    let wallets = Wallets::new(store);
    assert!(matches!(wallets.get_wallet("text"), Err(Error::WrongValueKind)));
    assert!(matches!(wallets.get_wallet("junk"), Err(Error::InvalidKey)));
    assert_eq!(wallets.get_wallet(&b).unwrap().get_address(), b);
}
