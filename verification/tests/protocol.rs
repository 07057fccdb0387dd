use utxo_node::blockchain::Blockchain;
use utxo_node::cli::CLI;
use utxo_node::error::Error;
use utxo_node::server::{Outgoing, Server, CENTRAL_NODE, NODE_VERSION};
use utxo_node::store::copy_store;
use utxo_node::table::Table;
use utxo_node::transaction::{TXInput, TXOutput, Transaction};
use utxo_node::utxo_set::UTXOSet;
use utxo_node::wallets::Wallets;
use utxo_node::wire::{
    make_request, split_request, BlockWrapper, Command, GetData, Inv, Kind, TxWrapper, Version,
};

struct World {
    wallets: Wallets,
    a: String,
    b: String,
    bc: Blockchain,
    utxo: UTXOSet,
}

fn world() -> World {
    let mut wallets = Wallets::new(Table::new());
    let a = wallets.create_wallet().unwrap();
    let b = wallets.create_wallet().unwrap();
    let (bc, utxo) = CLI::create_blockchain(Table::new(), &a).unwrap();
    World { wallets, a, b, bc, utxo }
}

fn copy_chain(bc: &Blockchain) -> Blockchain {
    Blockchain::new(copy_store(bc.store())).unwrap()
}

fn copy_index(utxo: &UTXOSet) -> UTXOSet {
    UTXOSet::new(copy_store(utxo.store()))
}

fn server(id: &str, miner: &str, w: &World) -> Server {
    Server::new(id, miner, copy_chain(&w.bc), copy_index(&w.utxo))
}

fn parts(message: &Outgoing) -> (Command, Vec<u8>) {
    let (name, payload) = split_request(&message.request).unwrap();
    (Command::parse(&name).unwrap(), payload)
}

fn payment(w: &World, bc: &Blockchain, utxo: &UTXOSet, amount: i32) -> Transaction {
    let wallet = w.wallets.get_wallet(&w.a).unwrap();
    Transaction::new_utxo_tx(&wallet, &w.b, amount, bc, utxo).unwrap()
}

#[test]
fn request_is_command_line_feed_payload() {
    assert_eq!(make_request("version", &[1, 2, 3]), b"version\n\x01\x02\x03".to_vec());
    assert_eq!(make_request("tx", &[]), b"tx\n".to_vec());
    assert_eq!(
        split_request(b"inv\nab\ncd"),
        Some((b"inv".to_vec(), b"ab\ncd".to_vec()))
    );
    assert_eq!(split_request(b"\n"), Some((vec![], vec![])));
    assert_eq!(split_request(b"version"), None);
    assert_eq!(split_request(b""), None);
}

#[test]
fn commands_and_kinds_have_their_names() {
    let commands = [
        (Command::Addr, "addr"),
        (Command::Block, "block"),
        (Command::Inv, "inv"),
        (Command::GetBlocks, "getblocks"),
        (Command::GetData, "getdata"),
        (Command::Tx, "tx"),
        (Command::Version, "version"),
    ];
    for (command, name) in commands {
        assert_eq!(command.name(), name);
        assert_eq!(Command::parse(name.as_bytes()), Some(command));
    }
    assert_eq!(Command::parse(b"ping"), None);
    assert_eq!(Command::parse(b""), None);
    assert_eq!(Command::parse(b"Version"), None);
    assert_eq!(Kind::Block.name(), "block");
    assert_eq!(Kind::Tx.name(), "tx");
    assert_eq!(Kind::parse("block"), Some(Kind::Block));
    assert_eq!(Kind::parse("tx"), Some(Kind::Tx));
    assert_eq!(Kind::parse("blocks"), None);
}

#[test]
fn messages_are_encoded_as_bincode_encodes_them() {
    let version = Version { version: 1, best_height: 7, addr_from: "127.0.0.1:3001".to_string() };
    assert_eq!(
        version.serialize(),
        bincode::serialize(&(1i32, 7i32, "127.0.0.1:3001".to_string())).unwrap()
    );
    let back = Version::deserialize(&version.serialize()).unwrap();
    assert_eq!((back.version, back.best_height, back.addr_from.as_str()), (1, 7, "127.0.0.1:3001"));

    let inv = Inv {
        addr_from: "a".to_string(),
        kind: "block".to_string(),
        items: vec!["h1".to_string(), "h2".to_string()],
    };
    assert_eq!(
        inv.serialize(),
        bincode::serialize(&("a".to_string(), "block".to_string(), vec!["h1", "h2"])).unwrap()
    );
    let back = Inv::deserialize(&inv.serialize()).unwrap();
    assert_eq!(back.items, inv.items);
    assert_eq!(back.kind, "block");

    let get = GetData { addr_from: "a".to_string(), kind: "tx".to_string(), id: "id".to_string() };
    assert_eq!(get.serialize(), bincode::serialize(&("a", "tx", "id")).unwrap());
    let back = GetData::deserialize(&get.serialize()).unwrap();
    assert_eq!((back.addr_from.as_str(), back.kind.as_str(), back.id.as_str()), ("a", "tx", "id"));

    let wrapped = TxWrapper { addr_from: "a".to_string(), tx: vec![1, 2, 3] };
    assert_eq!(wrapped.serialize(), bincode::serialize(&("a", vec![1u8, 2, 3])).unwrap());
    let back = TxWrapper::deserialize(&wrapped.serialize()).unwrap();
    assert_eq!(back.tx, vec![1, 2, 3]);
    let wrapped = BlockWrapper { addr_from: "b".to_string(), block: vec![] };
    let back = BlockWrapper::deserialize(&wrapped.serialize()).unwrap();
    assert_eq!((back.addr_from.as_str(), back.block.len()), ("b", 0));

    assert!(matches!(Version::deserialize(&[1, 2, 3]), Err(Error::Malformed)));
    assert!(matches!(Inv::deserialize(&[]), Err(Error::Malformed)));
    assert!(matches!(GetData::deserialize(&[0; 9]), Err(Error::Malformed)));
    assert!(matches!(TxWrapper::deserialize(&[0; 8]), Err(Error::Malformed)));
}

#[test]
fn new_node_knows_the_central_node() {
    let w = world();
    let node = server("3001", "", &w);
    assert_eq!(CENTRAL_NODE, "127.0.0.1:3000");
    assert_eq!(NODE_VERSION, 1);
    assert_eq!(node.known_nodes(), &vec!["127.0.0.1:3000".to_string()]);
    assert!(node.is_known_node("127.0.0.1:3000"));
    assert!(!node.is_known_node("127.0.0.1:3001"));
}

#[test]
fn node_greets_the_central_node_when_it_starts() {
    let w = world();
    let node = server("3001", "", &w);
    let out = node.start().unwrap();
    assert_eq!(out.len(), 1);
    assert_eq!(out[0].address, "127.0.0.1:3000");
    let (command, payload) = parts(&out[0]);
    assert_eq!(command, Command::Version);
    let version = Version::deserialize(&payload).unwrap();
    assert_eq!(version.version, 1);
    assert_eq!(version.best_height, 0);
    assert_eq!(version.addr_from, "127.0.0.1:3001");
    let central = server("3000", "", &w);
    assert!(central.start().unwrap().is_empty());
}

#[test]
fn greeting_from_a_peer_with_a_higher_chain_asks_for_its_blocks() {
    let w = world();
    let mut node = server("3000", "", &w);
    let greeting =
        Version { version: 1, best_height: 5, addr_from: "127.0.0.1:3002".to_string() };
    let out = node.handle_version(&greeting.serialize()).unwrap();
    assert_eq!(out.len(), 1);
    assert_eq!(out[0].address, "127.0.0.1:3002");
    assert_eq!(out[0].request, b"getblocks\n127.0.0.1:3000".to_vec());
    assert!(node.is_known_node("127.0.0.1:3002"));
    assert_eq!(node.known_nodes().len(), 2);
    node.handle_version(&greeting.serialize()).unwrap();
    assert_eq!(node.known_nodes().len(), 2);
}

#[test]
fn greeting_from_a_peer_that_is_not_higher_is_answered_with_a_greeting() {
    let w = world();
    let mut node = server("3000", "", &w);
    for height in [0, -1] {
        let greeting =
            Version { version: 1, best_height: height, addr_from: "127.0.0.1:3002".to_string() };
        let out = node.handle_version(&greeting.serialize()).unwrap();
        assert_eq!(out.len(), 1);
        let (command, payload) = parts(&out[0]);
        assert_eq!(command, Command::Version);
        let answer = Version::deserialize(&payload).unwrap();
        assert_eq!((answer.version, answer.best_height), (1, 0));
        assert_eq!(answer.addr_from, "127.0.0.1:3000");
    }
}

#[test]
fn list_of_nodes_is_merged_and_all_are_asked_for_blocks() {
    let w = world();
    let mut node = server("3001", "", &w);
    let mut payload = Vec::new();
    utxo_node::wire::put_texts(&mut payload, &["n1".to_string(), "n2".to_string()]);
    let out = node.handle_addr(&payload).unwrap();
    assert_eq!(
        node.known_nodes(),
        &vec!["127.0.0.1:3000".to_string(), "n1".to_string(), "n2".to_string()]
    );
    assert_eq!(out.len(), 3);
    for (message, address) in out.iter().zip(["127.0.0.1:3000", "n1", "n2"]) {
        assert_eq!(message.address, address);
        assert_eq!(message.request, b"getblocks\n127.0.0.1:3001".to_vec());
    }
    let own = node.send_addr("peer");
    let (command, payload) = parts(&own);
    assert_eq!(command, Command::Addr);
    let (listed, _) = utxo_node::wire::get_texts(&payload, 0).unwrap();
    assert_eq!(listed, vec!["127.0.0.1:3000", "n1", "n2", "127.0.0.1:3001"]);
}

#[test]
fn unreachable_peer_leaves_the_known_nodes() {
    let w = world();
    let mut node = server("3001", "", &w);
    let mut payload = Vec::new();
    utxo_node::wire::put_texts(
        &mut payload,
        &["n1".to_string(), "n2".to_string(), "n1".to_string()],
    );
    node.handle_addr(&payload).unwrap();
    node.remove_node("n1");
    assert_eq!(node.known_nodes(), &vec!["127.0.0.1:3000".to_string(), "n2".to_string()]);
    node.remove_node("unknown");
    assert_eq!(node.known_nodes().len(), 2);
}

#[test]
fn inventory_of_blocks_is_pulled_oldest_first() {
    let w = world();
    let mut node = server("3001", "", &w);
    let inv = Inv {
        addr_from: "peer".to_string(),
        kind: "block".to_string(),
        items: vec!["h3".to_string(), "h2".to_string(), "h1".to_string(), "h1".to_string()],
    };
    let out = node.handle_inv(&inv.serialize()).unwrap();
    assert_eq!(out.len(), 1);
    assert_eq!(out[0].address, "peer");
    let (command, payload) = parts(&out[0]);
    assert_eq!(command, Command::GetData);
    let get = GetData::deserialize(&payload).unwrap();
    assert_eq!((get.addr_from.as_str(), get.kind.as_str(), get.id.as_str()), ("127.0.0.1:3001", "block", "h1"));
}

#[test]
fn inventory_that_lists_nothing_or_an_unknown_kind_is_refused() {
    let w = world();
    let mut node = server("3001", "", &w);
    for kind in ["block", "tx"] {
        let inv = Inv { addr_from: "peer".to_string(), kind: kind.to_string(), items: vec![] };
        assert!(matches!(node.handle_inv(&inv.serialize()), Err(Error::Malformed)));
    }
    let inv = Inv {
        addr_from: "peer".to_string(),
        kind: "coin".to_string(),
        items: vec!["x".to_string()],
    };
    assert!(matches!(node.handle_inv(&inv.serialize()), Err(Error::UnknownCommand)));
    assert!(matches!(node.handle_inv(&[1, 2]), Err(Error::Malformed)));
}

#[test]
fn requests_without_a_known_command_are_refused() {
    let w = world();
    let mut node = server("3001", "", &w);
    assert!(matches!(node.handle_connection(b"ping\n"), Err(Error::UnknownCommand)));
    assert!(matches!(node.handle_connection(b"version"), Err(Error::UnknownCommand)));
    assert!(matches!(node.handle_connection(b""), Err(Error::UnknownCommand)));
    assert!(matches!(node.handle_connection(b"version\n\x01"), Err(Error::Malformed)));
    assert!(matches!(node.handle_connection(b"block\n"), Err(Error::Malformed)));
    assert!(matches!(node.handle_connection(b"tx\n"), Err(Error::Malformed)));
}

#[test]
fn request_for_blocks_is_answered_with_the_hashes_of_the_chain() {
    let mut w = world();
    let (a, b) = (w.a.clone(), w.b.clone());
    CLI::send(&w.wallets, &mut w.bc, &mut w.utxo, &a, &b, 3).unwrap();
    let mut node = server("3000", "", &w);
    let out = node.handle_connection(b"getblocks\n127.0.0.1:3005").unwrap();
    assert_eq!(out.len(), 1);
    assert_eq!(out[0].address, "127.0.0.1:3005");
    let (command, payload) = parts(&out[0]);
    assert_eq!(command, Command::Inv);
    let inv = Inv::deserialize(&payload).unwrap();
    assert_eq!(inv.addr_from, "127.0.0.1:3000");
    assert_eq!(inv.kind, "block");
    assert_eq!(inv.items, w.bc.get_block_hashes().unwrap());
    assert_eq!(inv.items.len(), 2);
    let out = node.handle_get_blocks(b"peer\xff").unwrap();
    assert_eq!(out[0].address, "peer\u{fffd}");
}

#[test]
fn requests_for_data_are_served_from_chain_and_pool() {
    let w = world();
    let mut node = server("3000", "", &w);
    let tip = w.bc.get_block_hashes().unwrap()[0].clone();
    let get = GetData { addr_from: "peer".to_string(), kind: "block".to_string(), id: tip.clone() };
    let out = node.handle_get_data(&get.serialize()).unwrap();
    assert_eq!(out.len(), 1);
    assert_eq!(out[0].address, "peer");
    let (command, payload) = parts(&out[0]);
    assert_eq!(command, Command::Block);
    let wrapped = BlockWrapper::deserialize(&payload).unwrap();
    assert_eq!(wrapped.addr_from, "127.0.0.1:3000");
    assert_eq!(wrapped.block, w.bc.get_block(&tip).unwrap().serialize());

    let get = GetData { addr_from: "peer".to_string(), kind: "block".to_string(), id: "none".to_string() };
    assert!(matches!(node.handle_get_data(&get.serialize()), Err(Error::BlockNotFound)));
    let get = GetData { addr_from: "peer".to_string(), kind: "tx".to_string(), id: "none".to_string() };
    assert!(matches!(node.handle_get_data(&get.serialize()), Err(Error::TransactionNotFound)));
    let get = GetData { addr_from: "peer".to_string(), kind: "x".to_string(), id: tip };
    assert!(matches!(node.handle_get_data(&get.serialize()), Err(Error::UnknownCommand)));

    let tx = payment(&w, &w.bc, &w.utxo, 3);
    let wrapped = TxWrapper { addr_from: "peer".to_string(), tx: tx.serialize() };
    node.handle_tx(&wrapped.serialize()).unwrap();
    let get = GetData { addr_from: "peer".to_string(), kind: "tx".to_string(), id: tx.id().to_string() };
    let out = node.handle_get_data(&get.serialize()).unwrap();
    let (command, payload) = parts(&out[0]);
    assert_eq!(command, Command::Tx);
    assert_eq!(TxWrapper::deserialize(&payload).unwrap().tx, tx.serialize());
    let inv = Inv { addr_from: "peer".to_string(), kind: "tx".to_string(), items: vec![tx.id().to_string()] };
    assert!(node.handle_inv(&inv.serialize()).unwrap().is_empty());
    let inv = Inv { addr_from: "peer".to_string(), kind: "tx".to_string(), items: vec!["new".to_string()] };
    let out = node.handle_inv(&inv.serialize()).unwrap();
    let (command, payload) = parts(&out[0]);
    assert_eq!(command, Command::GetData);
    let get = GetData::deserialize(&payload).unwrap();
    assert_eq!((get.kind.as_str(), get.id.as_str()), ("tx", "new"));
}

#[test]
fn central_node_relays_a_transaction_to_the_other_nodes() {
    let w = world();
    let mut node = server("3000", "", &w);
    let mut nodes = Vec::new();
    utxo_node::wire::put_texts(
        &mut nodes,
        &["n1".to_string(), "n2".to_string(), "127.0.0.1:3000".to_string()],
    );
    node.handle_addr(&nodes).unwrap();
    let tx = payment(&w, &w.bc, &w.utxo, 3);
    let wrapped = TxWrapper { addr_from: "n1".to_string(), tx: tx.serialize() };
    let out = node.handle_connection(&make_request("tx", &wrapped.serialize())).unwrap();
    assert_eq!(out.len(), 1);
    assert_eq!(out[0].address, "n2");
    let (command, payload) = parts(&out[0]);
    assert_eq!(command, Command::Inv);
    let inv = Inv::deserialize(&payload).unwrap();
    assert_eq!(inv.addr_from, "127.0.0.1:3000");
    assert_eq!(inv.kind, "tx");
    assert_eq!(inv.items, vec![tx.id().to_string()]);
}

#[test]
fn node_that_does_not_mine_only_keeps_the_transaction() {
    let w = world();
    let mut node = server("3001", "", &w);
    let first = payment(&w, &w.bc, &w.utxo, 3);
    let second = payment(&w, &w.bc, &w.utxo, 4);
    for tx in [&first, &second] {
        let wrapped = TxWrapper { addr_from: "n1".to_string(), tx: tx.serialize() };
        assert!(node.handle_tx(&wrapped.serialize()).unwrap().is_empty());
    }
    assert_eq!(node.blockchain().get_best_height(), Ok(0));
}

#[test]
fn miner_mines_once_two_transactions_wait() {
    let w = world();
    let mut node = server("3002", &w.b, &w);
    let mut nodes = Vec::new();
    utxo_node::wire::put_texts(&mut nodes, &["127.0.0.1:3002".to_string(), "n1".to_string()]);
    node.handle_addr(&nodes).unwrap();
    let good = payment(&w, &w.bc, &w.utxo, 3);
    let forged = Transaction::with_digest(
        vec![TXInput::new(good.v_in()[0].tx_id(), 0, vec![0; 64], good.v_in()[0].pub_key().to_vec())],
        vec![TXOutput::new(10, &w.b).unwrap()],
    );
    let wrapped = TxWrapper { addr_from: "n1".to_string(), tx: forged.serialize() };
    assert!(node.handle_tx(&wrapped.serialize()).unwrap().is_empty());
    let wrapped = TxWrapper { addr_from: "n1".to_string(), tx: good.serialize() };
    let out = node.handle_tx(&wrapped.serialize()).unwrap();
    assert_eq!(node.blockchain().get_best_height(), Ok(1));
    let blocks = node.blockchain().blocks().unwrap();
    let mined = &blocks[0];
    assert_eq!(mined.transactions().len(), 2);
    assert_eq!(mined.transactions()[0].serialize(), good.serialize());
    assert!(mined.transactions()[1].is_coinbase());
    assert_eq!(mined.prev_block_hash(), blocks[1].hash());
    assert_eq!(
        out.iter().map(|m| m.address.as_str()).collect::<Vec<&str>>(),
        vec!["127.0.0.1:3000", "n1"]
    );
    for message in &out {
        let (command, payload) = parts(message);
        assert_eq!(command, Command::Inv);
        let inv = Inv::deserialize(&payload).unwrap();
        assert_eq!(inv.kind, "block");
        assert_eq!(inv.items, vec![mined.hash().to_string()]);
        assert_eq!(inv.addr_from, "127.0.0.1:3002");
    }
    assert_eq!(CLI::get_balance(node.utxo_set(), &w.a), Ok(7));
    assert_eq!(CLI::get_balance(node.utxo_set(), &w.b), Ok(13));
    let get = GetData { addr_from: "n1".to_string(), kind: "tx".to_string(), id: good.id().to_string() };
    assert!(matches!(node.handle_get_data(&get.serialize()), Err(Error::TransactionNotFound)));
    let get = GetData { addr_from: "n1".to_string(), kind: "tx".to_string(), id: forged.id().to_string() };
    assert!(node.handle_get_data(&get.serialize()).is_ok());
    assert!(node.mine_pending().unwrap().is_none());
}

fn offer(node: &mut Server, tx: &Transaction) -> Result<Vec<Outgoing>, Error> {
    let wrapped = TxWrapper { addr_from: "n1".to_string(), tx: tx.serialize() };
    node.handle_tx(&wrapped.serialize())
}

#[test]
fn mining_with_an_empty_pool_does_nothing() {
    let w = world();
    let mut node = server("3002", &w.b, &w);
    assert!(node.mine_pending().unwrap().is_none());
    assert!(node.mine_all().unwrap().is_empty());
    assert_eq!(node.blockchain().get_best_height(), Ok(0));
}

#[test]
fn mining_is_refused_where_the_mining_address_names_no_key_hash() {
    let w = world();
    let mut node = server("3002", "0OIl", &w);
    let first = payment(&w, &w.bc, &w.utxo, 3);
    let second = payment(&w, &w.bc, &w.utxo, 4);
    assert!(offer(&mut node, &first).unwrap().is_empty());
    assert!(matches!(offer(&mut node, &second), Err(Error::InvalidAddress)));
    assert!(matches!(node.mine_pending(), Err(Error::InvalidAddress)));
    assert!(matches!(node.mine_all(), Err(Error::InvalidAddress)));
    assert_eq!(node.blockchain().get_best_height(), Ok(0));
    let get = GetData { addr_from: "n1".to_string(), kind: "tx".to_string(), id: first.id().to_string() };
    assert!(node.handle_get_data(&get.serialize()).is_ok());
}

#[test]
fn mining_is_refused_where_a_waiting_transaction_cannot_be_checked() {
    let w = world();
    let mut node = server("3002", &w.b, &w);
    let orphan = Transaction::with_digest(
        vec![TXInput::new("missing", 0, vec![0; 64], vec![1; 32])],
        vec![TXOutput::new(1, &w.b).unwrap()],
    );
    assert!(offer(&mut node, &orphan).unwrap().is_empty());
    let good = payment(&w, &w.bc, &w.utxo, 3);
    assert!(matches!(offer(&mut node, &good), Err(Error::TransactionNotFound)));
    assert!(matches!(node.mine_pending(), Err(Error::TransactionNotFound)));
    assert_eq!(node.blockchain().get_best_height(), Ok(0));
}

#[test]
fn mining_is_refused_where_the_chain_cannot_grow_higher() {
    let w = world();
    let genesis = w.bc.get_block_hashes().unwrap()[0].clone();
    let top = utxo_node::block::Block::mine(
        5,
        vec![Transaction::with_digest(vec![], vec![TXOutput::locked_to(1, vec![])])],
        &genesis,
        i32::MAX,
    )
    .unwrap();
    let mut bc = copy_chain(&w.bc);
    bc.add_block(&top);
    let mut node = Server::new("3002", &w.b, bc, copy_index(&w.utxo));
    let first = payment(&w, &w.bc, &w.utxo, 3);
    let second = payment(&w, &w.bc, &w.utxo, 4);
    assert!(offer(&mut node, &first).unwrap().is_empty());
    assert!(matches!(offer(&mut node, &second), Err(Error::HeightOverflow)));
    assert!(matches!(node.mine_pending(), Err(Error::HeightOverflow)));
    assert_eq!(node.blockchain().get_block_hashes().unwrap()[0], top.hash());
}

#[test]
fn node_pulls_the_blocks_of_a_peer_with_a_higher_chain() {
    let mut w = world();
    let mut behind = server("3001", "", &w);
    let (a, b) = (w.a.clone(), w.b.clone());
    CLI::send(&w.wallets, &mut w.bc, &mut w.utxo, &a, &b, 3).unwrap();
    CLI::send(&w.wallets, &mut w.bc, &mut w.utxo, &a, &b, 4).unwrap();
    let mut central = server("3000", "", &w);

    let mut queue = behind.start().unwrap();
    let mut steps = 0;
    while let Some(message) = queue.pop() {
        steps += 1;
        assert!(steps < 50);
        let answers = if message.address == "127.0.0.1:3000" {
            central.handle_connection(&message.request).unwrap()
        } else {
            assert_eq!(message.address, "127.0.0.1:3001");
            behind.handle_connection(&message.request).unwrap()
        };
        queue.extend(answers);
    }
    assert_eq!(
        behind.blockchain().get_block_hashes(),
        central.blockchain().get_block_hashes()
    );
    assert_eq!(behind.blockchain().get_best_height(), Ok(2));
    assert_eq!(CLI::get_balance(behind.utxo_set(), &a), Ok(23));
    assert_eq!(CLI::get_balance(behind.utxo_set(), &b), Ok(7));
    assert!(central.is_known_node("127.0.0.1:3001"));
}
