//! The node of the peer-to-peer network: what it keeps, and what it does
//! with each request that reaches it. Connections are left to the
//! program around the library: it hands every request that it has read
//! to the node, sends the messages that the node answers with, and tells
//! the node of every peer that could not be reached.

use vstd::prelude::*;
use vstd::slice::*;
use vstd::string::*;
use vstd::utf8::*;

use crate::block::Block;
use crate::blockchain::{
    best_height, chain_verify, lemma_verified_are_checked, stored_block, walk, with_block,
    Blockchain,
};
use crate::error::Error;
use crate::model::{dec_block, dec_tx, enc_block, enc_tx, BlockView, TransactionView};
use crate::store::StoreMap;
use crate::table::Table;
use crate::text::str_equal;
use crate::codec::{text_from_utf8_lossy, utf8_lossy};
use crate::transaction::{coinbase, is_random_payload, tx_views, Transaction};
use crate::wallet::address_key_hash;
use crate::unspent::unspent;
use crate::utxo_set::{index_of, UTXOSet};
use crate::wire::{
    command_name, dec_get_data, dec_inv, dec_texts, dec_version, dec_wrapper, enc_get_data,
    enc_inv, enc_texts, enc_version, enc_wrapper, frame, get_texts, kind_name, make_request,
    named_command, named_kind, put_texts, split_at_line_feed, split_request, text_views,
    BlockWrapper, Command, GetData, GetDataView, Inv, InvView, Kind, TxWrapper, Version,
    VersionView, WrapperView,
};

verus! {

/// The version of the protocol that this node speaks.
pub const NODE_VERSION: i32 = 1;

/// The address of the node that every node knows from the start.
pub const CENTRAL_NODE: &'static str = "127.0.0.1:3000";

/// A message for a peer: its address and the request to send to it.
#[derive(Debug)]
pub struct Outgoing {
    pub address: String,
    pub request: Vec<u8>,
}

/// What a message holds.
pub struct OutgoingView {
    pub address: Seq<char>,
    pub request: Seq<u8>,
}

impl View for Outgoing {
    type V = OutgoingView;

    open spec fn view(&self) -> OutgoingView {
        OutgoingView { address: self.address@, request: self.request@ }
    }
}

/// The messages of a list, as values.
pub open spec fn outgoing_views(v: Seq<Outgoing>) -> Seq<OutgoingView> {
    v.map_values(|m: Outgoing| m@)
}

/// What a node keeps.
pub struct ServerView {
    pub node_address: Seq<char>,
    pub mining_address: Seq<char>,
    pub known_nodes: Seq<Seq<char>>,
    pub blocks_in_transit: Seq<Seq<char>>,
    pub mempool: Map<Seq<char>, TransactionView>,
    pub pending: Seq<Seq<char>>,
    pub chain: StoreMap,
    pub tip: Seq<char>,
    pub unspent: StoreMap,
}

/// A node: its addresses, the peers it knows, the blocks it has asked
/// for, the transactions that wait to be mined, its chain and its index
/// of unspent outputs.
pub struct Server {
    node_address: String,
    mining_address: String,
    known_nodes: Vec<String>,
    blocks_in_transit: Vec<String>,
    mempool: Table<Transaction>,
    bc: Blockchain,
    utxo_set: UTXOSet,
}

/// The greeting of the node at `from` with a chain of the given height.
pub open spec fn version_request(from: Seq<char>, height: i32) -> Seq<u8> {
    frame(
        command_name(Command::Version),
        enc_version(VersionView { version: NODE_VERSION, best_height: height, addr_from: from }),
    )
}

/// The request of the node at `from` for the list of blocks.
pub open spec fn get_blocks_request(from: Seq<char>) -> Seq<u8> {
    frame(command_name(Command::GetBlocks), encode_utf8(from))
}

/// The inventory of the node at `from`.
pub open spec fn inv_request(from: Seq<char>, kind: Kind, items: Seq<Seq<char>>) -> Seq<u8> {
    frame(
        command_name(Command::Inv),
        enc_inv(InvView { addr_from: from, kind: kind_name(kind), items }),
    )
}

/// The request of the node at `from` for one block or transaction.
pub open spec fn get_data_request(from: Seq<char>, kind: Kind, id: Seq<char>) -> Seq<u8> {
    frame(
        command_name(Command::GetData),
        enc_get_data(GetDataView { addr_from: from, kind: kind_name(kind), id }),
    )
}

/// A block sent by the node at `from`.
pub open spec fn block_request(from: Seq<char>, block: BlockView) -> Seq<u8> {
    frame(
        command_name(Command::Block),
        enc_wrapper(WrapperView { addr_from: from, item: enc_block(block) }),
    )
}

/// A transaction sent by the node at `from`.
pub open spec fn tx_request(from: Seq<char>, tx: TransactionView) -> Seq<u8> {
    frame(
        command_name(Command::Tx),
        enc_wrapper(WrapperView { addr_from: from, item: enc_tx(tx) }),
    )
}

/// The list of nodes that a node knows, itself at the end.
pub open spec fn addr_request(nodes: Seq<Seq<char>>) -> Seq<u8> {
    frame(command_name(Command::Addr), enc_texts(nodes))
}

/// The same request to every node of the list that is not in `skip`, in
/// the order of the list.
pub open spec fn to_each(nodes: Seq<Seq<char>>, skip: Set<Seq<char>>, request: Seq<u8>) -> Seq<
    OutgoingView,
>
    decreases nodes.len(),
{
    if nodes.len() == 0 {
        Seq::empty()
    } else {
        let rest = to_each(nodes.drop_last(), skip, request);
        if skip.contains(nodes.last()) {
            rest
        } else {
            rest.push(OutgoingView { address: nodes.last(), request })
        }
    }
}

/// The list without the entries that equal `x`.
pub open spec fn without_all(list: Seq<Seq<char>>, x: Seq<char>) -> Seq<Seq<char>>
    decreases list.len(),
{
    if list.len() == 0 {
        Seq::empty()
    } else {
        let rest = without_all(list.drop_last(), x);
        if list.last() == x {
            rest
        } else {
            rest.push(list.last())
        }
    }
}

/// The hashes of the blocks of a chain.
pub open spec fn hashes_of(blocks: Seq<BlockView>) -> Seq<Seq<char>> {
    Seq::new(blocks.len(), |i: int| blocks[i].hash)
}

/// What a request leads to: the node afterwards, and the messages to
/// send or the reason why the request was refused.
pub struct Outcome {
    pub after: ServerView,
    pub result: Result<Seq<OutgoingView>, Error>,
}

/// The request is refused and the node stays as it is.
pub open spec fn refused(s: ServerView, e: Error) -> Outcome {
    Outcome { after: s, result: Err(e) }
}

/// A greeting: the node asks the peer for its blocks where the peer's
/// chain is higher, and greets back with its own height otherwise. A
/// peer that was not known is added to the known nodes.
pub open spec fn on_version(s: ServerView, payload: Seq<u8>) -> Outcome {
    match dec_version(payload) {
        None => refused(s, Error::Malformed),
        Some((v, _)) => match best_height(s.chain, s.tip) {
            Err(e) => refused(s, e),
            Ok(mine) => Outcome {
                after: ServerView {
                    known_nodes: if s.known_nodes.contains(v.addr_from) {
                        s.known_nodes
                    } else {
                        s.known_nodes.push(v.addr_from)
                    },
                    ..s
                },
                result: Ok(
                    seq![
                        OutgoingView {
                            address: v.addr_from,
                            request: if mine < v.best_height {
                                get_blocks_request(s.node_address)
                            } else {
                                version_request(s.node_address, mine)
                            },
                        },
                    ],
                ),
            },
        },
    }
}

/// A list of nodes: they are added to the known nodes, and every known
/// node is asked for its blocks.
pub open spec fn on_addr(s: ServerView, payload: Seq<u8>) -> Outcome {
    match dec_texts(payload) {
        None => refused(s, Error::Malformed),
        Some((nodes, _)) => {
            let known = s.known_nodes + nodes;
            Outcome {
                after: ServerView { known_nodes: known, ..s },
                result: Ok(to_each(known, Set::empty(), get_blocks_request(s.node_address))),
            }
        },
    }
}

/// A block: it is stored and made the tip. Where blocks are still in
/// transit the next of them is asked for; otherwise the index of unspent
/// outputs is rebuilt from the chain.
pub open spec fn on_block(s: ServerView, payload: Seq<u8>) -> Outcome {
    match dec_wrapper(payload) {
        None => refused(s, Error::Malformed),
        Some((w, _)) => match dec_block(w.item) {
            Some((block, _)) => if block.transactions.len() == 0 {
                refused(s, Error::Malformed)
            } else {
                let chain = with_block(s.chain, block);
                let added = ServerView { chain, tip: block.hash, ..s };
                if s.blocks_in_transit.len() > 0 {
                    Outcome {
                        after: ServerView {
                            blocks_in_transit: s.blocks_in_transit.drop_first(),
                            ..added
                        },
                        result: Ok(
                            seq![
                                OutgoingView {
                                    address: w.addr_from,
                                    request: get_data_request(
                                        s.node_address,
                                        Kind::Block,
                                        s.blocks_in_transit[0],
                                    ),
                                },
                            ],
                        ),
                    }
                } else {
                    match walk(chain, block.hash, chain.dom().len()) {
                        Ok(blocks) => Outcome {
                            after: ServerView { unspent: index_of(unspent(blocks)), ..added },
                            result: Ok(Seq::empty()),
                        },
                        Err(e) => Outcome { after: added, result: Err(e) },
                    }
                }
            },
            None => refused(s, Error::Malformed),
        },
    }
}

/// An inventory. Of blocks: the listed hashes, in reverse, become the
/// blocks in transit; the first of them is asked for and leaves the
/// list. Of transactions: the first listed one is asked for unless it
/// waits in the pool already. An inventory that lists nothing is
/// refused.
pub open spec fn on_inv(s: ServerView, payload: Seq<u8>) -> Outcome {
    match dec_inv(payload) {
        None => refused(s, Error::Malformed),
        Some((inv, _)) => match named_kind(inv.kind) {
            None => refused(s, Error::UnknownCommand),
            Some(kind) => if inv.items.len() == 0 {
                refused(s, Error::Malformed)
            } else {
                match kind {
                    Kind::Block => {
                        let transit = inv.items.reverse();
                        Outcome {
                            after: ServerView {
                                blocks_in_transit: without_all(transit, transit[0]),
                                ..s
                            },
                            result: Ok(
                                seq![
                                    OutgoingView {
                                        address: inv.addr_from,
                                        request: get_data_request(
                                            s.node_address,
                                            Kind::Block,
                                            transit[0],
                                        ),
                                    },
                                ],
                            ),
                        }
                    },
                    Kind::Tx => Outcome {
                        after: s,
                        result: Ok(
                            if s.mempool.contains_key(inv.items[0]) {
                                Seq::empty()
                            } else {
                                seq![
                                    OutgoingView {
                                        address: inv.addr_from,
                                        request: get_data_request(
                                            s.node_address,
                                            Kind::Tx,
                                            inv.items[0],
                                        ),
                                    },
                                ]
                            },
                        ),
                    },
                }
            },
        },
    }
}

/// A request for the list of blocks: the peer, whose address is the
/// payload read as text, is sent the hashes of the chain, newest first.
pub open spec fn on_get_blocks(s: ServerView, payload: Seq<u8>) -> Outcome {
    match walk(s.chain, s.tip, s.chain.dom().len()) {
        Err(e) => refused(s, e),
        Ok(blocks) => Outcome {
            after: s,
            result: Ok(
                seq![
                    OutgoingView {
                        address: utf8_lossy(payload),
                        request: inv_request(s.node_address, Kind::Block, hashes_of(blocks)),
                    },
                ],
            ),
        },
    }
}

/// A request for a block or a transaction: the block is taken from the
/// chain, the transaction from the pool, and sent to the peer.
pub open spec fn on_get_data(s: ServerView, payload: Seq<u8>) -> Outcome {
    match dec_get_data(payload) {
        None => refused(s, Error::Malformed),
        Some((get, _)) => match named_kind(get.kind) {
            None => refused(s, Error::UnknownCommand),
            Some(Kind::Block) => match stored_block(s.chain, get.id) {
                Err(e) => refused(s, e),
                Ok(block) => Outcome {
                    after: s,
                    result: Ok(
                        seq![
                            OutgoingView {
                                address: get.addr_from,
                                request: block_request(s.node_address, block),
                            },
                        ],
                    ),
                },
            },
            Some(Kind::Tx) => if !s.mempool.contains_key(get.id) {
                refused(s, Error::TransactionNotFound)
            } else {
                Outcome {
                    after: s,
                    result: Ok(
                        seq![
                            OutgoingView {
                                address: get.addr_from,
                                request: tx_request(s.node_address, s.mempool[get.id]),
                            },
                        ],
                    ),
                }
            },
        },
    }
}

/// The exec result agrees with an outcome.
pub open spec fn agrees(r: Result<Vec<Outgoing>, Error>, result: Result<Seq<OutgoingView>, Error>) -> bool {
    match result {
        Ok(messages) => r matches Ok(sent) && outgoing_views(sent@) == messages,
        Err(e) => r matches Err(x) && x == e,
    }
}

/// Whether `address` is in the list.
fn contains_text(list: &Vec<String>, address: &str) -> (r: bool)
    ensures
        r == text_views(list@).contains(address@),
{
    let mut i: usize = 0;
    while i < list.len()
        invariant
            i <= list@.len(),
            forall|j: int| 0 <= j < i ==> text_views(list@)[j] != address@,
        decreases list@.len() - i,
    {
        if str_equal(list[i].as_str(), address) {
            assert(text_views(list@)[i as int] == address@);
            return true;
        }
        i += 1;
    }
    false
}

/// The same request for every node of the list but the skipped ones.
fn send_to_each(nodes: &Vec<String>, skip_a: Option<&str>, skip_b: Option<&str>, request: &[u8]) -> (out:
    Vec<Outgoing>)
    ensures
        outgoing_views(out@) == to_each(
            text_views(nodes@),
            skip_set(
                match skip_a {
                    Some(a) => Some(a@),
                    None => None,
                },
                match skip_b {
                    Some(b) => Some(b@),
                    None => None,
                },
            ),
            request@,
        ),
{
    let ghost names = text_views(nodes@);
    let ghost skip = skip_set(
        match skip_a {
            Some(a) => Some(a@),
            None => None,
        },
        match skip_b {
            Some(b) => Some(b@),
            None => None,
        },
    );
    let mut out: Vec<Outgoing> = Vec::new();
    let mut i: usize = 0;
    assert(outgoing_views(out@) =~= Seq::<OutgoingView>::empty());
    assert(names.take(0) =~= Seq::<Seq<char>>::empty());
    while i < nodes.len()
        invariant
            i <= nodes@.len(),
            names == text_views(nodes@),
            skip == skip_set(
                match skip_a {
                    Some(a) => Some(a@),
                    None => None,
                },
                match skip_b {
                    Some(b) => Some(b@),
                    None => None,
                },
            ),
            outgoing_views(out@) == to_each(names.take(i as int), skip, request@),
        decreases nodes@.len() - i,
    {
        let node = nodes[i].as_str();
        let ghost before = outgoing_views(out@);
        proof {
            let next = names.take(i + 1);
            assert(next.drop_last() =~= names.take(i as int));
            assert(next.last() == node@);
        }
        let skipped_a = match skip_a {
            Some(a) => str_equal(node, a),
            None => false,
        };
        let skipped_b = match skip_b {
            Some(b) => str_equal(node, b),
            None => false,
        };
        if !skipped_a && !skipped_b {
            let message = Outgoing { address: node.to_owned(), request: slice_to_vec(request) };
            assert(outgoing_views(out@.push(message)) =~= before.push(message@));
            out.push(message);
        }
        i += 1;
    }
    assert(names.take(i as int) =~= names);
    out
}

/// The set of up to two addresses.
pub open spec fn skip_set(a: Option<Seq<char>>, b: Option<Seq<char>>) -> Set<Seq<char>> {
    Set::new(|x: Seq<char>| a == Some(x) || b == Some(x))
}

/// One message as a list.
fn single(message: Outgoing) -> (out: Vec<Outgoing>)
    ensures
        outgoing_views(out@) == seq![message@],
{
    let mut out: Vec<Outgoing> = Vec::new();
    out.push(message);
    assert(outgoing_views(out@) =~= seq![message@]);
    out
}

/// No message.
fn nothing() -> (out: Vec<Outgoing>)
    ensures
        outgoing_views(out@) == Seq::<OutgoingView>::empty(),
{
    let out: Vec<Outgoing> = Vec::new();
    assert(outgoing_views(out@) =~= Seq::<OutgoingView>::empty());
    out
}

impl Server {
    /// What the node keeps.
    pub closed spec fn view(&self) -> ServerView {
        ServerView {
            node_address: self.node_address@,
            mining_address: self.mining_address@,
            known_nodes: text_views(self.known_nodes@),
            blocks_in_transit: text_views(self.blocks_in_transit@),
            mempool: self.mempool@,
            pending: self.mempool.keys(),
            chain: self.bc.store_view(),
            tip: self.bc.tip(),
            unspent: self.utxo_set.store_view(),
        }
    }

    /// A node with the given id, which is its port on the local host. It
    /// knows the central node, has asked for no blocks and has an empty
    /// pool. `miner_address` is empty for a node that does not mine.
    pub fn new(node_id: &str, miner_address: &str, bc: Blockchain, utxo_set: UTXOSet) -> (server:
        Server)
        ensures
            server@ == (ServerView {
                node_address: "127.0.0.1:"@ + node_id@,
                mining_address: miner_address@,
                known_nodes: seq![CENTRAL_NODE@],
                blocks_in_transit: Seq::empty(),
                mempool: Map::empty(),
                pending: Seq::empty(),
                chain: bc.store_view(),
                tip: bc.tip(),
                unspent: utxo_set.store_view(),
            }),
    {
        let mut node_address = "127.0.0.1:".to_owned();
        node_address.append(node_id);
        let mut known_nodes: Vec<String> = Vec::new();
        known_nodes.push(CENTRAL_NODE.to_owned());
        let server = Server {
            node_address,
            mining_address: miner_address.to_owned(),
            known_nodes,
            blocks_in_transit: Vec::new(),
            mempool: Table::new(),
            bc,
            utxo_set,
        };
        proof {
            assert(server@.known_nodes =~= seq![CENTRAL_NODE@]);
            assert(server@.blocks_in_transit =~= Seq::<Seq<char>>::empty());
        }
        server
    }

    /// What a node sends when it starts: its greeting to the central
    /// node, unless it is the central node itself.
    pub fn start(&self) -> (r: Result<Vec<Outgoing>, Error>)
        ensures
            agrees(
                r,
                if self@.known_nodes.len() == 0 || self@.node_address == self@.known_nodes[0] {
                    Ok(Seq::empty())
                } else {
                    match best_height(self@.chain, self@.tip) {
                        Ok(height) => Ok(
                            seq![
                                OutgoingView {
                                    address: self@.known_nodes[0],
                                    request: version_request(self@.node_address, height),
                                },
                            ],
                        ),
                        Err(e) => Err(e),
                    }
                },
            ),
    {
        if self.known_nodes.len() == 0 {
            return Ok(nothing());
        }
        assert(text_views(self.known_nodes@)[0] == self.known_nodes@[0]@);
        if str_equal(self.node_address.as_str(), self.known_nodes[0].as_str()) {
            return Ok(nothing());
        }
        let height = match self.bc.get_best_height() {
            Ok(h) => h,
            Err(e) => { return Err(e); },
        };
        Ok(single(self.send_version(self.known_nodes[0].as_str(), height)))
    }

    /// The chain of the node.
    pub fn blockchain(&self) -> (bc: &Blockchain)
        ensures
            bc.store_view() == self@.chain,
            bc.tip() == self@.tip,
    {
        &self.bc
    }

    /// The index of unspent outputs of the node.
    pub fn utxo_set(&self) -> (set: &UTXOSet)
        ensures
            set.store_view() == self@.unspent,
    {
        &self.utxo_set
    }

    /// The nodes that the node knows.
    pub fn known_nodes(&self) -> (nodes: &Vec<String>)
        ensures
            text_views(nodes@) == self@.known_nodes,
    {
        &self.known_nodes
    }

    /// Takes a peer that could not be reached out of the known nodes.
    pub fn remove_node(&mut self, address: &str)
        ensures
            final(self)@ == (ServerView {
                known_nodes: without_all(old(self)@.known_nodes, address@),
                ..old(self)@
            }),
    {
        let mut updated_nodes: Vec<String> = Vec::new();
        let ghost names = text_views(self.known_nodes@);
        let mut i: usize = 0;
        assert(names.take(0) =~= Seq::<Seq<char>>::empty());
        assert(text_views(updated_nodes@) =~= Seq::<Seq<char>>::empty());
        while i < self.known_nodes.len()
            invariant
                i <= self.known_nodes@.len(),
                names == text_views(self.known_nodes@),
                self@ == old(self)@,
                text_views(updated_nodes@) == without_all(names.take(i as int), address@),
            decreases self.known_nodes@.len() - i,
        {
            let ghost before = text_views(updated_nodes@);
            proof {
                let next = names.take(i + 1);
                assert(next.drop_last() =~= names.take(i as int));
                assert(next.last() == self.known_nodes@[i as int]@);
            }
            if !str_equal(self.known_nodes[i].as_str(), address) {
                let node = self.known_nodes[i].clone();
                assert(text_views(updated_nodes@.push(node)) =~= before.push(node@));
                updated_nodes.push(node);
            }
            i += 1;
        }
        assert(names.take(i as int) =~= names);
        self.known_nodes = updated_nodes;
    }

    /// The list of known nodes, this node at its end, for the peer at
    /// `address`.
    pub fn send_addr(&self, address: &str) -> (message: Outgoing)
        ensures
            message@ == (OutgoingView {
                address: address@,
                request: addr_request(self@.known_nodes.push(self@.node_address)),
            }),
    {
        let mut nodes: Vec<String> = Vec::new();
        let mut i: usize = 0;
        while i < self.known_nodes.len()
            invariant
                i <= self.known_nodes@.len(),
                nodes@.len() == i,
                forall|j: int| 0 <= j < i ==> (#[trigger] nodes@[j])@ == self.known_nodes@[j]@,
            decreases self.known_nodes@.len() - i,
        {
            nodes.push(self.known_nodes[i].clone());
            i += 1;
        }
        nodes.push(self.node_address.clone());
        assert(text_views(nodes@) =~= self@.known_nodes.push(self@.node_address));
        let mut payload: Vec<u8> = Vec::new();
        put_texts(&mut payload, nodes.as_slice());
        assert(payload@ =~= enc_texts(text_views(nodes@)));
        Outgoing {
            address: address.to_owned(),
            request: make_request(Command::Addr.name(), payload.as_slice()),
        }
    }

    /// A block for the peer at `address`.
    pub fn send_block(&self, address: &str, b: &Block) -> (message: Outgoing)
        ensures
            message@ == (OutgoingView {
                address: address@,
                request: block_request(self@.node_address, b@),
            }),
    {
        let data = BlockWrapper { addr_from: self.node_address.clone(), block: b.serialize() };
        let payload = data.serialize();
        Outgoing {
            address: address.to_owned(),
            request: make_request(Command::Block.name(), payload.as_slice()),
        }
    }

    /// The inventory of this node as a request.
    fn inventory(&self, kind: Kind, items: Vec<String>) -> (request: Vec<u8>)
        ensures
            request@ == inv_request(self@.node_address, kind, text_views(items@)),
    {
        let data = Inv {
            addr_from: self.node_address.clone(),
            kind: kind.name().to_owned(),
            items,
        };
        let payload = data.serialize();
        make_request(Command::Inv.name(), payload.as_slice())
    }

    /// An inventory for the peer at `address`.
    pub fn send_inv(&self, address: &str, kind: Kind, items: Vec<String>) -> (message: Outgoing)
        ensures
            message@ == (OutgoingView {
                address: address@,
                request: inv_request(self@.node_address, kind, text_views(items@)),
            }),
    {
        Outgoing { address: address.to_owned(), request: self.inventory(kind, items) }
    }

    /// A request for the list of blocks for the peer at `address`.
    pub fn send_get_blocks(&self, address: &str) -> (message: Outgoing)
        ensures
            message@ == (OutgoingView {
                address: address@,
                request: get_blocks_request(self@.node_address),
            }),
    {
        Outgoing {
            address: address.to_owned(),
            request: make_request(Command::GetBlocks.name(), self.node_address.as_str().as_bytes()),
        }
    }

    /// A request for one block or transaction for the peer at `address`.
    pub fn send_get_data(&self, address: &str, kind: Kind, id: &str) -> (message: Outgoing)
        ensures
            message@ == (OutgoingView {
                address: address@,
                request: get_data_request(self@.node_address, kind, id@),
            }),
    {
        let data = GetData {
            addr_from: self.node_address.clone(),
            kind: kind.name().to_owned(),
            id: id.to_owned(),
        };
        let payload = data.serialize();
        Outgoing {
            address: address.to_owned(),
            request: make_request(Command::GetData.name(), payload.as_slice()),
        }
    }

    /// A transaction for the peer at `address`.
    pub fn send_tx(&self, address: &str, tx: &Transaction) -> (message: Outgoing)
        ensures
            message@ == (OutgoingView {
                address: address@,
                request: tx_request(self@.node_address, tx@),
            }),
    {
        let data = TxWrapper { addr_from: self.node_address.clone(), tx: tx.serialize() };
        let payload = data.serialize();
        Outgoing {
            address: address.to_owned(),
            request: make_request(Command::Tx.name(), payload.as_slice()),
        }
    }

    /// The greeting of this node, with the given height, for the peer at
    /// `address`.
    pub fn send_version(&self, address: &str, height: i32) -> (message: Outgoing)
        ensures
            message@ == (OutgoingView {
                address: address@,
                request: version_request(self@.node_address, height),
            }),
    {
        let version = Version {
            version: NODE_VERSION,
            best_height: height,
            addr_from: self.node_address.clone(),
        };
        let payload = version.serialize();
        Outgoing {
            address: address.to_owned(),
            request: make_request(Command::Version.name(), payload.as_slice()),
        }
    }

    /// Whether the node knows the peer at `address`.
    pub fn is_known_node(&self, address: &str) -> (r: bool)
        ensures
            r == self@.known_nodes.contains(address@),
    {
        contains_text(&self.known_nodes, address)
    }

    /// A request to every known node for its blocks.
    pub fn request_blocks(&self) -> (out: Vec<Outgoing>)
        ensures
            outgoing_views(out@) == to_each(
                self@.known_nodes,
                Set::empty(),
                get_blocks_request(self@.node_address),
            ),
    {
        let request = make_request(
            Command::GetBlocks.name(),
            self.node_address.as_str().as_bytes(),
        );
        let out = send_to_each(&self.known_nodes, None, None, request.as_slice());
        assert(skip_set(None, None) =~= Set::<Seq<char>>::empty());
        out
    }

    /// Handles a list of nodes.
    pub fn handle_addr(&mut self, request: &[u8]) -> (r: Result<Vec<Outgoing>, Error>)
        ensures
            final(self)@ == on_addr(old(self)@, request@).after,
            agrees(r, on_addr(old(self)@, request@).result),
    {
        assert(request@.skip(0) =~= request@);
        let (mut nodes, _) = match get_texts(request, 0) {
            Some(x) => x,
            None => { return Err(Error::Malformed); },
        };
        let ghost added = text_views(nodes@);
        let ghost known = text_views(self.known_nodes@);
        self.known_nodes.append(&mut nodes);
        assert(text_views(self.known_nodes@) =~= known + added);
        Ok(self.request_blocks())
    }

    /// Handles a block.
    pub fn handle_block(&mut self, request: &[u8]) -> (r: Result<Vec<Outgoing>, Error>)
        ensures
            final(self)@ == on_block(old(self)@, request@).after,
            agrees(r, on_block(old(self)@, request@).result),
    {
        let payload = match BlockWrapper::deserialize(request) {
            Ok(p) => p,
            Err(e) => { return Err(e); },
        };
        let block = match Block::deserialize(payload.block) {
            Ok(b) => b,
            Err(e) => { return Err(e); },
        };
        self.bc.add_block(&block);
        if self.blocks_in_transit.len() > 0 {
            let ghost transit = text_views(self.blocks_in_transit@);
            let block_hash = self.blocks_in_transit.remove(0);
            assert(text_views(self.blocks_in_transit@) =~= transit.drop_first());
            assert(block_hash@ == transit[0]);
            Ok(
                single(
                    self.send_get_data(payload.addr_from.as_str(), Kind::Block, block_hash.as_str()),
                ),
            )
        } else {
            match self.utxo_set.reindex(&self.bc) {
                Ok(()) => Ok(nothing()),
                Err(e) => Err(e),
            }
        }
    }

    /// Handles an inventory.
    pub fn handle_inv(&mut self, request: &[u8]) -> (r: Result<Vec<Outgoing>, Error>)
        ensures
            final(self)@ == on_inv(old(self)@, request@).after,
            agrees(r, on_inv(old(self)@, request@).result),
    {
        let payload = match Inv::deserialize(request) {
            Ok(p) => p,
            Err(e) => { return Err(e); },
        };
        let kind = match Kind::parse(payload.kind.as_str()) {
            Some(k) => k,
            None => { return Err(Error::UnknownCommand); },
        };
        if payload.items.len() == 0 {
            return Err(Error::Malformed);
        }
        let ghost items = text_views(payload.items@);
        match kind {
            Kind::Block => {
                let last = payload.items.len() - 1;
                let block_hash = payload.items[last].clone();
                assert(items.reverse()[0] == items[last as int]);
                assert(items[last as int] == payload.items@[last as int]@);
                let mut new_in_transit: Vec<String> = Vec::new();
                let mut i: usize = payload.items.len();
                let ghost transit = items.reverse();
                assert(transit.take(0) =~= Seq::<Seq<char>>::empty());
                assert(text_views(new_in_transit@) =~= Seq::<Seq<char>>::empty());
                while i > 0
                    invariant
                        i <= payload.items@.len(),
                        items == text_views(payload.items@),
                        transit == items.reverse(),
                        self@ == old(self)@,
                        text_views(new_in_transit@) == without_all(
                            transit.take(items.len() - i),
                            block_hash@,
                        ),
                    decreases i,
                {
                    let ghost before = text_views(new_in_transit@);
                    i -= 1;
                    proof {
                        let done = items.len() - i;
                        let next = transit.take(done);
                        assert(next.drop_last() =~= transit.take(done - 1));
                        assert(next.last() == payload.items@[i as int]@);
                    }
                    if !str_equal(block_hash.as_str(), payload.items[i].as_str()) {
                        let b = payload.items[i].clone();
                        assert(text_views(new_in_transit@.push(b)) =~= before.push(b@));
                        new_in_transit.push(b);
                    }
                }
                assert(transit.take(items.len() as int) =~= transit);
                let message = self.send_get_data(
                    payload.addr_from.as_str(),
                    Kind::Block,
                    block_hash.as_str(),
                );
                self.blocks_in_transit = new_in_transit;
                Ok(single(message))
            },
            Kind::Tx => {
                let tx_id = payload.items[0].as_str();
                assert(items[0] == payload.items@[0]@);
                if !self.mempool.contains_key(tx_id) {
                    Ok(single(self.send_get_data(payload.addr_from.as_str(), Kind::Tx, tx_id)))
                } else {
                    Ok(nothing())
                }
            },
        }
    }

    /// Handles a request for the list of blocks.
    pub fn handle_get_blocks(&mut self, request: &[u8]) -> (r: Result<Vec<Outgoing>, Error>)
        ensures
            final(self)@ == on_get_blocks(old(self)@, request@).after,
            agrees(r, on_get_blocks(old(self)@, request@).result),
    {
        let addr_from = text_from_utf8_lossy(request);
        let blocks = match self.bc.get_block_hashes() {
            Ok(b) => b,
            Err(e) => { return Err(e); },
        };
        proof {
            let views = self.bc.chain().unwrap();
            assert(text_views(blocks@) =~= hashes_of(views));
        }
        Ok(single(self.send_inv(addr_from.as_str(), Kind::Block, blocks)))
    }

    /// Handles a request for a block or a transaction.
    pub fn handle_get_data(&mut self, request: &[u8]) -> (r: Result<Vec<Outgoing>, Error>)
        ensures
            final(self)@ == on_get_data(old(self)@, request@).after,
            agrees(r, on_get_data(old(self)@, request@).result),
    {
        let payload = match GetData::deserialize(request) {
            Ok(p) => p,
            Err(e) => { return Err(e); },
        };
        match Kind::parse(payload.kind.as_str()) {
            Some(Kind::Block) => {
                let block = match self.bc.get_block(payload.id.as_str()) {
                    Ok(b) => b,
                    Err(e) => { return Err(e); },
                };
                Ok(single(self.send_block(payload.addr_from.as_str(), &block)))
            },
            Some(Kind::Tx) => {
                let message = match self.mempool.get(payload.id.as_str()) {
                    Some(tx) => self.send_tx(payload.addr_from.as_str(), tx),
                    None => { return Err(Error::TransactionNotFound); },
                };
                Ok(single(message))
            },
            None => Err(Error::UnknownCommand),
        }
    }

    /// Handles a greeting.
    pub fn handle_version(&mut self, request: &[u8]) -> (r: Result<Vec<Outgoing>, Error>)
        ensures
            final(self)@ == on_version(old(self)@, request@).after,
            agrees(r, on_version(old(self)@, request@).result),
    {
        let payload = match Version::deserialize(request) {
            Ok(p) => p,
            Err(e) => { return Err(e); },
        };
        let my_best_height = match self.bc.get_best_height() {
            Ok(h) => h,
            Err(e) => { return Err(e); },
        };
        let foreigner_best_height = payload.best_height;
        let message = if my_best_height < foreigner_best_height {
            self.send_get_blocks(payload.addr_from.as_str())
        } else {
            self.send_version(payload.addr_from.as_str(), my_best_height)
        };
        if !self.is_known_node(payload.addr_from.as_str()) {
            let ghost known = text_views(self.known_nodes@);
            self.known_nodes.push(payload.addr_from);
            assert(text_views(self.known_nodes@) =~= known.push(payload.addr_from@));
        }
        Ok(single(message))
    }

    /// Whether this node is the first of the nodes it knows: the central
    /// node.
    fn is_central(&self) -> (r: bool)
        ensures
            r == is_central(self@),
    {
        if self.known_nodes.len() == 0 {
            return false;
        }
        assert(text_views(self.known_nodes@)[0] == self.known_nodes@[0]@);
        str_equal(self.node_address.as_str(), self.known_nodes[0].as_str())
    }

    /// The waiting transactions that verify against the chain, in the
    /// order in which they came.
    fn pending_that_verify(&self) -> (r: Result<Vec<Transaction>, Error>)
        ensures
            match ready(self@) {
                Ok(txs) => r matches Ok(found) && tx_views(found@) == txs,
                Err(e) => r matches Err(x) && x == e,
            },
    {
        let mut txs: Vec<Transaction> = Vec::new();
        let n = self.mempool.len();
        let ghost s = self@;
        let mut i: usize = 0;
        assert(tx_views(txs@) =~= Seq::<TransactionView>::empty());
        while i < n
            invariant
                i <= n,
                n == s.pending.len(),
                s == self@,
                ready_within(s, i as nat) == Ok::<Seq<TransactionView>, Error>(tx_views(txs@)),
            decreases n - i,
        {
            let v = self.mempool.value_at(i);
            let ghost before = tx_views(txs@);
            match self.bc.verify_transaction(v) {
                Ok(true) => {
                    let copy = v.clone();
                    assert(tx_views(txs@.push(copy)) =~= before.push(copy@));
                    txs.push(copy);
                },
                Ok(false) => {},
                Err(e) => {
                    proof {
                        assert(ready_within(s, (i + 1) as nat) is Err);
                        lemma_ready_fails_with_prefix(s, i + 1);
                    }
                    return Err(e);
                },
            }
            i += 1;
        }
        Ok(txs)
    }

    /// Mines the waiting transactions that verify, if there are any, into
    /// a block that also pays the subsidy to the mining address; stores
    /// the block, rebuilds the index of unspent outputs, and takes the
    /// mined transactions out of the pool. Returns the block, or `None`
    /// where no waiting transaction verifies. The round is refused, and
    /// nothing changes, where a waiting transaction cannot be checked,
    /// the mining address names no key hash, or the height of the tip
    /// cannot be read or raised. Where the round is tried, it can still
    /// fail: on the clock, on the search for a nonce, or on reading the
    /// chain once the block is on it.
    pub fn mine_pending(&mut self) -> (r: Result<Option<Block>, Error>)
        ensures
            final(self)@.node_address == old(self)@.node_address,
            final(self)@.mining_address == old(self)@.mining_address,
            final(self)@.known_nodes == old(self)@.known_nodes,
            final(self)@.blocks_in_transit == old(self)@.blocks_in_transit,
            match r {
                Ok(None) => final(self)@ == old(self)@ && ready(old(self)@) == Ok::<
                    Seq<TransactionView>,
                    Error,
                >(Seq::empty()),
                Ok(Some(block)) => mined_pending(old(self)@, block@, final(self)@),
                Err(e) => failed_round(old(self)@, final(self)@, e),
            },
            ready(old(self)@) == Ok::<Seq<TransactionView>, Error>(Seq::empty()) ==> r matches Ok(
                None,
            ),
            mining_refusal(old(self)@) matches Some(e) ==> (r matches Err(x) && x == e),
            r matches Ok(Some(_)) ==> mining_is_tried(old(self)@),
    {
        let ghost before = self@;
        let mut txs = match self.pending_that_verify() {
            Ok(t) => t,
            Err(e) => {
                proof {
                    reveal(failed_round);
                }
                return Err(e);
            },
        };
        if txs.len() == 0 {
            assert(tx_views(txs@) =~= Seq::<TransactionView>::empty());
            return Ok(None);
        }
        let ghost chosen = tx_views(txs@);
        assert(chosen.len() == txs@.len());
        let cbtx = match Transaction::new_coin_base_tx(self.mining_address.as_str(), "") {
            Ok(tx) => tx,
            Err(e) => {
                proof {
                    reveal(failed_round);
                }
                return Err(e);
            },
        };
        proof {
            reveal_strlit("");
        }
        let ghost reward = cbtx@;
        let mined = clone_ids(&txs);
        txs.push(cbtx);
        let ghost all = chosen.push(reward);
        proof {
            assert(tx_views(txs@) =~= all);
            // Everything that is offered for mining verifies, so that the
            // check before mining cannot fail.
            lemma_ready_verify(before, before.pending.len());
            assert forall|i: int| 0 <= i < all.len() implies chain_verify(
                before.chain,
                before.tip,
                before.chain.dom().len(),
                #[trigger] all[i],
            ) == Ok::<bool, Error>(true) by {
                if i < chosen.len() {
                    assert(all[i] == chosen[i]);
                } else {
                    assert(all[i] == reward);
                    assert(crate::model::is_coinbase(reward));
                }
            }
            lemma_verified_are_checked(before.chain, before.tip, before.chain.dom().len(), all);
        }
        let new_block = match self.bc.mine_block(txs) {
            Ok(b) => b,
            Err(e) => {
                proof {
                    reveal(failed_round);
                    assert(self@ == before);
                }
                return Err(e);
            },
        };
        proof {
            let height = best_height(before.chain, before.tip).unwrap();
            let timestamp = choose|timestamp: u64|
                crate::block::mined_from(
                    new_block@,
                    #[trigger] crate::block::unmined(
                        timestamp,
                        all,
                        before.tip,
                        (height + 1) as i32,
                    ),
                );
            assert(new_block@.transactions == all);
            assert(all.take(chosen.len() as int) =~= chosen);
            assert(all.last() == reward);
        }
        match self.utxo_set.reindex(&self.bc) {
            Ok(()) => {},
            Err(e) => {
                proof {
                    reveal(failed_round);
                    assert(mined_from_pool(before, new_block@));
                    assert(self@ == (ServerView {
                        chain: with_block(before.chain, new_block@),
                        tip: new_block@.hash,
                        ..before
                    }));
                }
                return Err(e);
            },
        }
        let mut i: usize = 0;
        while i < mined.len()
            invariant
                i <= mined@.len(),
                mined@.len() == chosen.len(),
                forall|j: int| 0 <= j < mined@.len() ==> (#[trigger] mined@[j])@ == chosen[j].id,
                self@ == (ServerView {
                    mempool: self@.mempool,
                    pending: self@.pending,
                    chain: self@.chain,
                    tip: self@.tip,
                    unspent: self@.unspent,
                    ..before
                }),
                self@.chain == with_block(before.chain, new_block@),
                self@.tip == new_block@.hash,
                walk(self@.chain, self@.tip, self@.chain.dom().len()) matches Ok(blocks)
                    && self@.unspent == index_of(unspent(blocks)),
                self@.mempool == without_ids(before.mempool, chosen, i as nat),
                self@.pending == without_keys(before.pending, chosen, i as nat),
            decreases mined@.len() - i,
        {
            self.mempool.remove(mined[i].as_str());
            i += 1;
        }
        proof {
            reveal(mined_pending);
            assert(mined_pending(before, new_block@, self@));
        }
        Ok(Some(new_block))
    }

    /// The news of a block for every other known node.
    fn announce_block(&self, block: &Block) -> (out: Vec<Outgoing>)
        ensures
            outgoing_views(out@) == block_news(self@, block@.hash),
    {
        let mut items: Vec<String> = Vec::new();
        items.push(block.hash().to_owned());
        assert(text_views(items@) =~= seq![block@.hash]);
        let request = self.inventory(Kind::Block, items);
        send_to_each(
            &self.known_nodes,
            Some(self.node_address.as_str()),
            None,
            request.as_slice(),
        )
    }

    /// Mines the waiting transactions block by block until the pool is
    /// empty or nothing in it verifies, and tells every other known node
    /// of each new block. There are at most as many rounds as there are
    /// transactions in the pool. It fails where one of the rounds fails,
    /// with the error of that round and with what the rounds before it
    /// have done.
    pub fn mine_all(&mut self) -> (r: Result<Vec<Outgoing>, Error>)
        ensures
            final(self)@.node_address == old(self)@.node_address,
            final(self)@.mining_address == old(self)@.mining_address,
            final(self)@.known_nodes == old(self)@.known_nodes,
            final(self)@.blocks_in_transit == old(self)@.blocks_in_transit,
            match r {
                Ok(sent) => mined_in_rounds(
                    old(self)@,
                    final(self)@,
                    outgoing_views(sent@),
                    old(self)@.mempool.dom().len(),
                ),
                Err(e) => failed_in_rounds(
                    old(self)@,
                    final(self)@,
                    e,
                    old(self)@.mempool.dom().len(),
                ),
            },
    {
        let mut out: Vec<Outgoing> = Vec::new();
        let rounds = self.mempool.len();
        let ghost before = self@;
        let ghost mut blocks: Seq<BlockView> = Seq::empty();
        let ghost mut states: Seq<ServerView> = Seq::empty();
        let mut done: usize = 0;
        assert(outgoing_views(out@) =~= Seq::<OutgoingView>::empty());
        while done < rounds
            invariant
                before == old(self)@,
                rounds == before.mempool.dom().len(),
                self@.node_address == before.node_address,
                self@.mining_address == before.mining_address,
                self@.known_nodes == before.known_nodes,
                self@.blocks_in_transit == before.blocks_in_transit,
                done <= rounds,
                blocks.len() == done,
                states.len() == done,
                self@ == state_before(before, states, done as int),
                forall|i: int|
                    0 <= i < blocks.len() ==> #[trigger] mined_pending(
                        state_before(before, states, i),
                        blocks[i],
                        states[i],
                    ),
                forall|i: int| 0 <= i < blocks.len() ==> (#[trigger] states[i]).mempool.dom().len() != 0,
                outgoing_views(out@) == news_of(blocks, states, done as nat),
            decreases rounds - done,
        {
            let ghost start = self@;
            let new_block = match self.mine_pending() {
                Ok(Some(b)) => b,
                Ok(None) => {
                    assert(is_mining_trace(before, blocks, states, rounds as nat));
                    return Ok(out);
                },
                Err(e) => {
                    assert(is_unfinished_trace(before, blocks, states, rounds as nat));
                    return Err(e);
                },
            };
            let mut news = self.announce_block(&new_block);
            proof {
                let sent = outgoing_views(out@);
                let more = outgoing_views(news@);
                assert(outgoing_views(out@ + news@) =~= sent + more);
                lemma_news_of_prefix(blocks, states, new_block@, self@, done as nat);
                let longer = states.push(self@);
                assert forall|i: int| 0 <= i < blocks.len() + 1 implies #[trigger] mined_pending(
                    state_before(before, longer, i),
                    blocks.push(new_block@)[i],
                    longer[i],
                ) by {
                    if i < blocks.len() {
                        assert(state_before(before, longer, i) == state_before(before, states, i));
                        assert(mined_pending(state_before(before, states, i), blocks[i], states[i]));
                    } else {
                        assert(state_before(before, longer, i) == start);
                    }
                }
                blocks = blocks.push(new_block@);
                states = longer;
            }
            out.append(&mut news);
            done += 1;
            if self.mempool.len() == 0 {
                assert(is_mining_trace(before, blocks, states, rounds as nat));
                return Ok(out);
            }
        }
        assert(is_mining_trace(before, blocks, states, rounds as nat));
        Ok(out)
    }

    /// Handles a transaction: it joins the pool. The central node then
    /// tells every other known node but the sender of it. Any other node
    /// that mines, once two transactions wait, mines the waiting
    /// transactions that verify and tells every other known node of each
    /// new block, until the pool is empty or nothing in it verifies.
    pub fn handle_tx(&mut self, request: &[u8]) -> (r: Result<Vec<Outgoing>, Error>)
        ensures
            tx_handled(old(self)@, request@, final(self)@, r),
    {
        let payload = match TxWrapper::deserialize(request) {
            Ok(p) => p,
            Err(e) => { return Err(e); },
        };
        let tx = match Transaction::deserialize(payload.tx) {
            Ok(t) => t,
            Err(e) => { return Err(e); },
        };
        let id = tx.id().to_owned();
        let ghost received = tx@;
        self.mempool.insert(tx.id().to_owned(), tx);
        let ghost pooled = self@;
        assert(pooled == with_pending(old(self)@, received));
        if self.is_central() {
            let mut items: Vec<String> = Vec::new();
            items.push(id);
            assert(text_views(items@) =~= seq![received.id]);
            let request = self.inventory(Kind::Tx, items);
            let out = send_to_each(
                &self.known_nodes,
                Some(self.node_address.as_str()),
                Some(payload.addr_from.as_str()),
                request.as_slice(),
            );
            return Ok(out);
        }
        if !(self.mempool.len() >= 2 && self.mining_address.as_str().unicode_len() > 0) {
            return Ok(nothing());
        }
        self.mine_all()
    }

    /// Handles a request as it was read from a connection: the name of a
    /// command, a line feed, and the payload.
    pub fn handle_connection(&mut self, data: &[u8]) -> (r: Result<Vec<Outgoing>, Error>)
        ensures
            match split_at_line_feed(data@) {
                None => final(self)@ == old(self)@ && agrees(r, Err(Error::UnknownCommand)),
                Some((name, payload)) => match named_command(name) {
                    None => final(self)@ == old(self)@ && agrees(r, Err(Error::UnknownCommand)),
                    Some(Command::Tx) => tx_handled(old(self)@, payload, final(self)@, r),
                    Some(command) => final(self)@ == on_request(old(self)@, command, payload).after
                        && agrees(r, on_request(old(self)@, command, payload).result),
                },
            },
    {
        let (name, request) = match split_request(data) {
            Some(parts) => parts,
            None => { return Err(Error::UnknownCommand); },
        };
        match Command::parse(name.as_slice()) {
            Some(Command::Addr) => self.handle_addr(request.as_slice()),
            Some(Command::Block) => self.handle_block(request.as_slice()),
            Some(Command::Inv) => self.handle_inv(request.as_slice()),
            Some(Command::GetBlocks) => self.handle_get_blocks(request.as_slice()),
            Some(Command::GetData) => self.handle_get_data(request.as_slice()),
            Some(Command::Tx) => self.handle_tx(request.as_slice()),
            Some(Command::Version) => self.handle_version(request.as_slice()),
            None => Err(Error::UnknownCommand),
        }
    }
}

/// The ids of a list of transactions.
fn clone_ids(txs: &Vec<Transaction>) -> (ids: Vec<String>)
    ensures
        ids@.len() == txs@.len(),
        forall|j: int| 0 <= j < ids@.len() ==> (#[trigger] ids@[j])@ == tx_views(txs@)[j].id,
{
    let mut ids: Vec<String> = Vec::new();
    let mut i: usize = 0;
    while i < txs.len()
        invariant
            i <= txs@.len(),
            ids@.len() == i,
            forall|j: int| 0 <= j < i ==> (#[trigger] ids@[j])@ == txs@[j]@.id,
        decreases txs@.len() - i,
    {
        ids.push(txs[i].id().to_owned());
        i += 1;
    }
    ids
}

/// The node is the first of the nodes it knows.
pub open spec fn is_central(s: ServerView) -> bool {
    s.known_nodes.len() > 0 && s.node_address == s.known_nodes[0]
}

/// The node with a transaction added to its pool.
pub open spec fn with_pending(s: ServerView, tx: TransactionView) -> ServerView {
    ServerView {
        mempool: s.mempool.insert(tx.id, tx),
        pending: if s.mempool.contains_key(tx.id) {
            s.pending
        } else {
            s.pending.push(tx.id)
        },
        ..s
    }
}

/// What handling a request does, for every command but `tx`.
pub open spec fn on_request(s: ServerView, command: Command, payload: Seq<u8>) -> Outcome {
    match command {
        Command::Addr => on_addr(s, payload),
        Command::Block => on_block(s, payload),
        Command::Inv => on_inv(s, payload),
        Command::GetBlocks => on_get_blocks(s, payload),
        Command::GetData => on_get_data(s, payload),
        Command::Version => on_version(s, payload),
        Command::Tx => refused(s, Error::UnknownCommand),
    }
}

/// The first `n` waiting transactions that verify against the chain, in
/// the order in which they came; the first that cannot be checked
/// decides the error.
pub open spec fn ready_within(s: ServerView, n: nat) -> Result<Seq<TransactionView>, Error>
    decreases n,
{
    if n == 0 {
        Ok(Seq::empty())
    } else {
        match ready_within(s, (n - 1) as nat) {
            Ok(txs) => match chain_verify(
                s.chain,
                s.tip,
                s.chain.dom().len(),
                s.mempool[s.pending[n - 1]],
            ) {
                Ok(true) => Ok(txs.push(s.mempool[s.pending[n - 1]])),
                Ok(false) => Ok(txs),
                Err(e) => Err(e),
            },
            Err(e) => Err(e),
        }
    }
}

/// The waiting transactions that verify against the chain.
pub open spec fn ready(s: ServerView) -> Result<Seq<TransactionView>, Error> {
    ready_within(s, s.pending.len())
}

/// Once a prefix of the pool cannot be checked, the pool cannot, for the
/// same reason.
pub proof fn lemma_ready_fails_with_prefix(s: ServerView, n: int)
    requires
        0 <= n <= s.pending.len(),
        ready_within(s, n as nat) is Err,
    ensures
        ready(s) == ready_within(s, n as nat),
    decreases s.pending.len() - n,
{
    if n < s.pending.len() {
        lemma_ready_fails_with_prefix(s, n + 1);
    }
}

/// The pool without what is kept under the ids of the first `n` of the
/// transactions.
pub open spec fn without_ids(
    pool: Map<Seq<char>, TransactionView>,
    txs: Seq<TransactionView>,
    n: nat,
) -> Map<Seq<char>, TransactionView>
    decreases n,
{
    if n == 0 {
        pool
    } else {
        without_ids(pool, txs, (n - 1) as nat).remove(txs[n - 1].id)
    }
}

/// The order of the pool without the ids of the first `n` of the
/// transactions.
pub open spec fn without_keys(order: Seq<Seq<char>>, txs: Seq<TransactionView>, n: nat) -> Seq<
    Seq<char>,
>
    decreases n,
{
    if n == 0 {
        order
    } else {
        let earlier = without_keys(order, txs, (n - 1) as nat);
        if earlier.contains(txs[n - 1].id) {
            earlier.remove(earlier.index_of(txs[n - 1].id))
        } else {
            earlier
        }
    }
}

/// The news of a new block: its hash, for every known node but this one.
pub open spec fn block_news(s: ServerView, hash: Seq<char>) -> Seq<OutgoingView> {
    to_each(
        s.known_nodes,
        skip_set(Some(s.node_address), None),
        inv_request(s.node_address, Kind::Block, seq![hash]),
    )
}

/// The node before round `i`: the node at the start, or as the round
/// before left it.
pub open spec fn state_before(before: ServerView, states: Seq<ServerView>, i: int) -> ServerView {
    if i == 0 {
        before
    } else {
        states[i - 1]
    }
}

/// Rounds of mining: round `i` mined `blocks[i]` from the waiting
/// transactions that verified and left the node as `states[i]`. Every
/// round but the last left transactions in the pool, and the rounds
/// ended after `rounds` rounds, or when nothing in the pool verified, or
/// when a round left the pool empty.
pub open spec fn is_mining_trace(
    before: ServerView,
    blocks: Seq<BlockView>,
    states: Seq<ServerView>,
    rounds: nat,
) -> bool {
    &&& blocks.len() == states.len()
    &&& blocks.len() <= rounds
    &&& forall|i: int|
        0 <= i < blocks.len() ==> #[trigger] mined_pending(
            state_before(before, states, i),
            blocks[i],
            states[i],
        )
    &&& forall|i: int| 0 <= i < blocks.len() - 1 ==> (#[trigger] states[i]).mempool.dom().len() != 0
    &&& {
        let end = state_before(before, states, blocks.len() as int);
        ||| blocks.len() == rounds
        ||| ready(end) == Ok::<Seq<TransactionView>, Error>(Seq::empty())
        ||| (blocks.len() > 0 && end.mempool.dom().len() == 0)
    }
}

/// The news of the first `n` rounds, in order.
pub open spec fn news_of(blocks: Seq<BlockView>, states: Seq<ServerView>, n: nat) -> Seq<
    OutgoingView,
>
    decreases n,
{
    if n == 0 {
        Seq::empty()
    } else {
        news_of(blocks, states, (n - 1) as nat) + block_news(states[n - 1], blocks[n - 1].hash)
    }
}

/// In at most `rounds` rounds of mining the node `before` became the node
/// `after` and sent `sent`: the news of every block that was mined.
pub open spec fn mined_in_rounds(
    before: ServerView,
    after: ServerView,
    sent: Seq<OutgoingView>,
    rounds: nat,
) -> bool {
    exists|blocks: Seq<BlockView>, states: Seq<ServerView>|
        {
            &&& #[trigger] is_mining_trace(before, blocks, states, rounds)
            &&& after == state_before(before, states, blocks.len() as int)
            &&& sent == news_of(blocks, states, blocks.len())
        }
}

/// The news of the rounds are the same when further rounds follow.
proof fn lemma_news_of_prefix(
    blocks: Seq<BlockView>,
    states: Seq<ServerView>,
    block: BlockView,
    state: ServerView,
    n: nat,
)
    requires
        n <= blocks.len(),
        blocks.len() == states.len(),
    ensures
        news_of(blocks.push(block), states.push(state), n) == news_of(blocks, states, n),
    decreases n,
{
    if n > 0 {
        lemma_news_of_prefix(blocks, states, block, state, (n - 1) as nat);
    }
}

/// `block` was mined from the waiting transactions of `before`: it holds
/// the waiting transactions that verify and, last, a coinbase with a
/// random payload for the mining address; it links to the tip, stands one
/// higher, and is mined.
pub open spec fn mined_from_pool(before: ServerView, block: BlockView) -> bool {
    &&& ready(before) matches Ok(txs)
    &&& txs.len() > 0
    &&& address_key_hash(before.mining_address) matches Some(lock)
    &&& block.transactions.len() == txs.len() + 1
    &&& block.transactions.take(txs.len() as int) == txs
    &&& exists|payload: Seq<u8>|
        is_random_payload(payload) && block.transactions.last() == #[trigger] coinbase(lock, payload)
    &&& block.prev_block_hash == before.tip
    &&& best_height(before.chain, before.tip) matches Ok(height)
    &&& block.height == height + 1
    &&& crate::proofofwork::is_mined(block)
}

/// `block` was mined from the waiting transactions of `before`, and
/// `after` is the node with the block on its chain: the block was stored
/// and made the tip; the index of unspent outputs was rebuilt from the
/// chain; the mined transactions left the pool.
#[verifier::opaque]
pub open spec fn mined_pending(before: ServerView, block: BlockView, after: ServerView) -> bool {
    &&& mined_from_pool(before, block)
    &&& ready(before) matches Ok(txs)
    &&& after.chain == with_block(before.chain, block)
    &&& after.tip == block.hash
    &&& walk(after.chain, after.tip, after.chain.dom().len()) matches Ok(blocks)
    &&& after.unspent == index_of(unspent(blocks))
    &&& after.mempool == without_ids(before.mempool, txs, txs.len())
    &&& after.pending == without_keys(before.pending, txs, txs.len())
    &&& after.node_address == before.node_address
    &&& after.mining_address == before.mining_address
    &&& after.known_nodes == before.known_nodes
    &&& after.blocks_in_transit == before.blocks_in_transit
}

/// Why a round of mining is refused before anything is tried: a waiting
/// transaction that cannot be checked, a mining address that names no key
/// hash, a tip whose height cannot be read, or a chain that cannot grow
/// higher. `None` where nothing in the pool verifies, since there is
/// then nothing to refuse, and where the round is tried.
pub open spec fn mining_refusal(s: ServerView) -> Option<Error> {
    match ready(s) {
        Err(e) => Some(e),
        Ok(txs) => if txs.len() == 0 {
            None
        } else if address_key_hash(s.mining_address) is None {
            Some(Error::InvalidAddress)
        } else {
            match best_height(s.chain, s.tip) {
                Err(e) => Some(e),
                Ok(height) => if height == i32::MAX {
                    Some(Error::HeightOverflow)
                } else {
                    None
                },
            }
        },
    }
}

/// A round of mining is tried: some waiting transaction verifies and
/// nothing refuses the round.
pub open spec fn mining_is_tried(s: ServerView) -> bool {
    ready(s) matches Ok(txs) && txs.len() > 0 && mining_refusal(s) is None
}

/// A round of mining failed with `e` and left the node `before` as
/// `after`. Either the round was refused and nothing changed; or the
/// clock or the search for a nonce failed and nothing changed; or a block
/// was mined, stored and made the tip, and the chain could then not be
/// read to rebuild the index of unspent outputs.
#[verifier::opaque]
pub open spec fn failed_round(before: ServerView, after: ServerView, e: Error) -> bool {
    ||| mining_refusal(before) == Some(e) && after == before
    ||| {
        &&& mining_is_tried(before)
        &&& after == before
        &&& e == Error::ClockBeforeEpoch || e == Error::NonceSpaceExhausted
    }
    ||| exists|block: BlockView|
        {
            &&& #[trigger] mined_from_pool(before, block)
            &&& after == (ServerView {
                chain: with_block(before.chain, block),
                tip: block.hash,
                ..before
            })
            &&& walk(after.chain, after.tip, after.chain.dom().len()) == Err::<
                Seq<BlockView>,
                Error,
            >(e)
        }
}

/// Rounds of mining after which another round is due: round `i` mined
/// `blocks[i]` and left the node as `states[i]`, every round left
/// transactions in the pool, and fewer than `rounds` rounds were made.
pub open spec fn is_unfinished_trace(
    before: ServerView,
    blocks: Seq<BlockView>,
    states: Seq<ServerView>,
    rounds: nat,
) -> bool {
    &&& blocks.len() == states.len()
    &&& blocks.len() < rounds
    &&& forall|i: int|
        0 <= i < blocks.len() ==> #[trigger] mined_pending(
            state_before(before, states, i),
            blocks[i],
            states[i],
        )
    &&& forall|i: int| 0 <= i < blocks.len() ==> (#[trigger] states[i]).mempool.dom().len() != 0
}

/// Mining in at most `rounds` rounds failed with `e` and left the node
/// `before` as `after`: some rounds each mined a block, and the round
/// after them failed with `e`.
pub open spec fn failed_in_rounds(before: ServerView, after: ServerView, e: Error, rounds: nat) -> bool {
    exists|blocks: Seq<BlockView>, states: Seq<ServerView>|
        {
            &&& #[trigger] is_unfinished_trace(before, blocks, states, rounds)
            &&& failed_round(state_before(before, states, blocks.len() as int), after, e)
        }
}

/// Every waiting transaction that is ready verifies against the chain.
pub proof fn lemma_ready_verify(s: ServerView, n: nat)
    requires
        ready_within(s, n) is Ok,
    ensures
        forall|i: int|
            0 <= i < ready_within(s, n).unwrap().len() ==> chain_verify(
                s.chain,
                s.tip,
                s.chain.dom().len(),
                #[trigger] ready_within(s, n).unwrap()[i],
            ) == Ok::<bool, Error>(true),
    decreases n,
{
    if n > 0 {
        lemma_ready_verify(s, (n - 1) as nat);
        let earlier = ready_within(s, (n - 1) as nat).unwrap();
        let now = ready_within(s, n).unwrap();
        assert forall|i: int| 0 <= i < now.len() implies chain_verify(
            s.chain,
            s.tip,
            s.chain.dom().len(),
            #[trigger] now[i],
        ) == Ok::<bool, Error>(true) by {
            if i < earlier.len() {
                assert(now[i] == earlier[i]);
            }
        }
    }
}

/// What handling a transaction does. The transaction joins the pool. On
/// the central node, every other known node but the sender is told of
/// it. On another node that does not mine, or has fewer than two
/// transactions waiting, nothing more happens. A mining node mines in
/// rounds, at most as many as there are transactions in the pool, and
/// fails where one of the rounds fails.
pub open spec fn tx_handled(
    before: ServerView,
    payload: Seq<u8>,
    after: ServerView,
    r: Result<Vec<Outgoing>, Error>,
) -> bool {
    match dec_wrapper(payload) {
        None => after == before && agrees(r, Err(Error::Malformed)),
        Some((w, _)) => match dec_tx(w.item) {
            None => after == before && agrees(r, Err(Error::Malformed)),
            Some((tx, _)) => {
                let pooled = with_pending(before, tx);
                if is_central(pooled) {
                    after == pooled && agrees(
                        r,
                        Ok(
                            to_each(
                                pooled.known_nodes,
                                skip_set(Some(pooled.node_address), Some(w.addr_from)),
                                inv_request(pooled.node_address, Kind::Tx, seq![tx.id]),
                            ),
                        ),
                    )
                } else if !(pooled.mempool.dom().len() >= 2 && pooled.mining_address.len() > 0) {
                    after == pooled && agrees(r, Ok(Seq::empty()))
                } else {
                    &&& after.node_address == pooled.node_address
                    &&& after.mining_address == pooled.mining_address
                    &&& after.known_nodes == pooled.known_nodes
                    &&& after.blocks_in_transit == pooled.blocks_in_transit
                    &&& match r {
                        Ok(sent) => mined_in_rounds(
                            pooled,
                            after,
                            outgoing_views(sent@),
                            pooled.mempool.dom().len(),
                        ),
                        Err(e) => failed_in_rounds(pooled, after, e, pooled.mempool.dom().len()),
                    }
                }
            },
        },
    }
}

} // verus!
