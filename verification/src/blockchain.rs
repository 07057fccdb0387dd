//! The chain of blocks, kept in a key-value store: every block under its
//! hash, the hash of the newest block under the tip key, and a sentinel
//! that says that the store holds a chain. The chain is read from the tip
//! backwards by following each block's link to the one before it.

use vstd::prelude::*;
use vstd::string::*;
use vstd::utf8::*;

use crate::block::{mined_from, unmined, Block};
use crate::error::Error;
use crate::linkage::{holds_mined_blocks, in_good_order, HASH_LEN};
use crate::proofofwork::is_mined;
use crate::model::{
    dec_block, enc_block, position_of, sign_result, verify_result, BlockView, TransactionView,
    TxInputView,
};
use crate::store::{Store, StoreMap, StoreValue, ValueView};
use crate::table::Table;
use crate::transaction::{coinbase, input_views, position_by_id, tx_views, Transaction, TXOutputs};
use crate::unspent::{unspent, unspent_order, unspent_outputs};
use crate::wallet::address_key_hash;

verus! {

/// The key under which the hash of the newest block is kept.
pub const TIP_KEY: &'static str = "l";

/// The key of the sentinel that marks a store as holding a chain.
pub const CHECK_KEY: &'static str = "check_key";

/// The value of the sentinel.
pub const CHECK_VALUE: &'static str = "check_value";

/// The payload of the coinbase of the first block.
pub const GENESIS_COINBASE_DATA: &'static str =
    "The Times 03/Jan/2009 Chancellor on brink of second bailout for banks";

/// The block stored under `hash`: none where the key is absent, an error
/// where the value is text or does not decode to a block with
/// transactions.
pub open spec fn block_at(store: StoreMap, hash: Seq<char>) -> Result<Option<BlockView>, Error> {
    if !store.contains_key(hash) {
        Ok(None)
    } else {
        match store[hash] {
            ValueView::Bytes(bytes) => match dec_block(bytes) {
                Some((block, _)) => if block.transactions.len() > 0 {
                    Ok(Some(block))
                } else {
                    Err(Error::Malformed)
                },
                None => Err(Error::Malformed),
            },
            ValueView::Text(_) => Err(Error::WrongValueKind),
        }
    }
}

/// One step of reading the chain at `from`: the block there, or none at
/// the end of the chain. A walk may pass as many blocks as `fuel` says.
pub open spec fn step(store: StoreMap, from: Seq<char>, fuel: nat) -> Result<
    Option<BlockView>,
    Error,
> {
    match block_at(store, from) {
        Ok(Some(block)) => if fuel == 0 {
            Err(Error::CyclicChain)
        } else {
            Ok(Some(block))
        },
        other => other,
    }
}

/// The blocks from `from` back to the first one, newest first.
pub open spec fn walk(store: StoreMap, from: Seq<char>, fuel: nat) -> Result<Seq<BlockView>, Error>
    decreases fuel,
{
    match step(store, from, fuel) {
        Ok(Some(block)) => match walk(store, block.prev_block_hash, (fuel - 1) as nat) {
            Ok(rest) => Ok(seq![block] + rest),
            Err(e) => Err(e),
        },
        Ok(None) => Ok(Seq::empty()),
        Err(e) => Err(e),
    }
}

/// The first transaction with the given id that is met when reading the
/// chain from `from` backwards. Blocks behind it are not read.
pub open spec fn find_on_chain(store: StoreMap, from: Seq<char>, fuel: nat, id: Seq<char>) -> Result<
    TransactionView,
    Error,
>
    decreases fuel,
{
    match step(store, from, fuel) {
        Ok(Some(block)) => match position_of(block.transactions, id, 0) {
            Some(k) => Ok(block.transactions[k]),
            None => find_on_chain(store, block.prev_block_hash, (fuel - 1) as nat, id),
        },
        Ok(None) => Err(Error::TransactionNotFound),
        Err(e) => Err(e),
    }
}

/// The transactions that the inputs name, found on the chain one input
/// after the other; the first that cannot be found decides the error.
pub open spec fn gather(store: StoreMap, tip: Seq<char>, fuel: nat, inputs: Seq<TxInputView>) -> Result<
    Seq<TransactionView>,
    Error,
>
    decreases inputs.len(),
{
    if inputs.len() == 0 {
        Ok(Seq::empty())
    } else {
        match gather(store, tip, fuel, inputs.drop_last()) {
            Ok(found) => match find_on_chain(store, tip, fuel, inputs.last().tx_id) {
                Ok(t) => Ok(found.push(t)),
                Err(e) => Err(e),
            },
            Err(e) => Err(e),
        }
    }
}

/// The outcome of verifying a transaction against the chain.
pub open spec fn chain_verify(store: StoreMap, tip: Seq<char>, fuel: nat, t: TransactionView) -> Result<
    bool,
    Error,
> {
    if crate::model::is_coinbase(t) {
        Ok(true)
    } else {
        match gather(store, tip, fuel, t.v_in) {
            Ok(prev) => verify_result(t, prev),
            Err(e) => Err(e),
        }
    }
}

/// The outcome of signing a transaction against the chain.
pub open spec fn chain_sign(
    store: StoreMap,
    tip: Seq<char>,
    fuel: nat,
    t: TransactionView,
    pkcs8: Seq<u8>,
) -> Result<TransactionView, Error> {
    match gather(store, tip, fuel, t.v_in) {
        Ok(prev) => sign_result(t, prev, pkcs8),
        Err(e) => Err(e),
    }
}

/// The result of checking transactions for mining, one after the other:
/// the first that cannot be checked or does not verify decides the error.
pub open spec fn check_all(store: StoreMap, tip: Seq<char>, fuel: nat, txs: Seq<TransactionView>) -> Result<
    (),
    Error,
>
    decreases txs.len(),
{
    if txs.len() == 0 {
        Ok(())
    } else {
        match check_all(store, tip, fuel, txs.drop_last()) {
            Ok(()) => match chain_verify(store, tip, fuel, txs.last()) {
                Ok(true) => Ok(()),
                Ok(false) => Err(Error::InvalidTransaction),
                Err(e) => Err(e),
            },
            Err(e) => Err(e),
        }
    }
}

/// The block stored under `hash`, which must be there.
pub open spec fn stored_block(store: StoreMap, hash: Seq<char>) -> Result<BlockView, Error> {
    match block_at(store, hash) {
        Ok(Some(block)) => Ok(block),
        Ok(None) => Err(Error::BlockNotFound),
        Err(e) => Err(e),
    }
}

/// The height of the block at the tip.
pub open spec fn best_height(store: StoreMap, tip: Seq<char>) -> Result<i32, Error> {
    match stored_block(store, tip) {
        Ok(block) => Ok(block.height),
        Err(e) => Err(e),
    }
}

/// The store with `block` added and made the tip.
pub open spec fn with_block(store: StoreMap, block: BlockView) -> StoreMap {
    store.insert(block.hash, ValueView::Bytes(enc_block(block))).insert(
        TIP_KEY@,
        ValueView::Text(block.hash),
    )
}

/// The views of a list of blocks.
pub open spec fn block_views(blocks: Seq<Block>) -> Seq<BlockView> {
    blocks.map_values(|b: Block| b@)
}

/// Reads the block stored under `hash`.
fn load_block(store: &Store, hash: &str) -> (r: Result<Option<Block>, Error>)
    ensures
        match block_at(store@, hash@) {
            Ok(Some(v)) => r matches Ok(Some(b)) && b@ == v,
            Ok(None) => r matches Ok(None),
            Err(e) => r matches Err(x) && x == e,
        },
{
    match store.get(hash) {
        None => Ok(None),
        Some(StoreValue::Text(_)) => Err(Error::WrongValueKind),
        Some(StoreValue::Bytes(bytes)) => {
            match Block::deserialize(vstd::slice::slice_to_vec(bytes.as_slice())) {
                Ok(block) => Ok(Some(block)),
                Err(e) => Err(e),
            }
        },
    }
}

/// A chain of blocks in a store.
pub struct Blockchain {
    store: Store,
    tip: String,
}

/// A reader of the chain that hands out the blocks one by one, newest
/// first.
pub struct BlockchainIterator<'a> {
    store: &'a Store,
    tip: String,
    fuel: usize,
}

impl<'a> BlockchainIterator<'a> {
    /// The store that is read.
    pub closed spec fn store(&self) -> StoreMap {
        self.store@
    }

    /// The hash of the block that comes next.
    pub closed spec fn position(&self) -> Seq<char> {
        self.tip@
    }

    /// The number of blocks that may still be read.
    pub closed spec fn fuel(&self) -> nat {
        self.fuel as nat
    }

    /// Hands out the next block and moves to the one before it; `None`
    /// at the end of the chain. Fails where the stored value is no block,
    /// or where more blocks were read than the store has keys.
    pub fn next(&mut self) -> (r: Result<Option<Block>, Error>)
        ensures
            final(self).store() == old(self).store(),
            match step(old(self).store(), old(self).position(), old(self).fuel()) {
                Ok(Some(v)) => {
                    &&& r matches Ok(Some(b)) && b@ == v
                    &&& final(self).position() == v.prev_block_hash
                    &&& final(self).fuel() == old(self).fuel() - 1
                },
                Ok(None) => {
                    &&& r matches Ok(None)
                    &&& final(self).position() == old(self).position()
                    &&& final(self).fuel() == old(self).fuel()
                },
                Err(e) => {
                    &&& r matches Err(x) && x == e
                    &&& final(self).position() == old(self).position()
                    &&& final(self).fuel() == old(self).fuel()
                },
            },
    {
        match load_block(self.store, self.tip.as_str()) {
            Ok(Some(block)) => {
                if self.fuel == 0 {
                    return Err(Error::CyclicChain);
                }
                self.tip = block.prev_block_hash().to_owned();
                self.fuel = self.fuel - 1;
                Ok(Some(block))
            },
            Ok(None) => Ok(None),
            Err(e) => Err(e),
        }
    }
}

impl Blockchain {
    /// What the store holds.
    pub closed spec fn store_view(&self) -> StoreMap {
        self.store@
    }

    /// The hash of the newest block.
    pub closed spec fn tip(&self) -> Seq<char> {
        self.tip@
    }

    /// The number of keys in the store, which bounds how many blocks a
    /// walk from the tip may pass.
    pub open spec fn fuel(&self) -> nat {
        self.store_view().dom().len()
    }

    /// The blocks of the chain, newest first.
    pub open spec fn chain(&self) -> Result<Seq<BlockView>, Error> {
        walk(self.store_view(), self.tip(), self.fuel())
    }

    /// Opens the chain that a store holds. Fails where the store has no
    /// sentinel, no tip, or a tip that is not text.
    pub fn new(store: Store) -> (r: Result<Blockchain, Error>)
        ensures
            match r {
                Ok(bc) => {
                    &&& store@.contains_key(CHECK_KEY@)
                    &&& store@.contains_key(TIP_KEY@)
                    &&& store@[TIP_KEY@] == ValueView::Text(bc.tip())
                    &&& bc.store_view() == store@
                },
                Err(e) => {
                    &&& e == Error::NoBlockchain <==> !store@.contains_key(CHECK_KEY@)
                    &&& e == Error::TipMissing <==> store@.contains_key(CHECK_KEY@)
                        && !store@.contains_key(TIP_KEY@)
                    &&& e == Error::WrongValueKind <==> store@.contains_key(CHECK_KEY@)
                        && store@.contains_key(TIP_KEY@) && store@[TIP_KEY@] is Bytes
                    &&& e == Error::NoBlockchain || e == Error::TipMissing || e
                        == Error::WrongValueKind
                },
            },
    {
        if !store.contains_key(CHECK_KEY) {
            return Err(Error::NoBlockchain);
        }
        let tip = match store.get(TIP_KEY) {
            Some(StoreValue::Text(s)) => s.clone(),
            Some(StoreValue::Bytes(_)) => { return Err(Error::WrongValueKind); },
            None => { return Err(Error::TipMissing); },
        };
        Ok(Blockchain { store, tip })
    }

    /// Starts a chain in `store`: writes the sentinel, mines a first
    /// block whose coinbase pays `address`, stores it and makes it the
    /// tip. In a store that holds nothing under the empty key, the chain
    /// is then that one block. Fails where the store already holds a
    /// chain or the address names no key hash, and where mining fails.
    pub fn create(store: Store, address: &str) -> (r: Result<Blockchain, Error>)
        ensures
            match r {
                Ok(bc) => {
                    &&& !store@.contains_key(CHECK_KEY@)
                    &&& address_key_hash(address@) matches Some(lock)
                    &&& exists|genesis: BlockView, timestamp: u64|
                        {
                            &&& #[trigger] mined_from(
                                genesis,
                                unmined(
                                    timestamp,
                                    seq![coinbase(lock, encode_utf8(GENESIS_COINBASE_DATA@))],
                                    Seq::empty(),
                                    0,
                                ),
                            )
                            &&& bc.tip() == genesis.hash
                            &&& bc.store_view() == with_block(
                                store@.insert(CHECK_KEY@, ValueView::Text(CHECK_VALUE@)),
                                genesis,
                            )
                            &&& !store@.contains_key(Seq::<char>::empty()) ==> bc.chain() == Ok::<
                                Seq<BlockView>,
                                Error,
                            >(seq![genesis])
                        }
                },
                Err(e) => {
                    &&& e == Error::BlockchainExists <==> store@.contains_key(CHECK_KEY@)
                    &&& e == Error::InvalidAddress <==> !store@.contains_key(CHECK_KEY@)
                        && address_key_hash(address@) is None
                    &&& e == Error::BlockchainExists || e == Error::InvalidAddress || e
                        == Error::ClockBeforeEpoch || e == Error::NonceSpaceExhausted
                },
            },
            r matches Ok(bc) ==> (!store@.contains_key(Seq::<char>::empty()) ==> in_good_order(
                bc.store_view(),
                bc.tip(),
            )),
            r matches Ok(bc) ==> (holds_mined_blocks(store@) ==> holds_mined_blocks(
                bc.store_view(),
            )),
    {
        let mut store = store;
        if store.contains_key(CHECK_KEY) {
            return Err(Error::BlockchainExists);
        }
        let ghost given = store@;
        store.insert(CHECK_KEY.to_owned(), StoreValue::Text(CHECK_VALUE.to_owned()));
        let cbtx = match Transaction::coinbase_with_payload(
            address,
            vstd::slice::slice_to_vec(GENESIS_COINBASE_DATA.as_bytes()),
        ) {
            Ok(tx) => tx,
            Err(e) => { return Err(e); },
        };
        let genesis = match Block::new_genesis_block(cbtx) {
            Ok(b) => b,
            Err(e) => { return Err(e); },
        };
        let ghost marked = store@;
        store.insert(genesis.hash().to_owned(), StoreValue::Bytes(genesis.serialize()));
        store.insert(TIP_KEY.to_owned(), StoreValue::Text(genesis.hash().to_owned()));
        let tip = genesis.hash().to_owned();
        let bc = Blockchain { store, tip };
        proof {
            let lock = address_key_hash(address@).unwrap();
            let timestamp = choose|timestamp: u64|
                mined_from(
                    genesis@,
                    #[trigger] unmined(timestamp, seq![cbtx@], Seq::empty(), 0),
                );
            assert(mined_from(
                genesis@,
                unmined(
                    timestamp,
                    seq![coinbase(lock, encode_utf8(GENESIS_COINBASE_DATA@))],
                    Seq::empty(),
                    0,
                ),
            ));
            if holds_mined_blocks(given) {
                crate::linkage::lemma_text_added(given, CHECK_KEY@, CHECK_VALUE@);
                crate::linkage::lemma_mined_block_added(marked, genesis@);
            }
            if !given.contains_key(Seq::<char>::empty()) {
                reveal_strlit("check_key");
                assert(!marked.contains_key(Seq::<char>::empty()));
                assert(marked.dom().finite()) by {
                    assert(marked.dom() =~= given.dom().insert(CHECK_KEY@));
                }
                crate::linkage::lemma_first_block(marked, genesis@);
            }
        }
        Ok(bc)
    }

    /// Stores a block and makes it the tip, whatever the chain holds. The
    /// block can be read back from the store.
    pub fn add_block(&mut self, block: &Block)
        ensures
            final(self).store_view() == with_block(old(self).store_view(), block@),
            final(self).tip() == block@.hash,
            dec_block(enc_block(block@)) == Some((block@, Seq::<u8>::empty())),
            block@.transactions.len() > 0,
            holds_mined_blocks(old(self).store_view()) && is_mined(block@) ==> holds_mined_blocks(
                final(self).store_view(),
            ),
    {
        let ghost before = self.store_view();
        self.store.insert(block.hash().to_owned(), StoreValue::Bytes(block.serialize()));
        self.store.insert(TIP_KEY.to_owned(), StoreValue::Text(block.hash().to_owned()));
        self.tip = block.hash().to_owned();
        proof {
            if holds_mined_blocks(before) && is_mined(block@) {
                crate::linkage::lemma_mined_block_added(before, block@);
            }
        }
    }

    /// The height of the block at the tip.
    pub fn get_best_height(&self) -> (r: Result<i32, Error>)
        ensures
            r == best_height(self.store_view(), self.tip()),
    {
        match load_block(&self.store, self.tip.as_str()) {
            Ok(Some(block)) => Ok(block.height()),
            Ok(None) => Err(Error::BlockNotFound),
            Err(e) => Err(e),
        }
    }

    /// The block stored under `block_hash`.
    pub fn get_block(&self, block_hash: &str) -> (r: Result<Block, Error>)
        ensures
            match stored_block(self.store_view(), block_hash@) {
                Ok(v) => r matches Ok(b) && b@ == v,
                Err(e) => r matches Err(x) && x == e,
            },
    {
        match load_block(&self.store, block_hash) {
            Ok(Some(block)) => Ok(block),
            Ok(None) => Err(Error::BlockNotFound),
            Err(e) => Err(e),
        }
    }

    /// A reader that starts at the tip.
    pub fn iter<'a>(&'a self) -> (it: BlockchainIterator<'a>)
        ensures
            it.store() == self.store_view(),
            it.position() == self.tip(),
            it.fuel() == self.fuel(),
    {
        BlockchainIterator { store: &self.store, tip: self.tip.clone(), fuel: self.store.len() }
    }

    /// The blocks of the chain, newest first.
    pub fn blocks(&self) -> (r: Result<Vec<Block>, Error>)
        ensures
            match self.chain() {
                Ok(views) => r matches Ok(blocks) && block_views(blocks@) == views && blocks@.len()
                    == views.len(),
                Err(e) => r matches Err(x) && x == e,
            },
    {
        let mut it = self.iter();
        let mut blocks: Vec<Block> = Vec::new();
        let ghost store = self.store_view();
        assert(block_views(blocks@) =~= Seq::<BlockView>::empty());
        loop
            invariant
                it.store() == store,
                self.chain() == match walk(store, it.position(), it.fuel()) {
                    Ok(rest) => Ok(block_views(blocks@) + rest),
                    Err(e) => Err(e),
                },
            decreases it.fuel(),
        {
            let ghost before = block_views(blocks@);
            match it.next() {
                Ok(Some(block)) => {
                    proof {
                        assert(block_views(blocks@.push(block)) =~= before.push(block@));
                        if let Ok(rest) = walk(store, it.position(), it.fuel()) {
                            assert(before.push(block@) + rest =~= before + (seq![block@] + rest));
                        }
                    }
                    blocks.push(block);
                },
                Ok(None) => {
                    assert(before + Seq::<BlockView>::empty() =~= before);
                    return Ok(blocks);
                },
                Err(e) => {
                    return Err(e);
                },
            }
        }
    }

    /// The hashes of the blocks of the chain, newest first.
    pub fn get_block_hashes(&self) -> (r: Result<Vec<String>, Error>)
        ensures
            match self.chain() {
                Ok(views) => r matches Ok(hashes) && hashes@.len() == views.len() && forall|
                    i: int,
                |
                    0 <= i < views.len() ==> (#[trigger] hashes@[i])@ == views[i].hash,
                Err(e) => r matches Err(x) && x == e,
            },
    {
        let blocks = match self.blocks() {
            Ok(b) => b,
            Err(e) => { return Err(e); },
        };
        let mut hashes: Vec<String> = Vec::new();
        let mut i: usize = 0;
        while i < blocks.len()
            invariant
                i <= blocks@.len(),
                hashes@.len() == i,
                forall|j: int| 0 <= j < i ==> (#[trigger] hashes@[j])@ == blocks@[j]@.hash,
            decreases blocks@.len() - i,
        {
            hashes.push(blocks[i].hash().to_owned());
            i += 1;
        }
        Ok(hashes)
    }

    /// The unspent outputs of the chain, by the id of their transaction.
    pub fn find_utxo(&self) -> (r: Result<Table<TXOutputs>, Error>)
        ensures
            match self.chain() {
                Ok(views) => r matches Ok(table) && table@ == unspent(views) && table.keys()
                    == unspent_order(views),
                Err(e) => r matches Err(x) && x == e,
            },
    {
        match self.blocks() {
            Ok(blocks) => Ok(unspent_outputs(blocks.as_slice())),
            Err(e) => Err(e),
        }
    }

    /// The first transaction with the given id that is met when reading
    /// the chain from the tip backwards.
    pub fn find_transaction(&self, id: &str) -> (r: Result<Transaction, Error>)
        ensures
            match find_on_chain(self.store_view(), self.tip(), self.fuel(), id@) {
                Ok(v) => r matches Ok(t) && t@ == v,
                Err(e) => r matches Err(x) && x == e,
            },
    {
        let mut it = self.iter();
        let ghost store = self.store_view();
        loop
            invariant
                it.store() == store,
                store == self.store_view(),
                find_on_chain(store, self.tip(), self.fuel(), id@) == find_on_chain(
                    store,
                    it.position(),
                    it.fuel(),
                    id@,
                ),
            decreases it.fuel(),
        {
            match it.next() {
                Ok(Some(block)) => {
                    let txs = block.transactions();
                    match position_by_id(txs, id) {
                        Some(k) => {
                            assert(tx_views(txs@)[k as int] == txs@[k as int]@);
                            return Ok(txs[k].clone());
                        },
                        None => {},
                    }
                },
                Ok(None) => {
                    return Err(Error::TransactionNotFound);
                },
                Err(e) => {
                    return Err(e);
                },
            }
        }
    }

    /// Finds on the chain the transactions that the inputs of `tx` name.
    fn previous_transactions(&self, tx: &Transaction) -> (r: Result<Vec<Transaction>, Error>)
        ensures
            match gather(self.store_view(), self.tip(), self.fuel(), tx@.v_in) {
                Ok(views) => r matches Ok(found) && tx_views(found@) == views,
                Err(e) => r matches Err(x) && x == e,
            },
    {
        let inputs = tx.v_in();
        let ghost all = tx@.v_in;
        let ghost store = self.store_view();
        let mut found: Vec<Transaction> = Vec::new();
        let mut i: usize = 0;
        assert(tx_views(found@) =~= Seq::<TransactionView>::empty());
        assert(all.take(0) =~= Seq::<TxInputView>::empty());
        while i < inputs.len()
            invariant
                i <= inputs@.len(),
                all == input_views(inputs@),
                all == tx@.v_in,
                store == self.store_view(),
                gather(store, self.tip(), self.fuel(), all.take(i as int)) == Ok::<
                    Seq<TransactionView>,
                    Error,
                >(tx_views(found@)),
            decreases inputs@.len() - i,
        {
            let ghost before = tx_views(found@);
            proof {
                let next = all.take(i + 1);
                assert(next.drop_last() =~= all.take(i as int));
                assert(next.last() == inputs@[i as int]@);
            }
            match self.find_transaction(inputs[i].tx_id()) {
                Ok(t) => {
                    assert(tx_views(found@.push(t)) =~= before.push(t@));
                    found.push(t);
                },
                Err(e) => {
                    proof {
                        let next = all.take(i + 1);
                        assert(next.drop_last() =~= all.take(i as int));
                        assert(next.last().tx_id == inputs@[i as int]@.tx_id);
                        assert(gather(store, self.tip(), self.fuel(), next) == Err::<
                            Seq<TransactionView>,
                            Error,
                        >(e));
                        lemma_gather_fails_with_prefix(
                            store,
                            self.tip(),
                            self.fuel(),
                            all,
                            i + 1,
                        );
                    }
                    return Err(e);
                },
            }
            i += 1;
        }
        assert(all.take(i as int) =~= all);
        Ok(found)
    }

    /// Signs `tx` with the key of the PKCS#8 document, taking the
    /// transactions that its inputs name from the chain. On an error the
    /// transaction is left as it was.
    pub fn sign_transaction(&self, tx: &mut Transaction, pkcs8_bytes: &[u8]) -> (r: Result<(), Error>)
        ensures
            match chain_sign(
                self.store_view(),
                self.tip(),
                self.fuel(),
                old(tx)@,
                pkcs8_bytes@,
            ) {
                Ok(after) => r is Ok && final(tx)@ == after,
                Err(e) => r matches Err(x) && x == e && final(tx)@ == old(tx)@,
            },
            r is Ok && !crate::model::is_coinbase(old(tx)@) && crate::model::carries_key(
                old(tx)@,
                pkcs8_bytes@,
            ) ==> (gather(self.store_view(), self.tip(), self.fuel(), old(tx)@.v_in) matches Ok(
                prev,
            ) && crate::model::verifies(final(tx)@, prev)),
    {
        let prev_txs = match self.previous_transactions(tx) {
            Ok(p) => p,
            Err(e) => { return Err(e); },
        };
        tx.sign(pkcs8_bytes, prev_txs.as_slice())
    }

    /// Verifies `tx` against the transactions that its inputs name on the
    /// chain. A coinbase verifies without a look at the chain.
    pub fn verify_transaction(&self, tx: &Transaction) -> (r: Result<bool, Error>)
        ensures
            r == chain_verify(self.store_view(), self.tip(), self.fuel(), tx@),
    {
        if tx.is_coinbase() {
            return Ok(true);
        }
        let prev_txs = match self.previous_transactions(tx) {
            Ok(p) => p,
            Err(e) => { return Err(e); },
        };
        tx.verify(prev_txs.as_slice())
    }

    /// Mines a block of the transactions on top of the tip, stores it and
    /// makes it the tip. Every transaction must verify against the chain;
    /// the first that does not, or cannot be checked, decides the error,
    /// and on any error the chain is left as it was. The new block links
    /// to the former tip, stands one higher, and is mined. On a chain in
    /// good order that has no block under the new hash, the chain is
    /// then the new block and the chain as it was.
    pub fn mine_block(&mut self, transactions: Vec<Transaction>) -> (r: Result<Block, Error>)
        requires
            transactions@.len() > 0,
        ensures
            r is Err ==> final(self).store_view() == old(self).store_view() && final(self).tip()
                == old(self).tip(),
            r matches Ok(block) ==> {
                &&& block@.prev_block_hash == old(self).tip()
                &&& is_mined(block@)
                &&& block@.hash.len() == HASH_LEN
                &&& forall|i: int|
                    0 <= i < transactions@.len() ==> chain_verify(
                        old(self).store_view(),
                        old(self).tip(),
                        old(self).fuel(),
                        #[trigger] tx_views(transactions@)[i],
                    ) == Ok::<bool, Error>(true)
            },
            r matches Ok(block) && in_good_order(old(self).store_view(), old(self).tip())
                && !old(self).store_view().contains_key(block@.hash) ==> in_good_order(
                final(self).store_view(),
                final(self).tip(),
            ),
            match r {
                Ok(block) => in_good_order(old(self).store_view(), old(self).tip()) && !old(
                    self,
                ).store_view().contains_key(block@.hash) ==> (old(self).chain() matches Ok(below)
                    && final(self).chain() == Ok::<Seq<BlockView>, Error>(seq![block@] + below)),
                Err(_) => true,
            },
            holds_mined_blocks(old(self).store_view()) ==> holds_mined_blocks(
                final(self).store_view(),
            ),
            match check_all(
                old(self).store_view(),
                old(self).tip(),
                old(self).fuel(),
                tx_views(transactions@),
            ) {
                Err(e) => r matches Err(x) && x == e,
                Ok(()) => match best_height(old(self).store_view(), old(self).tip()) {
                    Err(e) => r matches Err(x) && x == e,
                    Ok(height) => if height == i32::MAX {
                        r matches Err(x) && x == Error::HeightOverflow
                    } else {
                        match r {
                            Ok(block) => {
                                &&& exists|timestamp: u64|
                                    mined_from(
                                        block@,
                                        #[trigger] unmined(
                                            timestamp,
                                            tx_views(transactions@),
                                            old(self).tip(),
                                            (height + 1) as i32,
                                        ),
                                    )
                                &&& final(self).store_view() == with_block(
                                    old(self).store_view(),
                                    block@,
                                )
                                &&& final(self).tip() == block@.hash
                            },
                            Err(e) => e == Error::ClockBeforeEpoch || e
                                == Error::NonceSpaceExhausted,
                        }
                    },
                },
            },
    {
        let ghost views = tx_views(transactions@);
        let ghost store = self.store_view();
        let mut i: usize = 0;
        assert(views.take(0) =~= Seq::<TransactionView>::empty());
        while i < transactions.len()
            invariant
                i <= transactions@.len(),
                views == tx_views(transactions@),
                store == self.store_view(),
                check_all(store, self.tip(), self.fuel(), views.take(i as int)) == Ok::<
                    (),
                    Error,
                >(()),
            decreases transactions@.len() - i,
        {
            proof {
                let next = views.take(i + 1);
                assert(next.drop_last() =~= views.take(i as int));
                assert(next.last() == transactions@[i as int]@);
            }
            match self.verify_transaction(&transactions[i]) {
                Ok(true) => {},
                Ok(false) => {
                    proof {
                        lemma_check_fails_with_prefix(store, self.tip(), self.fuel(), views, i + 1);
                    }
                    return Err(Error::InvalidTransaction);
                },
                Err(e) => {
                    proof {
                        lemma_check_fails_with_prefix(store, self.tip(), self.fuel(), views, i + 1);
                    }
                    return Err(e);
                },
            }
            i += 1;
        }
        assert(views.take(i as int) =~= views);
        let height = match self.get_best_height() {
            Ok(h) => h,
            Err(e) => { return Err(e); },
        };
        if height == i32::MAX {
            return Err(Error::HeightOverflow);
        }
        let new_block = match Block::new(transactions, self.tip.as_str(), height + 1) {
            Ok(b) => b,
            Err(e) => { return Err(e); },
        };
        let ghost before = self.store_view();
        let ghost tip = self.tip();
        self.add_block(&new_block);
        proof {
            lemma_checked_all_verify(before, tip, before.dom().len(), views);
            if in_good_order(before, tip) && !before.contains_key(new_block@.hash) {
                crate::linkage::lemma_block_on_top(before, tip, new_block@);
            }
        }
        Ok(new_block)
    }

    /// The store, as it is to be kept.
    pub fn store(&self) -> (r: &Store)
        ensures
            r@ == self.store_view(),
    {
        &self.store
    }
}

/// A chain that cannot be read has a value that is no block on the way,
/// or does not end.
pub proof fn lemma_walk_errors(store: StoreMap, from: Seq<char>, fuel: nat)
    ensures
        walk(store, from, fuel) matches Err(e) ==> e == Error::Malformed || e
            == Error::WrongValueKind || e == Error::CyclicChain,
    decreases fuel,
{
    match step(store, from, fuel) {
        Ok(Some(block)) => {
            lemma_walk_errors(store, block.prev_block_hash, (fuel - 1) as nat);
        },
        _ => {},
    }
}

/// Where the check of a list of transactions succeeds, every one of them
/// verifies against the chain.
pub proof fn lemma_checked_all_verify(
    store: StoreMap,
    tip: Seq<char>,
    fuel: nat,
    txs: Seq<TransactionView>,
)
    requires
        check_all(store, tip, fuel, txs) is Ok,
    ensures
        forall|i: int|
            0 <= i < txs.len() ==> chain_verify(store, tip, fuel, #[trigger] txs[i]) == Ok::<
                bool,
                Error,
            >(true),
    decreases txs.len(),
{
    if txs.len() > 0 {
        lemma_checked_all_verify(store, tip, fuel, txs.drop_last());
        assert forall|i: int| 0 <= i < txs.len() implies chain_verify(
            store,
            tip,
            fuel,
            #[trigger] txs[i],
        ) == Ok::<bool, Error>(true) by {
            if i < txs.len() - 1 {
                assert(txs[i] == txs.drop_last()[i]);
            } else {
                assert(txs[i] == txs.last());
            }
        }
    }
}

/// Where every transaction of a list verifies against the chain, the
/// check of the list succeeds.
pub proof fn lemma_verified_are_checked(
    store: StoreMap,
    tip: Seq<char>,
    fuel: nat,
    txs: Seq<TransactionView>,
)
    requires
        forall|i: int|
            0 <= i < txs.len() ==> chain_verify(store, tip, fuel, #[trigger] txs[i]) == Ok::<
                bool,
                Error,
            >(true),
    ensures
        check_all(store, tip, fuel, txs) == Ok::<(), Error>(()),
    decreases txs.len(),
{
    if txs.len() > 0 {
        let front = txs.drop_last();
        assert forall|i: int| 0 <= i < front.len() implies chain_verify(
            store,
            tip,
            fuel,
            #[trigger] front[i],
        ) == Ok::<bool, Error>(true) by {
            assert(front[i] == txs[i]);
        }
        lemma_verified_are_checked(store, tip, fuel, front);
        assert(txs.last() == txs[txs.len() - 1]);
    }
}

/// Once a prefix of the inputs cannot be gathered, the whole cannot, and
/// for the same reason.
pub proof fn lemma_gather_fails_with_prefix(
    store: StoreMap,
    tip: Seq<char>,
    fuel: nat,
    inputs: Seq<TxInputView>,
    n: int,
)
    requires
        0 <= n <= inputs.len(),
        gather(store, tip, fuel, inputs.take(n)) is Err,
    ensures
        gather(store, tip, fuel, inputs) == gather(store, tip, fuel, inputs.take(n)),
    decreases inputs.len() - n,
{
    if n == inputs.len() {
        assert(inputs.take(n) =~= inputs);
    } else {
        let next = inputs.take(n + 1);
        assert(next.drop_last() =~= inputs.take(n));
        lemma_gather_fails_with_prefix(store, tip, fuel, inputs, n + 1);
    }
}

/// Once a prefix of the transactions fails the check, the whole does,
/// and for the same reason.
pub proof fn lemma_check_fails_with_prefix(
    store: StoreMap,
    tip: Seq<char>,
    fuel: nat,
    txs: Seq<TransactionView>,
    n: int,
)
    requires
        0 <= n <= txs.len(),
        check_all(store, tip, fuel, txs.take(n)) is Err,
    ensures
        check_all(store, tip, fuel, txs) == check_all(store, tip, fuel, txs.take(n)),
    decreases txs.len() - n,
{
    if n == txs.len() {
        assert(txs.take(n) =~= txs);
    } else {
        let next = txs.take(n + 1);
        assert(next.drop_last() =~= txs.take(n));
        lemma_check_fails_with_prefix(store, tip, fuel, txs, n + 1);
    }
}

} // verus!
