//! Blocks: a batch of transactions linked to the block before it and
//! sealed by proof of work.

use vstd::prelude::*;
use vstd::string::*;

use crate::clock::unix_time;
use crate::codec::{
    dec_items, dec_seq, enc_items, enc_seq, enc_u64, get_i32, get_str, get_u64, put_i32, put_str,
    put_u64, reads,
};
use crate::error::Error;
use crate::merkle_tree::{byte_views, MerkleTree};
use crate::model::{
    dec_block, enc_block, lemma_block_round_trip, tx_decoder, tx_encoder, tx_fits, BlockView,
    TransactionView,
};
use crate::proofofwork::{
    header_hash, is_mined, meets_target, transactions_root, tx_encodings, MAX_NONCE, ProofOfWork,
};
use crate::text::to_hex;
use crate::transaction::{tx_views, Transaction};

verus! {

/// A block of the chain. It always holds at least one transaction.
#[derive(Debug)]
pub struct Block {
    timestamp: u64,
    transactions: Vec<Transaction>,
    prev_block_hash: String,
    hash: String,
    nonce: u64,
    height: i32,
}

impl View for Block {
    type V = BlockView;

    closed spec fn view(&self) -> BlockView {
        BlockView {
            timestamp: self.timestamp,
            transactions: tx_views(self.transactions@),
            prev_block_hash: self.prev_block_hash@,
            hash: self.hash@,
            nonce: self.nonce,
            height: self.height,
        }
    }
}

/// Copies a list of transactions.
pub fn clone_transactions(v: &[Transaction]) -> (r: Vec<Transaction>)
    ensures
        tx_views(r@) == tx_views(v@),
{
    let mut r: Vec<Transaction> = Vec::new();
    let mut i: usize = 0;
    while i < v.len()
        invariant
            i <= v@.len(),
            r@.len() == i,
            forall|j: int| 0 <= j < i ==> (#[trigger] r@[j])@ == v@[j]@,
        decreases v@.len() - i,
    {
        r.push(v[i].clone());
        i += 1;
    }
    assert(tx_views(r@) =~= tx_views(v@));
    r
}

impl Clone for Block {
    fn clone(&self) -> (r: Block)
        ensures
            r@ == self@,
    {
        proof {
            use_type_invariant(self);
        }
        let transactions = clone_transactions(self.transactions.as_slice());
        assert(tx_views(transactions@).len() == transactions@.len());
        Block {
            timestamp: self.timestamp,
            transactions,
            prev_block_hash: self.prev_block_hash.clone(),
            hash: self.hash.clone(),
            nonce: self.nonce,
            height: self.height,
        }
    }
}

/// What a block is before it is mined: the given fields, no hash, nonce
/// zero.
pub open spec fn unmined(
    timestamp: u64,
    transactions: Seq<TransactionView>,
    prev_block_hash: Seq<char>,
    height: i32,
) -> BlockView {
    BlockView {
        timestamp,
        transactions,
        prev_block_hash,
        hash: Seq::empty(),
        nonce: 0,
        height,
    }
}

/// `b` is the block that mining makes of `draft`: the same fields, the
/// first nonce whose header hash meets the target, and that hash.
pub open spec fn mined_from(b: BlockView, draft: BlockView) -> bool {
    &&& b == (BlockView { hash: b.hash, nonce: b.nonce, ..draft })
    &&& is_mined(b)
    &&& b.nonce < MAX_NONCE
    &&& forall|m: u64| m < b.nonce ==> !meets_target(#[trigger] header_hash(draft, m))
}

impl Block {
    #[verifier::type_invariant]
    spec fn holds_transactions(&self) -> bool {
        self.transactions@.len() > 0
    }

    /// Makes a block of the transactions on top of the block with hash
    /// `prev_block_hash`, stamped with the current time, and mines it.
    /// Fails where the clock reads a time before the epoch or no nonce
    /// meets the target.
    pub fn new(transactions: Vec<Transaction>, prev_block_hash: &str, height: i32) -> (r: Result<
        Block,
        Error,
    >)
        requires
            transactions@.len() > 0,
        ensures
            match r {
                Ok(block) => exists|timestamp: u64|
                    mined_from(
                        block@,
                        #[trigger] unmined(
                            timestamp,
                            tx_views(transactions@),
                            prev_block_hash@,
                            height,
                        ),
                    ),
                Err(e) => e == Error::ClockBeforeEpoch || e == Error::NonceSpaceExhausted,
            },
            r matches Ok(block) ==> block@.hash.len() == crate::proofofwork::TARGET_LEN,
    {
        let timestamp = match unix_time() {
            Ok(t) => t,
            Err(e) => { return Err(e); },
        };
        let ghost draft = unmined(timestamp, tx_views(transactions@), prev_block_hash@, height);
        let r = Self::mine(timestamp, transactions, prev_block_hash, height);
        proof {
            if r is Ok {
                assert(mined_from(r.unwrap()@, draft));
            }
        }
        r
    }

    /// Makes a block with the given timestamp and mines it: tries the
    /// nonces from zero upwards and records the first whose header hash
    /// meets the target, with that hash.
    pub fn mine(
        timestamp: u64,
        transactions: Vec<Transaction>,
        prev_block_hash: &str,
        height: i32,
    ) -> (r: Result<Block, Error>)
        requires
            transactions@.len() > 0,
        ensures
            match r {
                Ok(block) => mined_from(
                    block@,
                    unmined(timestamp, tx_views(transactions@), prev_block_hash@, height),
                ) && block@.hash.len() == crate::proofofwork::TARGET_LEN,
                Err(e) => {
                    &&& e == Error::NonceSpaceExhausted
                    &&& forall|m: u64|
                        m < MAX_NONCE ==> !meets_target(
                            #[trigger] header_hash(
                                unmined(
                                    timestamp,
                                    tx_views(transactions@),
                                    prev_block_hash@,
                                    height,
                                ),
                                m,
                            ),
                        )
                },
            },
    {
        let mut block = Block {
            timestamp,
            transactions,
            prev_block_hash: prev_block_hash.to_owned(),
            hash: String::new(),
            nonce: 0,
            height,
        };
        let ghost draft = block@;
        assert(draft == unmined(timestamp, tx_views(transactions@), prev_block_hash@, height));
        let found = {
            let pow = ProofOfWork::new(&block);
            pow.run()
        };
        match found {
            Ok((nonce, hash)) => {
                block.hash = hash;
                block.nonce = nonce;
                proof {
                    assert(header_hash(block@, nonce) == header_hash(draft, nonce));
                }
                Ok(block)
            },
            Err(e) => Err(e),
        }
    }

    /// The first block of a chain: it holds the coinbase alone, has no
    /// predecessor and height zero.
    pub fn new_genesis_block(coinbase: Transaction) -> (r: Result<Block, Error>)
        ensures
            match r {
                Ok(block) => exists|timestamp: u64|
                    mined_from(
                        block@,
                        #[trigger] unmined(timestamp, seq![coinbase@], Seq::empty(), 0),
                    ),
                Err(e) => e == Error::ClockBeforeEpoch || e == Error::NonceSpaceExhausted,
            },
            r matches Ok(block) ==> block@.hash.len() == crate::proofofwork::TARGET_LEN,
    {
        let mut transactions: Vec<Transaction> = Vec::new();
        transactions.push(coinbase);
        proof {
            reveal_strlit("");
            assert(""@ =~= Seq::<char>::empty());
            assert(tx_views(transactions@) =~= seq![coinbase@]);
        }
        Block::new(transactions, "", 0)
    }

    /// The encoding of the block. Decoding it gives the block back.
    pub fn serialize(&self) -> (out: Vec<u8>)
        ensures
            out@ == enc_block(self@),
            dec_block(out@) == Some((self@, Seq::<u8>::empty())),
            self@.transactions.len() > 0,
    {
        proof {
            use_type_invariant(self);
        }
        let mut out: Vec<u8> = Vec::new();
        put_u64(&mut out, self.timestamp);
        put_transactions(&mut out, self.transactions.as_slice());
        put_str(&mut out, self.prev_block_hash.as_str());
        put_str(&mut out, self.hash.as_str());
        put_u64(&mut out, self.nonce);
        put_i32(&mut out, self.height);
        proof {
            assert(out@ =~= enc_block(self@));
            assert(self.transactions@.len() == self.transactions.len());
            lemma_block_round_trip(self@, Seq::<u8>::empty());
            assert(enc_block(self@) + Seq::<u8>::empty() =~= enc_block(self@));
        }
        out
    }

    /// Decodes a block from the start of `bytes`; bytes after it are
    /// ignored. A block without transactions is refused.
    pub fn deserialize(bytes: Vec<u8>) -> (r: Result<Block, Error>)
        ensures
            match r {
                Ok(block) => dec_block(bytes@) matches Some((v, _)) && v == block@
                    && v.transactions.len() > 0,
                Err(e) => e == Error::Malformed && !(dec_block(bytes@) matches Some((v, _))
                    && v.transactions.len() > 0),
            },
    {
        let b = bytes.as_slice();
        assert(b@.skip(0) =~= b@);
        let (timestamp, p1) = match get_u64(b, 0) {
            Some(x) => x,
            None => { return Err(Error::Malformed); },
        };
        let (transactions, p2) = match get_transactions(b, p1) {
            Some(x) => x,
            None => { return Err(Error::Malformed); },
        };
        let (prev_block_hash, p3) = match get_str(b, p2) {
            Some(x) => x,
            None => { return Err(Error::Malformed); },
        };
        let (hash, p4) = match get_str(b, p3) {
            Some(x) => x,
            None => { return Err(Error::Malformed); },
        };
        let (nonce, p5) = match get_u64(b, p4) {
            Some(x) => x,
            None => { return Err(Error::Malformed); },
        };
        let (height, _) = match get_i32(b, p5) {
            Some(x) => x,
            None => { return Err(Error::Malformed); },
        };
        if transactions.len() == 0 {
            return Err(Error::Malformed);
        }
        Ok(Block { timestamp, transactions, prev_block_hash, hash, nonce, height })
    }

    /// The Merkle root of the encoded transactions, in hexadecimal.
    pub fn hash_transactions(&self) -> (root: String)
        ensures
            root@ == transactions_root(self@.transactions),
    {
        proof {
            use_type_invariant(self);
        }
        let mut encodings: Vec<Vec<u8>> = Vec::new();
        let mut i: usize = 0;
        while i < self.transactions.len()
            invariant
                i <= self.transactions@.len(),
                encodings@.len() == i,
                forall|j: int|
                    0 <= j < i ==> (#[trigger] encodings@[j])@ == crate::model::enc_tx(
                        self.transactions@[j]@,
                    ),
            decreases self.transactions@.len() - i,
        {
            encodings.push(self.transactions[i].serialize());
            i += 1;
        }
        assert(byte_views(encodings@) =~= tx_encodings(self@.transactions));
        let tree = MerkleTree::new(&mut encodings);
        to_hex(tree.data().as_slice())
    }

    /// The time at which the block was made, in seconds since the epoch.
    pub fn timestamp(&self) -> (r: u64)
        ensures
            r == self@.timestamp,
    {
        self.timestamp
    }

    /// The transactions of the block, of which there is at least one.
    pub fn transactions(&self) -> (r: &[Transaction])
        ensures
            tx_views(r@) == self@.transactions,
            r@.len() > 0,
            r@.len() == self@.transactions.len(),
            forall|i: int| 0 <= i < r@.len() ==> (#[trigger] r@[i])@ == self@.transactions[i],
    {
        proof {
            use_type_invariant(self);
        }
        self.transactions.as_slice()
    }

    /// The hash of the block before this one; empty for the first block.
    pub fn prev_block_hash(&self) -> (r: &str)
        ensures
            r@ == self@.prev_block_hash,
    {
        self.prev_block_hash.as_str()
    }

    /// The hash that the block records.
    pub fn hash(&self) -> (r: &str)
        ensures
            r@ == self@.hash,
    {
        self.hash.as_str()
    }

    /// The nonce that the block records.
    pub fn nonce(&self) -> (r: u64)
        ensures
            r == self@.nonce,
    {
        self.nonce
    }

    /// The height of the block in its chain; zero for the first block.
    pub fn height(&self) -> (r: i32)
        ensures
            r == self@.height,
    {
        self.height
    }
}

fn put_transactions(out: &mut Vec<u8>, v: &[Transaction])
    ensures
        final(out)@ == old(out)@ + enc_seq(tx_views(v@), tx_encoder()),
        forall|i: int| 0 <= i < v@.len() ==> tx_fits(#[trigger] tx_views(v@)[i]),
{
    put_u64(out, v.len() as u64);
    let ghost views = tx_views(v@);
    let ghost head = old(out)@ + enc_u64(v@.len() as u64);
    let mut i: usize = 0;
    assert(enc_items(views.take(0), tx_encoder()) =~= Seq::<u8>::empty());
    assert(out@ =~= head + enc_items(views.take(0), tx_encoder()));
    while i < v.len()
        invariant
            i <= v@.len(),
            views == tx_views(v@),
            out@ == head + enc_items(views.take(i as int), tx_encoder()),
            forall|j: int| 0 <= j < i ==> tx_fits(#[trigger] views[j]),
        decreases v@.len() - i,
    {
        v[i].put(out);
        i += 1;
        proof {
            let t = views.take(i as int);
            assert(t.drop_last() =~= views.take(i - 1));
            assert(t.last() == v@[i - 1]@);
            assert(out@ =~= head + enc_items(t, tx_encoder()));
        }
    }
    assert(views.take(i as int) =~= views);
    assert(out@ =~= old(out)@ + enc_seq(views, tx_encoder()));
}

fn get_transactions(bytes: &[u8], pos: usize) -> (r: Option<(Vec<Transaction>, usize)>)
    requires
        pos <= bytes@.len(),
    ensures
        reads(
            bytes@,
            pos as int,
            dec_seq(bytes@.skip(pos as int), tx_decoder()),
            match r {
                Some((v, next)) => Some((tx_views(v@), next)),
                None => None,
            },
        ),
{
    let (n, start) = match get_u64(bytes, pos) {
        Some(x) => x,
        None => { return None; },
    };
    let ghost whole = dec_items(bytes@.skip(start as int), n as nat, tx_decoder());
    let mut got: Vec<Transaction> = Vec::new();
    let mut cur: usize = start;
    let mut i: u64 = 0;
    assert(tx_views(got@) =~= Seq::<TransactionView>::empty());
    while i < n
        invariant
            i <= n,
            pos <= cur <= bytes@.len(),
            whole == dec_seq(bytes@.skip(pos as int), tx_decoder()),
            whole == match dec_items(bytes@.skip(cur as int), (n - i) as nat, tx_decoder()) {
                Some((xs, rest)) => Some((tx_views(got@) + xs, rest)),
                None => None,
            },
        decreases n - i,
    {
        let ghost before = tx_views(got@);
        match Transaction::get(bytes, cur) {
            Some((x, next)) => {
                proof {
                    let tail = dec_items(bytes@.skip(next as int), (n - i - 1) as nat, tx_decoder());
                    if let Some((xs, rest)) = tail {
                        assert(before.push(x@) + xs =~= before + (seq![x@] + xs));
                    }
                    assert(tx_views(got@.push(x)) =~= before.push(x@));
                }
                got.push(x);
                cur = next;
                i += 1;
            },
            None => {
                return None;
            },
        }
    }
    assert(tx_views(got@) + Seq::<TransactionView>::empty() =~= tx_views(got@));
    Some((got, cur))
}

} // verus!
