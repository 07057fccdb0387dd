//! The order that a chain is in when it was started by this node and
//! grown by mining: every block is stored under its hash, is mined,
//! stands one higher than the block before it and names that block's
//! hash, down to the first block, which names none. And what holds of a
//! store in which every block is mined and stored under its hash,
//! whatever else it holds.

use vstd::prelude::*;
use vstd::string::*;

use crate::blockchain::{block_at, step, walk, with_block, TIP_KEY};
use crate::error::Error;
use crate::model::{dec_block, enc_block, BlockView};
use crate::proofofwork::{is_mined, nonce_is_valid};
use crate::store::{StoreMap, ValueView};

verus! {

/// The number of characters of a block hash.
pub const HASH_LEN: usize = 64;

/// The blocks, newest first, are linked: each names the hash of the next
/// and stands one higher, and the last names no block and has height
/// zero.
pub open spec fn linked(blocks: Seq<BlockView>) -> bool {
    &&& blocks.len() > 0
    &&& forall|i: int|
        0 <= i < blocks.len() - 1 ==> (#[trigger] blocks[i]).prev_block_hash == blocks[i + 1].hash
    &&& forall|i: int| 0 <= i < blocks.len() ==> (#[trigger] blocks[i]).height == blocks.len() - 1 - i
    &&& blocks.last().prev_block_hash.len() == 0
}

/// Every block is mined and has a hash of the length of a digest.
pub open spec fn all_mined(blocks: Seq<BlockView>) -> bool {
    forall|i: int|
        0 <= i < blocks.len() ==> is_mined(#[trigger] blocks[i]) && blocks[i].hash.len() == HASH_LEN
}

/// Every block that the store holds is mined and stored under its hash.
pub open spec fn holds_mined_blocks(store: StoreMap) -> bool {
    forall|key: Seq<char>|
        match #[trigger] block_at(store, key) {
            Ok(Some(block)) => is_mined(block) && block.hash == key,
            _ => true,
        }
}

/// A store of mined blocks is one still when a mined block is added and
/// made the tip.
pub proof fn lemma_mined_block_added(store: StoreMap, block: BlockView)
    requires
        holds_mined_blocks(store),
        is_mined(block),
        dec_block(enc_block(block)) matches Some((decoded, _)) && decoded == block,
    ensures
        holds_mined_blocks(with_block(store, block)),
{
    let after = with_block(store, block);
    assert forall|key: Seq<char>|
        match #[trigger] block_at(after, key) {
            Ok(Some(b)) => is_mined(b) && b.hash == key,
            _ => true,
        } by {
        if key != TIP_KEY@ && key != block.hash {
            assert(block_at(after, key) == block_at(store, key));
        }
    }
}

/// A store of mined blocks is one still when a text is stored.
pub proof fn lemma_text_added(store: StoreMap, key: Seq<char>, text: Seq<char>)
    requires
        holds_mined_blocks(store),
    ensures
        holds_mined_blocks(store.insert(key, ValueView::Text(text))),
{
    let after = store.insert(key, ValueView::Text(text));
    assert forall|other: Seq<char>|
        match #[trigger] block_at(after, other) {
            Ok(Some(b)) => is_mined(b) && b.hash == other,
            _ => true,
        } by {
        if other != key {
            assert(block_at(after, other) == block_at(store, other));
        }
    }
}

/// In a store of mined blocks, every block that a walk reads is mined,
/// so that its nonce is valid; it is stored under its hash; and it names
/// the hash of the block that is read after it. The walk starts at the
/// block with the hash `from`.
pub proof fn lemma_blocks_read_back(store: StoreMap, from: Seq<char>, fuel: nat, i: int)
    requires
        holds_mined_blocks(store),
        walk(store, from, fuel) matches Ok(blocks) && 0 <= i < blocks.len(),
    ensures
        ({
            let blocks = walk(store, from, fuel).unwrap();
            &&& is_mined(blocks[i])
            &&& nonce_is_valid(blocks[i])
            &&& block_at(store, blocks[i].hash) == Ok::<Option<BlockView>, Error>(Some(blocks[i]))
            &&& blocks[0].hash == from
            &&& i + 1 < blocks.len() ==> blocks[i].prev_block_hash == blocks[i + 1].hash
        }),
    decreases fuel,
{
    let blocks = walk(store, from, fuel).unwrap();
    match step(store, from, fuel) {
        Ok(Some(block)) => {
            let rest = walk(store, block.prev_block_hash, (fuel - 1) as nat).unwrap();
            assert(blocks == seq![block] + rest);
            assert(block_at(store, from) == Ok::<Option<BlockView>, Error>(Some(block)));
            assert(blocks[0] == block);
            if rest.len() > 0 {
                lemma_blocks_read_back(store, block.prev_block_hash, (fuel - 1) as nat, 0);
                assert(blocks[1] == rest[0]);
            }
            if i > 0 {
                lemma_blocks_read_back(store, block.prev_block_hash, (fuel - 1) as nat, i - 1);
                assert(blocks[i] == rest[i - 1]);
                if i + 1 < blocks.len() {
                    assert(blocks[i + 1] == rest[i]);
                }
            }
        },
        _ => {},
    }
}

/// A store holds a chain in good order from `tip` on.
pub open spec fn in_good_order(store: StoreMap, tip: Seq<char>) -> bool {
    &&& store.dom().finite()
    &&& store.contains_key(TIP_KEY@)
    &&& store[TIP_KEY@] is Text
    &&& walk(store, tip, store.dom().len()) matches Ok(blocks)
    &&& linked(blocks)
    &&& all_mined(blocks)
    &&& blocks[0].hash == tip
    &&& forall|i: int| 0 <= i < blocks.len() ==> store.contains_key((#[trigger] blocks[i]).hash)
}

/// In a chain in good order every block above the first names the hash
/// of the block below it, and every block is mined.
pub proof fn lemma_good_order_links(store: StoreMap, tip: Seq<char>, h: int)
    requires
        in_good_order(store, tip),
        walk(store, tip, store.dom().len()) matches Ok(blocks) && 0 < h < blocks.len(),
    ensures
        ({
            let blocks = walk(store, tip, store.dom().len()).unwrap();
            let above = blocks[blocks.len() - 1 - h];
            let below = blocks[blocks.len() - h];
            &&& above.height == h
            &&& below.height == h - 1
            &&& above.prev_block_hash == below.hash
            &&& is_mined(above)
        }),
{
    let blocks = walk(store, tip, store.dom().len()).unwrap();
    let i = blocks.len() - 1 - h;
    assert(blocks[i].prev_block_hash == blocks[i + 1].hash);
    assert(blocks[i + 1].height == blocks.len() - 1 - (i + 1));
}

/// The keys that a walk asks the store for: the hash it starts from, and
/// the hash that each block names.
pub open spec fn asked(from: Seq<char>, blocks: Seq<BlockView>, key: Seq<char>) -> bool {
    key == from || exists|i: int| 0 <= i < blocks.len() && (#[trigger] blocks[i]).prev_block_hash == key
}

/// A walk that ends gives the same blocks in every store that agrees with
/// the store on the keys that the walk asks for.
pub proof fn lemma_walk_reads_asked_keys(
    store: StoreMap,
    other: StoreMap,
    from: Seq<char>,
    fuel: nat,
)
    requires
        walk(store, from, fuel) matches Ok(blocks) && forall|key: Seq<char>| #[trigger]
            asked(from, blocks, key) ==> (store.contains_key(key) == other.contains_key(key) && (
            store.contains_key(key) ==> store[key] == other[key])),
    ensures
        walk(other, from, fuel) == walk(store, from, fuel),
    decreases fuel,
{
    let blocks = walk(store, from, fuel).unwrap();
    assert(asked(from, blocks, from));
    assert(block_at(store, from) == block_at(other, from));
    match step(store, from, fuel) {
        Ok(Some(block)) => {
            let rest = walk(store, block.prev_block_hash, (fuel - 1) as nat).unwrap();
            assert(blocks == seq![block] + rest);
            assert forall|key: Seq<char>| #[trigger]
                asked(block.prev_block_hash, rest, key) implies asked(from, blocks, key) by {
                if key == block.prev_block_hash {
                    assert(blocks[0].prev_block_hash == key);
                } else {
                    let i = choose|i: int|
                        0 <= i < rest.len() && (#[trigger] rest[i]).prev_block_hash == key;
                    assert(blocks[i + 1] == rest[i]);
                    assert(blocks[i + 1].prev_block_hash == key);
                }
            }
            lemma_walk_reads_asked_keys(
                store,
                other,
                block.prev_block_hash,
                (fuel - 1) as nat,
            );
        },
        _ => {},
    }
}

/// The store with one more key has at least as many keys.
proof fn lemma_insert_keeps_count(store: StoreMap, key: Seq<char>, value: ValueView)
    requires
        store.dom().finite(),
    ensures
        store.insert(key, value).dom().finite(),
        store.dom().len() <= store.insert(key, value).dom().len() <= store.dom().len() + 1,
        store.contains_key(key) ==> store.insert(key, value).dom().len() == store.dom().len(),
        !store.contains_key(key) ==> store.insert(key, value).dom().len() == store.dom().len() + 1,
{
    assert(store.insert(key, value).dom() =~= store.dom().insert(key));
}

/// A block that is put on top of a chain in good order, names its tip,
/// stands one higher, is mined, and has a hash that is not yet a key,
/// gives a chain in good order again: the block, then the chain as it
/// was.
pub proof fn lemma_block_on_top(store: StoreMap, tip: Seq<char>, block: BlockView)
    requires
        in_good_order(store, tip),
        block.prev_block_hash == tip,
        is_mined(block),
        block.hash.len() == HASH_LEN,
        block.transactions.len() > 0,
        dec_block(enc_block(block)) matches Some((decoded, _)) && decoded == block,
        !store.contains_key(block.hash),
        walk(store, tip, store.dom().len()) matches Ok(blocks) && block.height == blocks[0].height
            + 1,
    ensures
        in_good_order(with_block(store, block), block.hash),
        walk(with_block(store, block), block.hash, with_block(store, block).dom().len()) == Ok::<
            Seq<BlockView>,
            Error,
        >(seq![block] + walk(store, tip, store.dom().len()).unwrap()),
{
    reveal_strlit("l");
    let blocks = walk(store, tip, store.dom().len()).unwrap();
    let bytes = ValueView::Bytes(enc_block(block));
    let first = store.insert(block.hash, bytes);
    let after = with_block(store, block);
    assert(after == first.insert(TIP_KEY@, ValueView::Text(block.hash)));
    lemma_insert_keeps_count(store, block.hash, bytes);
    lemma_insert_keeps_count(first, TIP_KEY@, ValueView::Text(block.hash));
    let fuel = store.dom().len();
    let more = after.dom().len();
    assert(more == fuel + 1);
    assert(block.hash != TIP_KEY@);
    // The walk of the chain as it was asks for neither of the changed keys.
    assert forall|key: Seq<char>| #[trigger] asked(tip, blocks, key) implies (store.contains_key(
        key,
    ) == after.contains_key(key) && (store.contains_key(key) ==> store[key] == after[key])) by {
        lemma_asked_keys(store, tip, blocks, key);
        assert(key != block.hash);
        assert(key != TIP_KEY@);
    }
    lemma_walk_reads_asked_keys(store, after, tip, fuel);
    assert(block_at(after, block.hash) == Ok::<Option<BlockView>, Error>(Some(block)));
    let all = seq![block] + blocks;
    assert(walk(after, block.hash, more) == Ok::<Seq<BlockView>, Error>(all));
    assert(all[0] == block);
    assert forall|i: int| 0 <= i < all.len() - 1 implies (#[trigger] all[i]).prev_block_hash
        == all[i + 1].hash by {
        if i > 0 {
            assert(all[i] == blocks[i - 1]);
            assert(all[i + 1] == blocks[i]);
        } else {
            assert(all[1] == blocks[0]);
        }
    }
    assert forall|i: int| 0 <= i < all.len() implies (#[trigger] all[i]).height == all.len() - 1
        - i by {
        if i > 0 {
            assert(all[i] == blocks[i - 1]);
        }
    }
    assert(all.last() == blocks.last());
    assert forall|i: int| 0 <= i < all.len() implies is_mined(#[trigger] all[i])
        && all[i].hash.len() == HASH_LEN && after.contains_key(all[i].hash) by {
        if i > 0 {
            assert(all[i] == blocks[i - 1]);
        }
    }
}

/// In a chain in good order a walk asks only for the hashes of its
/// blocks, which are keys of the store and hold blocks, and for the empty
/// hash.
proof fn lemma_asked_keys(store: StoreMap, tip: Seq<char>, blocks: Seq<BlockView>, key: Seq<char>)
    requires
        in_good_order(store, tip),
        walk(store, tip, store.dom().len()) == Ok::<Seq<BlockView>, Error>(blocks),
        asked(tip, blocks, key),
    ensures
        key.len() == 0 || (store.contains_key(key) && key.len() == HASH_LEN),
{
    if key == tip {
        assert(blocks[0].hash == tip);
    } else {
        let i = choose|i: int| 0 <= i < blocks.len() && (#[trigger] blocks[i]).prev_block_hash == key;
        if i < blocks.len() - 1 {
            assert(blocks[i].prev_block_hash == blocks[i + 1].hash);
            assert(store.contains_key(blocks[i + 1].hash));
        } else {
            assert(blocks[i] == blocks.last());
        }
    }
}

/// A first block that is stored in a store without a block under the
/// empty hash, and made the tip, is a chain in good order.
pub proof fn lemma_first_block(store: StoreMap, block: BlockView)
    requires
        store.dom().finite(),
        !store.contains_key(Seq::<char>::empty()),
        block.prev_block_hash.len() == 0,
        block.height == 0,
        is_mined(block),
        block.hash.len() == HASH_LEN,
        block.transactions.len() > 0,
        dec_block(enc_block(block)) matches Some((decoded, _)) && decoded == block,
    ensures
        in_good_order(with_block(store, block), block.hash),
        walk(with_block(store, block), block.hash, with_block(store, block).dom().len()) == Ok::<
            Seq<BlockView>,
            Error,
        >(seq![block]),
{
    reveal_strlit("l");
    let bytes = ValueView::Bytes(enc_block(block));
    let first = store.insert(block.hash, bytes);
    let after = with_block(store, block);
    lemma_insert_keeps_count(store, block.hash, bytes);
    lemma_insert_keeps_count(first, TIP_KEY@, ValueView::Text(block.hash));
    let fuel = after.dom().len();
    assert(after.contains_key(block.hash));
    assert(fuel >= 1) by {
        assert(after.dom().contains(block.hash));
        if after.dom().len() == 0 {
            assert(after.dom() =~= Set::<Seq<char>>::empty()) by {
                after.dom().lemma_len0_is_empty();
            }
        }
    }
    assert(block.hash != TIP_KEY@);
    assert(block_at(after, block.hash) == Ok::<Option<BlockView>, Error>(Some(block)));
    assert(block.prev_block_hash =~= Seq::<char>::empty());
    assert(!after.contains_key(block.prev_block_hash));
    assert(walk(after, block.prev_block_hash, (fuel - 1) as nat) == Ok::<
        Seq<BlockView>,
        Error,
    >(Seq::empty()));
    assert(seq![block] + Seq::<BlockView>::empty() =~= seq![block]);
}

} // verus!
