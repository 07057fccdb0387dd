//! Which outputs of a chain are unspent. The chain is read newest block
//! first, the transactions of a block in their order; an output is
//! dropped where an input of a transaction read before it spends it.

use vstd::prelude::*;

use crate::block::Block;
use crate::blockchain::block_views;
use crate::model::{is_coinbase, BlockView, ListedView, TransactionView, TxOutputView};
use crate::table::Table;
use crate::transaction::{clone_listed, listed_views, ListedOutput, Transaction, TXOutputs};

verus! {

/// Unspent outputs, each with its number, by the id of their transaction.
pub type UnspentMap = Map<Seq<char>, Seq<ListedView>>;

/// One of the first `upto` inputs of `t` spends output `i` of the
/// transaction `id`. A coinbase spends nothing.
pub open spec fn spends_within(t: TransactionView, upto: int, id: Seq<char>, i: int) -> bool {
    !is_coinbase(t) && exists|q: int|
        0 <= q < upto && q < t.v_in.len() && (#[trigger] t.v_in[q]).tx_id == id && t.v_in[q].v_out
            == i
}

/// An input of `t` spends output `i` of the transaction `id`.
pub open spec fn spends(t: TransactionView, id: Seq<char>, i: int) -> bool {
    spends_within(t, t.v_in.len() as int, id, i)
}

/// Transaction `p1` of block `k1` is read before transaction `p2` of
/// block `k2`.
pub open spec fn precedes(k1: int, p1: int, k2: int, p2: int) -> bool {
    k1 < k2 || (k1 == k2 && p1 < p2)
}

/// Output `i` of the transaction `id` is spent by a transaction that is
/// read before transaction `p` of block `k`.
pub open spec fn spent_before(blocks: Seq<BlockView>, k: int, p: int, id: Seq<char>, i: int) -> bool {
    exists|k1: int, p1: int|
        0 <= k1 < blocks.len() && 0 <= p1 < blocks[k1].transactions.len() && precedes(k1, p1, k, p)
            && #[trigger] spends(blocks[k1].transactions[p1], id, i)
}

/// The outputs whose number `spent` does not hold of, in order, each
/// with its number.
pub open spec fn keep_unspent(outs: Seq<TxOutputView>, spent: spec_fn(int) -> bool) -> Seq<
    ListedView,
>
    decreases outs.len(),
{
    if outs.len() == 0 {
        Seq::empty()
    } else {
        let rest = keep_unspent(outs.drop_last(), spent);
        if spent(outs.len() - 1) {
            rest
        } else {
            rest.push(ListedView { number: (outs.len() - 1) as u64, output: outs.last() })
        }
    }
}

/// Whether an output number of transaction `p` of block `k` is spent by
/// what is read before that transaction.
pub open spec fn spent_earlier(blocks: Seq<BlockView>, k: int, p: int) -> spec_fn(int) -> bool {
    |i: int| spent_before(blocks, k, p, blocks[k].transactions[p].id, i)
}

/// The outputs of transaction `p` of block `k` that nothing read before
/// it spends.
pub open spec fn live_outputs(blocks: Seq<BlockView>, k: int, p: int) -> Seq<ListedView> {
    keep_unspent(blocks[k].transactions[p].v_out, spent_earlier(blocks, k, p))
}

/// The map with `outs` added to what is kept under `id`; unchanged where
/// there is nothing to add.
pub open spec fn add_outputs(m: UnspentMap, id: Seq<char>, outs: Seq<ListedView>) -> UnspentMap {
    if outs.len() == 0 {
        m
    } else if m.contains_key(id) {
        m.insert(id, m[id] + outs)
    } else {
        m.insert(id, outs)
    }
}

/// The unspent outputs gathered when blocks `0..k` and the first `p`
/// transactions of block `k` are read.
pub open spec fn unspent_after(blocks: Seq<BlockView>, k: nat, p: nat) -> UnspentMap
    decreases k, p,
{
    if p > 0 {
        add_outputs(
            unspent_after(blocks, k, (p - 1) as nat),
            blocks[k as int].transactions[p - 1].id,
            live_outputs(blocks, k as int, p - 1),
        )
    } else if k > 0 {
        unspent_after(blocks, (k - 1) as nat, blocks[k - 1].transactions.len())
    } else {
        Map::empty()
    }
}

/// The ids under which outputs were gathered when blocks `0..k` and the
/// first `p` transactions of block `k` are read, in the order in which
/// each was first met.
pub open spec fn order_after(blocks: Seq<BlockView>, k: nat, p: nat) -> Seq<Seq<char>>
    decreases k, p,
{
    if p > 0 {
        let earlier = order_after(blocks, k, (p - 1) as nat);
        let id = blocks[k as int].transactions[p - 1].id;
        if live_outputs(blocks, k as int, p - 1).len() > 0 && !unspent_after(
            blocks,
            k,
            (p - 1) as nat,
        ).contains_key(id) {
            earlier.push(id)
        } else {
            earlier
        }
    } else if k > 0 {
        order_after(blocks, (k - 1) as nat, blocks[k - 1].transactions.len())
    } else {
        Seq::empty()
    }
}

/// The ids of the transactions that have unspent outputs, in the order
/// in which they are first met when the chain is read.
pub open spec fn unspent_order(blocks: Seq<BlockView>) -> Seq<Seq<char>> {
    order_after(blocks, blocks.len(), 0)
}

/// The unspent outputs of a chain, given newest block first: for every
/// transaction with an output that no transaction read before it spends,
/// those outputs in their order.
pub open spec fn unspent(blocks: Seq<BlockView>) -> UnspentMap {
    unspent_after(blocks, blocks.len(), 0)
}

/// Every output that `keep_unspent` keeps is listed with the number at
/// which it stands in `outs`, and `spent` does not hold of that number.
pub proof fn lemma_kept_are_unspent(outs: Seq<TxOutputView>, spent: spec_fn(int) -> bool, j: int)
    requires
        outs.len() <= u64::MAX,
        0 <= j < keep_unspent(outs, spent).len(),
    ensures
        ({
            let listed = keep_unspent(outs, spent)[j];
            &&& 0 <= listed.number < outs.len()
            &&& !spent(listed.number as int)
            &&& listed.output == outs[listed.number as int]
        }),
    decreases outs.len(),
{
    let rest = keep_unspent(outs.drop_last(), spent);
    if j < rest.len() {
        lemma_kept_are_unspent(outs.drop_last(), spent, j);
        let i = rest[j].number as int;
        assert(outs[i] == outs.drop_last()[i]);
    }
}

/// The id of transaction `p` of block `k` is the id of no other
/// transaction of the chain.
pub open spec fn id_is_unique(blocks: Seq<BlockView>, k: int, p: int) -> bool {
    forall|k1: int, p1: int|
        0 <= k1 < blocks.len() && 0 <= p1 < blocks[k1].transactions.len() && !(k1 == k && p1 == p)
            ==> (#[trigger] blocks[k1].transactions[p1]).id != blocks[k].transactions[p].id
}

/// What the gathered outputs hold under the id of transaction `p` of
/// block `k`, where no other transaction has that id: nothing until the
/// transaction is read, and from then on its live outputs, if it has any.
pub proof fn lemma_entry_after(blocks: Seq<BlockView>, at_k: nat, at_p: nat, k: int, p: int)
    requires
        0 <= k < blocks.len(),
        0 <= p < blocks[k].transactions.len(),
        id_is_unique(blocks, k, p),
        at_k <= blocks.len(),
        at_k < blocks.len() ==> at_p <= blocks[at_k as int].transactions.len(),
        at_k == blocks.len() ==> at_p == 0,
    ensures
        ({
            let id = blocks[k].transactions[p].id;
            let live = live_outputs(blocks, k, p);
            let m = unspent_after(blocks, at_k, at_p);
            if precedes(k, p, at_k as int, at_p as int) && live.len() > 0 {
                m.contains_key(id) && m[id] == live
            } else {
                !m.contains_key(id)
            }
        }),
    decreases at_k, at_p,
{
    let id = blocks[k].transactions[p].id;
    if at_p > 0 {
        lemma_entry_after(blocks, at_k, (at_p - 1) as nat, k, p);
        let earlier = unspent_after(blocks, at_k, (at_p - 1) as nat);
        let t = blocks[at_k as int].transactions[at_p - 1];
        if at_k == k && at_p - 1 == p {
            assert(!earlier.contains_key(id));
        } else {
            assert(t.id != id);
        }
    } else if at_k > 0 {
        lemma_entry_after(blocks, (at_k - 1) as nat, blocks[at_k - 1].transactions.len(), k, p);
    }
}

/// An output that the index built from a chain lists for a transaction is
/// the output of that transaction with the listed number, and no
/// transaction of a later block spends it. The blocks are given newest
/// first; the transaction is number `p` of block `k`, no other
/// transaction has its id, and its outputs can be numbered in 64 bits.
pub proof fn lemma_listed_outputs_unspent(
    blocks: Seq<BlockView>,
    k: int,
    p: int,
    j: int,
    later: int,
    q: int,
)
    requires
        0 <= k < blocks.len(),
        0 <= p < blocks[k].transactions.len(),
        id_is_unique(blocks, k, p),
        blocks[k].transactions[p].v_out.len() <= u64::MAX,
        unspent(blocks).contains_key(blocks[k].transactions[p].id),
        0 <= j < unspent(blocks)[blocks[k].transactions[p].id].len(),
        0 <= later < k,
        0 <= q < blocks[later].transactions.len(),
    ensures
        ({
            let t = blocks[k].transactions[p];
            let listed = unspent(blocks)[t.id][j];
            &&& 0 <= listed.number < t.v_out.len()
            &&& listed.output == t.v_out[listed.number as int]
            &&& !spends(blocks[later].transactions[q], t.id, listed.number as int)
        }),
{
    let t = blocks[k].transactions[p];
    lemma_entry_after(blocks, blocks.len(), 0, k, p);
    let live = live_outputs(blocks, k, p);
    assert(unspent(blocks)[t.id] == live);
    lemma_kept_are_unspent(t.v_out, spent_earlier(blocks, k, p), j);
    let i = live[j].number as int;
    assert(!spent_before(blocks, k, p, t.id, i));
    assert(precedes(later, q, k, p));
}

/// Transaction `p` of block `k` has the id `id`, `listed` is one of its
/// outputs with its number, and nothing that is read before the
/// transaction spends it.
pub open spec fn is_unspent_at(
    blocks: Seq<BlockView>,
    k: int,
    p: int,
    id: Seq<char>,
    listed: ListedView,
) -> bool {
    &&& 0 <= k < blocks.len()
    &&& 0 <= p < blocks[k].transactions.len()
    &&& blocks[k].transactions[p].id == id
    &&& listed.number < blocks[k].transactions[p].v_out.len()
    &&& listed.output == blocks[k].transactions[p].v_out[listed.number as int]
    &&& !spent_before(blocks, k, p, id, listed.number as int)
}

/// The outputs of every transaction can be numbered in 64 bits.
pub open spec fn outputs_can_be_numbered(blocks: Seq<BlockView>) -> bool {
    forall|k: int, p: int|
        0 <= k < blocks.len() && 0 <= p < blocks[k].transactions.len() ==> (
        #[trigger] blocks[k].transactions[p]).v_out.len() <= u64::MAX
}

/// `(at_k, at_p)` is a place up to which a chain can be read.
pub open spec fn is_reading_place(blocks: Seq<BlockView>, at_k: nat, at_p: nat) -> bool {
    &&& at_k <= blocks.len()
    &&& at_k < blocks.len() ==> at_p <= blocks[at_k as int].transactions.len()
    &&& at_k == blocks.len() ==> at_p == 0
}

/// Whatever is gathered under an id is an output of a transaction with
/// that id that was read, and nothing read before that transaction
/// spends it.
pub proof fn lemma_gathered_are_unspent(
    blocks: Seq<BlockView>,
    at_k: nat,
    at_p: nat,
    id: Seq<char>,
    j: int,
)
    requires
        is_reading_place(blocks, at_k, at_p),
        outputs_can_be_numbered(blocks),
        unspent_after(blocks, at_k, at_p).contains_key(id),
        0 <= j < unspent_after(blocks, at_k, at_p)[id].len(),
    ensures
        exists|k: int, p: int|
            precedes(k, p, at_k as int, at_p as int) && #[trigger] is_unspent_at(
                blocks,
                k,
                p,
                id,
                unspent_after(blocks, at_k, at_p)[id][j],
            ),
    decreases at_k, at_p,
{
    let m = unspent_after(blocks, at_k, at_p);
    if at_p > 0 {
        let earlier = unspent_after(blocks, at_k, (at_p - 1) as nat);
        let t = blocks[at_k as int].transactions[at_p - 1];
        let live = live_outputs(blocks, at_k as int, at_p - 1);
        let old_len = if earlier.contains_key(id) {
            earlier[id].len()
        } else {
            0
        };
        if live.len() > 0 && t.id == id && j >= old_len {
            lemma_kept_are_unspent(t.v_out, spent_earlier(blocks, at_k as int, at_p - 1), j - old_len);
            assert(m[id][j] == live[j - old_len]);
            assert(is_unspent_at(blocks, at_k as int, at_p - 1, id, m[id][j]));
        } else {
            assert(earlier.contains_key(id));
            assert(m[id][j] == earlier[id][j]);
            lemma_gathered_are_unspent(blocks, at_k, (at_p - 1) as nat, id, j);
            let (k, p) = choose|k: int, p: int|
                precedes(k, p, at_k as int, at_p - 1) && #[trigger] is_unspent_at(
                    blocks,
                    k,
                    p,
                    id,
                    earlier[id][j],
                );
            assert(precedes(k, p, at_k as int, at_p as int));
        }
    } else if at_k > 0 {
        let before = blocks[at_k - 1].transactions.len();
        lemma_gathered_are_unspent(blocks, (at_k - 1) as nat, before, id, j);
        let (k, p) = choose|k: int, p: int|
            precedes(k, p, at_k - 1, before as int) && #[trigger] is_unspent_at(
                blocks,
                k,
                p,
                id,
                m[id][j],
            );
        assert(precedes(k, p, at_k as int, at_p as int));
    }
}

/// Every output that is unspent where its transaction is read is
/// gathered under the id of the transaction, and nothing is gathered
/// under an id without an output.
pub proof fn lemma_unspent_are_gathered(
    blocks: Seq<BlockView>,
    at_k: nat,
    at_p: nat,
    k: int,
    p: int,
    j: int,
)
    requires
        is_reading_place(blocks, at_k, at_p),
        0 <= k < blocks.len(),
        0 <= p < blocks[k].transactions.len(),
        precedes(k, p, at_k as int, at_p as int),
        0 <= j < live_outputs(blocks, k, p).len(),
    ensures
        unspent_after(blocks, at_k, at_p).contains_key(blocks[k].transactions[p].id),
        unspent_after(blocks, at_k, at_p)[blocks[k].transactions[p].id].contains(
            live_outputs(blocks, k, p)[j],
        ),
    decreases at_k, at_p,
{
    let id = blocks[k].transactions[p].id;
    let wanted = live_outputs(blocks, k, p)[j];
    let m = unspent_after(blocks, at_k, at_p);
    if at_p > 0 {
        let earlier = unspent_after(blocks, at_k, (at_p - 1) as nat);
        let t = blocks[at_k as int].transactions[at_p - 1];
        let live = live_outputs(blocks, at_k as int, at_p - 1);
        if k == at_k && p == at_p - 1 {
            if earlier.contains_key(id) {
                assert(m[id][earlier[id].len() + j] == wanted);
            } else {
                assert(m[id][j] == wanted);
            }
        } else {
            lemma_unspent_are_gathered(blocks, at_k, (at_p - 1) as nat, k, p, j);
            let i = choose|i: int| 0 <= i < earlier[id].len() && earlier[id][i] == wanted;
            assert(m[id][i] == wanted);
        }
    } else if at_k > 0 {
        lemma_unspent_are_gathered(
            blocks,
            (at_k - 1) as nat,
            blocks[at_k - 1].transactions.len(),
            k,
            p,
            j,
        );
    }
}

/// No list of gathered outputs is empty.
pub proof fn lemma_gathered_lists_hold_something(
    blocks: Seq<BlockView>,
    at_k: nat,
    at_p: nat,
    id: Seq<char>,
)
    requires
        is_reading_place(blocks, at_k, at_p),
        unspent_after(blocks, at_k, at_p).contains_key(id),
    ensures
        unspent_after(blocks, at_k, at_p)[id].len() > 0,
    decreases at_k, at_p,
{
    if at_p > 0 {
        let earlier = unspent_after(blocks, at_k, (at_p - 1) as nat);
        if earlier.contains_key(id) {
            lemma_gathered_lists_hold_something(blocks, at_k, (at_p - 1) as nat, id);
        }
    } else if at_k > 0 {
        lemma_gathered_lists_hold_something(
            blocks,
            (at_k - 1) as nat,
            blocks[at_k - 1].transactions.len(),
            id,
        );
    }
}

/// The unspent outputs of a chain, whatever its ids: every output listed
/// under an id is an output, with its number, of a transaction of the
/// chain with that id, and no transaction of a later block has an input
/// that names it. The blocks are given newest first, so a later block
/// stands before the transaction's own.
pub proof fn lemma_listed_are_unspent(
    blocks: Seq<BlockView>,
    id: Seq<char>,
    j: int,
)
    requires
        outputs_can_be_numbered(blocks),
        unspent(blocks).contains_key(id),
        0 <= j < unspent(blocks)[id].len(),
    ensures
        exists|k: int, p: int| #[trigger]
            is_unspent_at(blocks, k, p, id, unspent(blocks)[id][j]) && forall|later: int, q: int|
                0 <= later < k && 0 <= q < blocks[later].transactions.len() ==> !#[trigger] spends(
                    blocks[later].transactions[q],
                    id,
                    unspent(blocks)[id][j].number as int,
                ),
{
    let listed = unspent(blocks)[id][j];
    lemma_gathered_are_unspent(blocks, blocks.len(), 0, id, j);
    let (k, p) = choose|k: int, p: int|
        precedes(k, p, blocks.len() as int, 0) && #[trigger] is_unspent_at(blocks, k, p, id, listed);
    assert forall|later: int, q: int|
        0 <= later < k && 0 <= q < blocks[later].transactions.len() implies !#[trigger] spends(
        blocks[later].transactions[q],
        id,
        listed.number as int,
    ) by {
        assert(precedes(later, q, k, p));
    }
}

/// Every output of a transaction of the chain that nothing read before
/// the transaction spends is listed under the id of the transaction.
pub proof fn lemma_unspent_are_listed(blocks: Seq<BlockView>, k: int, p: int, j: int)
    requires
        0 <= k < blocks.len(),
        0 <= p < blocks[k].transactions.len(),
        0 <= j < live_outputs(blocks, k, p).len(),
    ensures
        unspent(blocks).contains_key(blocks[k].transactions[p].id),
        unspent(blocks)[blocks[k].transactions[p].id].contains(live_outputs(blocks, k, p)[j]),
{
    lemma_unspent_are_gathered(blocks, blocks.len(), 0, k, p, j);
}

/// Output number `i` is listed under `id`.
pub open spec fn listed(spent: Map<Seq<char>, Seq<i32>>, id: Seq<char>, i: int) -> bool {
    spent.contains_key(id) && exists|j: int| 0 <= j < spent[id].len() && #[trigger] spent[id][j] == i
}

/// What is spent before the transaction after `p` is what is spent before
/// `p` and what `p` spends.
proof fn lemma_spent_before_next(blocks: Seq<BlockView>, k: int, p: int, id: Seq<char>, i: int)
    requires
        0 <= k < blocks.len(),
        0 <= p < blocks[k].transactions.len(),
    ensures
        spent_before(blocks, k, p + 1, id, i) <==> (spent_before(blocks, k, p, id, i) || spends(
            blocks[k].transactions[p],
            id,
            i,
        )),
{
    if spent_before(blocks, k, p + 1, id, i) {
        let (k1, p1) = choose|k1: int, p1: int|
            0 <= k1 < blocks.len() && 0 <= p1 < blocks[k1].transactions.len() && precedes(
                k1,
                p1,
                k,
                p + 1,
            ) && #[trigger] spends(blocks[k1].transactions[p1], id, i);
        if k1 == k && p1 == p {
        } else {
            assert(precedes(k1, p1, k, p));
        }
    }
    if spent_before(blocks, k, p, id, i) {
        let (k1, p1) = choose|k1: int, p1: int|
            0 <= k1 < blocks.len() && 0 <= p1 < blocks[k1].transactions.len() && precedes(
                k1,
                p1,
                k,
                p,
            ) && #[trigger] spends(blocks[k1].transactions[p1], id, i);
        assert(precedes(k1, p1, k, p + 1));
    }
    if spends(blocks[k].transactions[p], id, i) {
        assert(precedes(k, p, k, p + 1));
    }
}

/// What is spent before the first transaction of a block is what is spent
/// before the end of the block before it.
proof fn lemma_spent_before_block(blocks: Seq<BlockView>, k: int, id: Seq<char>, i: int)
    requires
        0 <= k < blocks.len(),
    ensures
        spent_before(blocks, k + 1, 0, id, i) <==> spent_before(
            blocks,
            k,
            blocks[k].transactions.len() as int,
            id,
            i,
        ),
{
    let n = blocks[k].transactions.len() as int;
    if spent_before(blocks, k + 1, 0, id, i) {
        let (k1, p1) = choose|k1: int, p1: int|
            0 <= k1 < blocks.len() && 0 <= p1 < blocks[k1].transactions.len() && precedes(
                k1,
                p1,
                k + 1,
                0,
            ) && #[trigger] spends(blocks[k1].transactions[p1], id, i);
        assert(precedes(k1, p1, k, n));
    }
    if spent_before(blocks, k, n, id, i) {
        let (k1, p1) = choose|k1: int, p1: int|
            0 <= k1 < blocks.len() && 0 <= p1 < blocks[k1].transactions.len() && precedes(
                k1,
                p1,
                k,
                n,
            ) && #[trigger] spends(blocks[k1].transactions[p1], id, i);
        assert(precedes(k1, p1, k + 1, 0));
    }
}

/// Whether output number `index` is listed under `id`.
fn is_listed(spent: &Table<Vec<i32>>, id: &str, index: usize) -> (r: bool)
    ensures
        r == listed(spent@, id@, index as int),
{
    match spent.get(id) {
        None => false,
        Some(numbers) => {
            if index > i32::MAX as usize {
                return false;
            }
            let wanted = index as i32;
            let mut j: usize = 0;
            while j < numbers.len()
                invariant
                    j <= numbers@.len(),
                    wanted == index,
                    spent@.contains_key(id@),
                    spent@[id@] == numbers@,
                    forall|x: int| 0 <= x < j ==> numbers@[x] != wanted,
                decreases numbers@.len() - j,
            {
                if numbers[j] == wanted {
                    return true;
                }
                j += 1;
            }
            false
        },
    }
}

/// Lists output number `number` under `id`.
fn list(spent: &mut Table<Vec<i32>>, id: &str, number: i32)
    ensures
        forall|x: Seq<char>, i: int| #[trigger]
            listed(final(spent)@, x, i) <==> (listed(old(spent)@, x, i) || (x == id@ && i
                == number)),
{
    let mut numbers: Vec<i32> = match spent.get(id) {
        Some(existing) => existing.clone(),
        None => Vec::new(),
    };
    let ghost before = numbers@;
    numbers.push(number);
    let ghost old_map = spent@;
    spent.insert(id.to_owned(), numbers);
    proof {
        assert(old_map == old(spent)@);
        assert forall|x: Seq<char>, i: int| #[trigger]
            listed(spent@, x, i) <==> (listed(old_map, x, i) || (x == id@ && i == number)) by {
            if x == id@ {
                let now = spent@[x];
                assert(now == before.push(number));
                if listed(old_map, x, i) {
                    let j = choose|j: int| 0 <= j < old_map[x].len() && #[trigger] old_map[x][j] == i;
                    assert(now[j] == i);
                }
                if i == number {
                    assert(now[before.len() as int] == i);
                }
                if listed(spent@, x, i) {
                    let j = choose|j: int| 0 <= j < now.len() && #[trigger] now[j] == i;
                    if j < before.len() {
                        assert(before[j] == i);
                        assert(old_map.contains_key(x));
                    }
                }
            } else {
                assert(spent@.contains_key(x) == old_map.contains_key(x));
                if spent@.contains_key(x) {
                    assert(spent@[x] == old_map[x]);
                }
            }
        }
    }
}

/// The outputs of transaction `p` of block `k` that nothing read before
/// it spends, given the outputs that are spent by what was read before.
fn unspent_of(
    tx: &Transaction,
    spent: &Table<Vec<i32>>,
    Ghost(blocks): Ghost<Seq<BlockView>>,
    Ghost(k): Ghost<int>,
    Ghost(p): Ghost<int>,
) -> (live: Vec<ListedOutput>)
    requires
        0 <= k < blocks.len(),
        0 <= p < blocks[k].transactions.len(),
        blocks[k].transactions[p] == tx@,
        forall|x: Seq<char>, i: int| listed(spent@, x, i) <==> spent_before(blocks, k, p, x, i),
    ensures
        listed_views(live@) == live_outputs(blocks, k, p),
{
    let outs = tx.v_out();
    let ghost views = tx@.v_out;
    let ghost pred = spent_earlier(blocks, k, p);
    let mut live: Vec<ListedOutput> = Vec::new();
    let mut j: usize = 0;
    assert(listed_views(live@) =~= Seq::<ListedView>::empty());
    assert(views.take(0) =~= Seq::<TxOutputView>::empty());
    while j < outs.len()
        invariant
            j <= outs@.len(),
            views == crate::transaction::output_views(outs@),
            views == tx@.v_out,
            pred == spent_earlier(blocks, k, p),
            blocks[k].transactions[p] == tx@,
            forall|x: Seq<char>, i: int| listed(spent@, x, i) <==> spent_before(blocks, k, p, x, i),
            listed_views(live@) == keep_unspent(views.take(j as int), pred),
        decreases outs@.len() - j,
    {
        let ghost before = listed_views(live@);
        proof {
            let next = views.take(j + 1);
            assert(next.drop_last() =~= views.take(j as int));
            assert(next.last() == outs@[j as int]@);
            assert(pred(j as int) == spent_before(blocks, k, p, tx@.id, j as int));
        }
        if !is_listed(spent, tx.id(), j) {
            let copy = ListedOutput { number: j as u64, output: outs[j].clone() };
            assert(listed_views(live@.push(copy)) =~= before.push(copy@));
            live.push(copy);
        }
        j += 1;
    }
    assert(views.take(j as int) =~= views);
    live
}

/// Adds `live` to what the table keeps under `id`.
fn keep(unspent: &mut Table<TXOutputs>, id: &str, live: Vec<ListedOutput>)
    ensures
        final(unspent)@ == add_outputs(old(unspent)@, id@, listed_views(live@)),
        final(unspent).keys() == if live@.len() > 0 && !old(unspent)@.contains_key(id@) {
            old(unspent).keys().push(id@)
        } else {
            old(unspent).keys()
        },
{
    if live.len() == 0 {
        assert(listed_views(live@).len() == 0);
        return ;
    }
    assert(listed_views(live@).len() == live@.len());
    let mut outputs: Vec<ListedOutput> = match unspent.get(id) {
        Some(existing) => clone_listed(existing.outputs.as_slice()),
        None => Vec::new(),
    };
    let ghost kept = listed_views(outputs@);
    let mut live = live;
    let ghost added = listed_views(live@);
    outputs.append(&mut live);
    assert(listed_views(outputs@) =~= kept + added);
    proof {
        if !old(unspent)@.contains_key(id@) {
            assert(kept =~= Seq::<ListedView>::empty());
            assert(kept + added =~= added);
        }
    }
    unspent.insert(id.to_owned(), TXOutputs { outputs });
}

/// Reads the blocks, given newest first, and gathers the outputs that
/// are unspent.
pub fn unspent_outputs(blocks: &[Block]) -> (r: Table<TXOutputs>)
    ensures
        r@ == unspent(block_views(blocks@)),
        r.keys() == unspent_order(block_views(blocks@)),
{
    let ghost views = block_views(blocks@);
    let mut unspent: Table<TXOutputs> = Table::new();
    let mut spent: Table<Vec<i32>> = Table::new();
    let mut k: usize = 0;
    proof {
        assert forall|x: Seq<char>, i: int|
            listed(spent@, x, i) <==> spent_before(views, 0, 0, x, i) by {
        }
    }
    while k < blocks.len()
        invariant
            k <= blocks@.len(),
            views == block_views(blocks@),
            unspent@ == unspent_after(views, k as nat, 0),
            unspent.keys() == order_after(views, k as nat, 0),
            forall|x: Seq<char>, i: int|
                listed(spent@, x, i) <==> spent_before(views, k as int, 0, x, i),
        decreases blocks@.len() - k,
    {
        let txs = blocks[k].transactions();
        let ghost block = views[k as int];
        assert(block == blocks@[k as int]@);
        let mut p: usize = 0;
        while p < txs.len()
            invariant
                k < blocks@.len(),
                p <= txs@.len(),
                views == block_views(blocks@),
                block == views[k as int],
                block.transactions == crate::transaction::tx_views(txs@),
                unspent@ == unspent_after(views, k as nat, p as nat),
                unspent.keys() == order_after(views, k as nat, p as nat),
                forall|x: Seq<char>, i: int|
                    listed(spent@, x, i) <==> spent_before(views, k as int, p as int, x, i),
            decreases txs@.len() - p,
        {
            let tx = &txs[p];
            assert(block.transactions[p as int] == tx@);
            let live = unspent_of(tx, &spent, Ghost(views), Ghost(k as int), Ghost(p as int));
            assert(listed_views(live@).len() == live@.len());
            keep(&mut unspent, tx.id(), live);
            if !tx.is_coinbase() {
                let inputs = tx.v_in();
                let mut q: usize = 0;
                while q < inputs.len()
                    invariant
                        q <= inputs@.len(),
                        k < views.len(),
                        p < views[k as int].transactions.len(),
                        views[k as int].transactions[p as int] == tx@,
                        !is_coinbase(tx@),
                        tx@.v_in == crate::transaction::input_views(inputs@),
                        forall|x: Seq<char>, i: int|
                            listed(spent@, x, i) <==> (spent_before(
                                views,
                                k as int,
                                p as int,
                                x,
                                i,
                            ) || spends_within(tx@, q as int, x, i)),
                    decreases inputs@.len() - q,
                {
                    let input = &inputs[q];
                    let ghost earlier = spent@;
                    list(&mut spent, input.tx_id(), input.v_out());
                    proof {
                        assert(tx@.v_in[q as int] == input@);
                        assert forall|x: Seq<char>, i: int|
                            listed(spent@, x, i) <==> (spent_before(
                                views,
                                k as int,
                                p as int,
                                x,
                                i,
                            ) || spends_within(tx@, q + 1, x, i)) by {
                            if spends_within(tx@, q + 1, x, i) {
                                let w = choose|w: int|
                                    0 <= w < q + 1 && w < tx@.v_in.len() && (
                                    #[trigger] tx@.v_in[w]).tx_id == x && tx@.v_in[w].v_out == i;
                                if w < q {
                                    assert(spends_within(tx@, q as int, x, i));
                                }
                            }
                            if spends_within(tx@, q as int, x, i) {
                                let w = choose|w: int|
                                    0 <= w < q && w < tx@.v_in.len() && (
                                    #[trigger] tx@.v_in[w]).tx_id == x && tx@.v_in[w].v_out == i;
                                assert(0 <= w < q + 1);
                            }
                            if x == input@.tx_id && i == input@.v_out {
                                assert(tx@.v_in[q as int].tx_id == x);
                            }
                        }
                    }
                    q += 1;
                }
            }
            proof {
                assert forall|x: Seq<char>, i: int|
                    listed(spent@, x, i) <==> spent_before(views, k as int, p + 1, x, i) by {
                    lemma_spent_before_next(views, k as int, p as int, x, i);
                    if is_coinbase(tx@) {
                        assert(!spends(tx@, x, i));
                    }
                }
            }
            p += 1;
        }
        proof {
            assert forall|x: Seq<char>, i: int|
                listed(spent@, x, i) <==> spent_before(views, k + 1, 0, x, i) by {
                lemma_spent_before_block(views, k as int, x, i);
            }
        }
        k += 1;
    }
    unspent
}

} // verus!
