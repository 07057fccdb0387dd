//! Bringing the index of unspent outputs up to date with a new block
//! gives what rebuilding it from the longer chain gives, for blocks whose
//! inputs spend from transactions of earlier blocks that still have an
//! unspent output. And what the index of a chain of one block holds.

use vstd::prelude::*;

use crate::error::Error;
use crate::model::{
    enc_entry, entry_fits, is_coinbase, lemma_entry_round_trip, numbered, output_fits,
    outputs_fit, BlockView, ListedView, TransactionView, TxOutputView,
};
use crate::store::{StoreMap, ValueView};
use crate::transaction::{coinbase, SUBSIDY};
use crate::unspent::{
    id_is_unique, keep_unspent, lemma_entry_after, precedes, spends, spends_within, spent_before,
    spent_earlier, unspent, unspent_after,
};
use crate::utxo_set::{
    apply_block, apply_first, index_of, locked_outputs, outputs_at, owned_within, spend,
    spend_first, without,
};

verus! {

/// What is kept depends on the outputs and on which of their numbers
/// count as spent, and on nothing else.
pub proof fn lemma_keep_same(
    outs: Seq<TxOutputView>,
    f: spec_fn(int) -> bool,
    g: spec_fn(int) -> bool,
)
    requires
        forall|j: int| 0 <= j < outs.len() ==> #[trigger] f(j) == g(j),
    ensures
        keep_unspent(outs, f) == keep_unspent(outs, g),
    decreases outs.len(),
{
    if outs.len() > 0 {
        lemma_keep_same(outs.drop_last(), f, g);
    }
}

/// Where nothing counts as spent, everything is kept, each output with
/// its number.
pub proof fn lemma_keep_all(outs: Seq<TxOutputView>, f: spec_fn(int) -> bool)
    requires
        forall|j: int| 0 <= j < outs.len() ==> !#[trigger] f(j),
    ensures
        keep_unspent(outs, f) == numbered(outs),
    decreases outs.len(),
{
    if outs.len() > 0 {
        lemma_keep_all(outs.drop_last(), f);
        assert(numbered(outs.drop_last()).push(
            ListedView { number: (outs.len() - 1) as u64, output: outs.last() },
        ) =~= numbered(outs));
    } else {
        assert(numbered(outs) =~= Seq::<ListedView>::empty());
    }
}

/// No more is kept than there is.
pub proof fn lemma_keep_length(outs: Seq<TxOutputView>, f: spec_fn(int) -> bool)
    ensures
        keep_unspent(outs, f).len() <= outs.len(),
    decreases outs.len(),
{
    if outs.len() > 0 {
        lemma_keep_length(outs.drop_last(), f);
    }
}

/// Taking the output with the number `i` out of what is kept gives what
/// is kept once `i` counts as spent too.
pub proof fn lemma_keep_without(
    outs: Seq<TxOutputView>,
    f: spec_fn(int) -> bool,
    g: spec_fn(int) -> bool,
    i: int,
)
    requires
        outs.len() <= u64::MAX,
        forall|j: int| 0 <= j < outs.len() ==> #[trigger] g(j) == (f(j) || j == i),
    ensures
        without(keep_unspent(outs, f), i) == keep_unspent(outs, g),
    decreases outs.len(),
{
    if outs.len() > 0 {
        let front = outs.drop_last();
        let last = outs.len() - 1;
        lemma_keep_without(front, f, g, i);
        let rest = keep_unspent(front, f);
        assert(g(last) == (f(last) || last == i));
        if !f(last) {
            let x = ListedView { number: last as u64, output: outs.last() };
            let all = rest.push(x);
            assert(all.drop_last() =~= rest);
            assert(all.last() == x);
        }
    }
}

/// An output whose number does not count as spent is kept.
pub proof fn lemma_keep_nonempty(outs: Seq<TxOutputView>, f: spec_fn(int) -> bool, i: int)
    requires
        0 <= i < outs.len(),
        !f(i),
    ensures
        keep_unspent(outs, f).len() > 0,
    decreases outs.len(),
{
    if i < outs.len() - 1 {
        lemma_keep_nonempty(outs.drop_last(), f, i);
    }
}

/// What is kept of outputs that can be encoded can be encoded.
pub proof fn lemma_keep_fits(outs: Seq<TxOutputView>, f: spec_fn(int) -> bool)
    requires
        outputs_fit(outs),
    ensures
        entry_fits(keep_unspent(outs, f)),
    decreases outs.len(),
{
    if outs.len() > 0 {
        let front = outs.drop_last();
        assert forall|i: int| 0 <= i < front.len() implies output_fits(#[trigger] front[i]) by {
            assert(front[i] == outs[i]);
        }
        lemma_keep_fits(front, f);
        let rest = keep_unspent(front, f);
        lemma_keep_length(front, f);
        if !f(outs.len() - 1) {
            let x = ListedView { number: (outs.len() - 1) as u64, output: outs.last() };
            assert forall|i: int| 0 <= i < rest.push(x).len() implies output_fits(
                (#[trigger] rest.push(x)[i]).output,
            ) by {
                if i < rest.len() {
                    assert(rest.push(x)[i] == rest[i]);
                } else {
                    assert(outs.last() == outs[outs.len() - 1]);
                }
            }
        }
    }
}

/// Transaction `p` of block `k` exists.
pub open spec fn is_position(blocks: Seq<BlockView>, k: int, p: int) -> bool {
    0 <= k < blocks.len() && 0 <= p < blocks[k].transactions.len()
}

/// One of the first `n` transactions, or one of the first `m` inputs of
/// transaction `n`, spends output `i` of the transaction `id`.
pub open spec fn spent_by(txs: Seq<TransactionView>, n: int, m: int, id: Seq<char>, i: int) -> bool {
    ||| exists|q: int| 0 <= q < n && q < txs.len() && #[trigger] spends(txs[q], id, i)
    ||| (0 <= n < txs.len() && spends_within(txs[n], m, id, i))
}

/// Whether an output of transaction `p` of block `k` is spent: by the
/// chain, or by the part of the new transactions that has been applied.
pub open spec fn still_spent(
    blocks: Seq<BlockView>,
    k: int,
    p: int,
    txs: Seq<TransactionView>,
    n: int,
    m: int,
) -> spec_fn(int) -> bool {
    |i: int|
        spent_before(blocks, k, p, blocks[k].transactions[p].id, i) || spent_by(
            txs,
            n,
            m,
            blocks[k].transactions[p].id,
            i,
        )
}

/// The outputs of transaction `p` of block `k` that are left once the
/// first `n` new transactions and the first `m` inputs of the next are
/// applied.
pub open spec fn remaining(
    blocks: Seq<BlockView>,
    k: int,
    p: int,
    txs: Seq<TransactionView>,
    n: int,
    m: int,
) -> Seq<ListedView> {
    keep_unspent(blocks[k].transactions[p].v_out, still_spent(blocks, k, p, txs, n, m))
}

/// The store keeps exactly `outs` under `id`: their encoding, or nothing
/// where there are none.
pub open spec fn entry_is(store: StoreMap, id: Seq<char>, outs: Seq<ListedView>) -> bool {
    if outs.len() > 0 {
        store.contains_key(id) && store[id] == ValueView::Bytes(enc_entry(outs))
    } else {
        !store.contains_key(id)
    }
}

/// `key` is the id of a transaction of the chain or of one of the first
/// `n` new transactions.
pub open spec fn known_id(blocks: Seq<BlockView>, txs: Seq<TransactionView>, n: int, key: Seq<char>) -> bool {
    ||| exists|k: int, p: int|
        is_position(blocks, k, p) && (#[trigger] blocks[k].transactions[p]).id == key
    ||| exists|q: int| 0 <= q < n && q < txs.len() && (#[trigger] txs[q]).id == key
}

/// The store is the index of the chain with the first `n` new
/// transactions and the first `m` inputs of the next applied.
pub open spec fn tracks(
    store: StoreMap,
    blocks: Seq<BlockView>,
    txs: Seq<TransactionView>,
    n: int,
    m: int,
) -> bool {
    &&& forall|k: int, p: int|
        is_position(blocks, k, p) ==> entry_is(
            store,
            blocks[k].transactions[p].id,
            #[trigger] remaining(blocks, k, p, txs, n, m),
        )
    &&& forall|q: int|
        0 <= q < n && q < txs.len() ==> entry_is(
            store,
            (#[trigger] txs[q]).id,
            numbered(txs[q].v_out),
        )
    &&& forall|key: Seq<char>| #[trigger] store.contains_key(key) ==> known_id(blocks, txs, n, key)
}

/// Input `m` of new transaction `n` names a transaction of the chain
/// that has an unspent output left when the input is applied.
pub open spec fn source_is_listed(blocks: Seq<BlockView>, txs: Seq<TransactionView>, n: int, m: int) -> bool {
    exists|k: int, p: int| is_position(blocks, k, p) && is_listed_source(blocks, txs, n, m, k, p)
}

/// Transaction `p` of block `k` is the one that input `m` of new
/// transaction `n` names, and it has an unspent output left when the
/// input is applied.
pub open spec fn is_listed_source(
    blocks: Seq<BlockView>,
    txs: Seq<TransactionView>,
    n: int,
    m: int,
    k: int,
    p: int,
) -> bool {
    &&& blocks[k].transactions[p].id == txs[n].v_in[m].tx_id
    &&& remaining(blocks, k, p, txs, n, m).len() > 0
}

/// The new transactions can be applied to the index of the chain with the
/// same result as rebuilding it: no two transactions of the chain and the
/// block have the same id; every new transaction has an output; all
/// outputs can be encoded; and every input of a new transaction that is
/// no coinbase names a transaction of the chain that has an unspent
/// output left.
pub open spec fn extends_chain(blocks: Seq<BlockView>, txs: Seq<TransactionView>) -> bool {
    &&& forall|k: int, p: int| is_position(blocks, k, p) ==> #[trigger] id_is_unique(blocks, k, p)
    &&& forall|k: int, p: int|
        is_position(blocks, k, p) ==> outputs_fit((#[trigger] blocks[k].transactions[p]).v_out)
    &&& forall|q: int, k: int, p: int|
        0 <= q < txs.len() && is_position(blocks, k, p) ==> (#[trigger] txs[q]).id != (
        #[trigger] blocks[k].transactions[p]).id
    &&& forall|q1: int, q2: int|
        0 <= q1 < txs.len() && 0 <= q2 < txs.len() && q1 != q2 ==> (#[trigger] txs[q1]).id != (
        #[trigger] txs[q2]).id
    &&& forall|q: int|
        0 <= q < txs.len() ==> (#[trigger] txs[q]).v_out.len() > 0 && outputs_fit(txs[q].v_out)
    &&& forall|n: int, m: int|
        0 <= n < txs.len() && !is_coinbase(txs[n]) && 0 <= m < txs[n].v_in.len()
            ==> #[trigger] source_is_listed(blocks, txs, n, m)
}

/// An input that names an output of a transaction of the chain which is
/// unspent when the input is applied names a transaction that has an
/// unspent output left.
pub proof fn lemma_unspent_source_is_listed(
    blocks: Seq<BlockView>,
    txs: Seq<TransactionView>,
    n: int,
    m: int,
    k: int,
    p: int,
)
    requires
        is_position(blocks, k, p),
        blocks[k].transactions[p].id == txs[n].v_in[m].tx_id,
        0 <= txs[n].v_in[m].v_out < blocks[k].transactions[p].v_out.len(),
        !spent_before(
            blocks,
            k,
            p,
            blocks[k].transactions[p].id,
            txs[n].v_in[m].v_out as int,
        ),
        !spent_by(txs, n, m, blocks[k].transactions[p].id, txs[n].v_in[m].v_out as int),
    ensures
        source_is_listed(blocks, txs, n, m),
{
    let f = still_spent(blocks, k, p, txs, n, m);
    lemma_keep_nonempty(blocks[k].transactions[p].v_out, f, txs[n].v_in[m].v_out as int);
    assert(is_listed_source(blocks, txs, n, m, k, p));
}

/// Applying one more input spends what was spent and what that input
/// spends.
proof fn lemma_spent_by_input(txs: Seq<TransactionView>, n: int, m: int, id: Seq<char>, i: int)
    requires
        0 <= n < txs.len(),
        !is_coinbase(txs[n]),
        0 <= m < txs[n].v_in.len(),
    ensures
        spent_by(txs, n, m + 1, id, i) <==> (spent_by(txs, n, m, id, i) || (txs[n].v_in[m].tx_id
            == id && txs[n].v_in[m].v_out == i)),
{
    let t = txs[n];
    if spends_within(t, m + 1, id, i) {
        let w = choose|w: int|
            0 <= w < m + 1 && w < t.v_in.len() && (#[trigger] t.v_in[w]).tx_id == id
                && t.v_in[w].v_out == i;
        if w < m {
            assert(spends_within(t, m, id, i));
        }
    }
    if spends_within(t, m, id, i) {
        let w = choose|w: int|
            0 <= w < m && w < t.v_in.len() && (#[trigger] t.v_in[w]).tx_id == id && t.v_in[w].v_out
                == i;
        assert(0 <= w < m + 1);
    }
    if t.v_in[m].tx_id == id && t.v_in[m].v_out == i {
        assert(spends_within(t, m + 1, id, i));
    }
}

/// Once all inputs of a transaction are applied, or none where it is a
/// coinbase, what is spent is what the transactions up to and with it
/// spend.
proof fn lemma_spent_by_next(txs: Seq<TransactionView>, n: int, id: Seq<char>, i: int)
    requires
        0 <= n < txs.len(),
    ensures
        spent_by(txs, n + 1, 0, id, i) <==> spent_by(
            txs,
            n,
            if is_coinbase(txs[n]) {
                0
            } else {
                txs[n].v_in.len() as int
            },
            id,
            i,
        ),
{
    let m = if is_coinbase(txs[n]) {
        0
    } else {
        txs[n].v_in.len() as int
    };
    if spent_by(txs, n + 1, 0, id, i) {
        let q = choose|q: int| 0 <= q < n + 1 && q < txs.len() && #[trigger] spends(txs[q], id, i);
        if q < n {
            assert(spent_by(txs, n, m, id, i));
        }
    }
    if spent_by(txs, n, m, id, i) {
        if spends_within(txs[n], m, id, i) {
            assert(spends(txs[n], id, i));
        } else {
            let q = choose|q: int| 0 <= q < n && q < txs.len() && #[trigger] spends(txs[q], id, i);
            assert(0 <= q < n + 1);
        }
    }
}

/// Spending an input takes the output that it names out of the entry of
/// its transaction and leaves every other entry as it is.
pub proof fn lemma_spend_step(
    store: StoreMap,
    blocks: Seq<BlockView>,
    txs: Seq<TransactionView>,
    n: int,
    m: int,
)
    requires
        extends_chain(blocks, txs),
        tracks(store, blocks, txs, n, m),
        0 <= n < txs.len(),
        !is_coinbase(txs[n]),
        0 <= m < txs[n].v_in.len(),
    ensures
        spend(store, txs[n].v_in[m]) is Ok,
        tracks(spend(store, txs[n].v_in[m]).unwrap(), blocks, txs, n, m + 1),
{
    let input = txs[n].v_in[m];
    assert(source_is_listed(blocks, txs, n, m));
    let (k, p) = choose|k: int, p: int|
        is_position(blocks, k, p) && is_listed_source(blocks, txs, n, m, k, p);
    let source = blocks[k].transactions[p];
    let id = source.id;
    let i = input.v_out as int;
    let f = still_spent(blocks, k, p, txs, n, m);
    let g = still_spent(blocks, k, p, txs, n, m + 1);
    let r = remaining(blocks, k, p, txs, n, m);
    assert forall|j: int| 0 <= j < source.v_out.len() implies #[trigger] g(j) == (f(j) || j
        == i) by {
        lemma_spent_by_input(txs, n, m, id, j);
    }
    assert(outputs_fit(source.v_out));
    lemma_keep_fits(source.v_out, f);
    lemma_keep_without(source.v_out, f, g, i);
    lemma_entry_round_trip(r, Seq::<u8>::empty());
    assert(enc_entry(r) + Seq::<u8>::empty() =~= enc_entry(r));
    assert(entry_is(store, id, r));
    assert(outputs_at(store, input.tx_id) == Ok::<Seq<ListedView>, Error>(r));
    let kept = without(r, i);
    assert(kept == remaining(blocks, k, p, txs, n, m + 1));
    let next = spend(store, input).unwrap();
    assert forall|k1: int, p1: int| is_position(blocks, k1, p1) implies entry_is(
        next,
        blocks[k1].transactions[p1].id,
        #[trigger] remaining(blocks, k1, p1, txs, n, m + 1),
    ) by {
        if k1 == k && p1 == p {
        } else {
            assert(id_is_unique(blocks, k, p));
            let other = blocks[k1].transactions[p1];
            assert(other.id != id);
            let f1 = still_spent(blocks, k1, p1, txs, n, m);
            let g1 = still_spent(blocks, k1, p1, txs, n, m + 1);
            assert forall|j: int| 0 <= j < other.v_out.len() implies #[trigger] f1(j) == g1(
                j,
            ) by {
                lemma_spent_by_input(txs, n, m, other.id, j);
            }
            lemma_keep_same(other.v_out, f1, g1);
            assert(entry_is(store, other.id, remaining(blocks, k1, p1, txs, n, m)));
        }
    }
    assert forall|q: int| 0 <= q < n && q < txs.len() implies entry_is(
        next,
        (#[trigger] txs[q]).id,
        numbered(txs[q].v_out),
    ) by {
        assert(txs[q].id != blocks[k].transactions[p].id);
    }
    assert forall|key: Seq<char>| #[trigger] next.contains_key(key) implies known_id(
        blocks,
        txs,
        n,
        key,
    ) by {
        if key == id {
            assert(blocks[k].transactions[p].id == key);
        } else {
            assert(store.contains_key(key));
        }
    }
}

/// Entering the outputs of a new transaction, once its inputs are spent,
/// gives the index with that transaction applied.
pub proof fn lemma_enter_step(
    store: StoreMap,
    blocks: Seq<BlockView>,
    txs: Seq<TransactionView>,
    n: int,
)
    requires
        extends_chain(blocks, txs),
        0 <= n < txs.len(),
        tracks(
            store,
            blocks,
            txs,
            n,
            if is_coinbase(txs[n]) {
                0
            } else {
                txs[n].v_in.len() as int
            },
        ),
    ensures
        tracks(
            store.insert(txs[n].id, ValueView::Bytes(enc_entry(numbered(txs[n].v_out)))),
            blocks,
            txs,
            n + 1,
            0,
        ),
{
    let m = if is_coinbase(txs[n]) {
        0
    } else {
        txs[n].v_in.len() as int
    };
    let t = txs[n];
    let next = store.insert(t.id, ValueView::Bytes(enc_entry(numbered(t.v_out))));
    assert forall|k: int, p: int| is_position(blocks, k, p) implies entry_is(
        next,
        blocks[k].transactions[p].id,
        #[trigger] remaining(blocks, k, p, txs, n + 1, 0),
    ) by {
        let source = blocks[k].transactions[p];
        assert(txs[n].id != blocks[k].transactions[p].id);
        let f = still_spent(blocks, k, p, txs, n, m);
        let g = still_spent(blocks, k, p, txs, n + 1, 0);
        assert forall|j: int| 0 <= j < source.v_out.len() implies #[trigger] f(j) == g(j) by {
            lemma_spent_by_next(txs, n, source.id, j);
        }
        lemma_keep_same(source.v_out, f, g);
        assert(entry_is(store, source.id, remaining(blocks, k, p, txs, n, m)));
    }
    assert forall|q: int| 0 <= q < n + 1 && q < txs.len() implies entry_is(
        next,
        (#[trigger] txs[q]).id,
        numbered(txs[q].v_out),
    ) by {
        if q < n {
            assert(txs[q].id != txs[n].id);
        }
    }
    assert forall|key: Seq<char>| #[trigger] next.contains_key(key) implies known_id(
        blocks,
        txs,
        n + 1,
        key,
    ) by {
        if key == t.id {
            assert(txs[n].id == key);
        } else {
            assert(store.contains_key(key));
            assert(known_id(blocks, txs, n, key));
            if exists|q: int| 0 <= q < n && q < txs.len() && (#[trigger] txs[q]).id == key {
                let q = choose|q: int| 0 <= q < n && q < txs.len() && (#[trigger] txs[q]).id == key;
                assert(0 <= q < n + 1);
            }
        }
    }
}

/// Spending the first `m` inputs of new transaction `n`, in order,
/// succeeds and gives the index with those inputs applied.
pub proof fn lemma_spend_inputs(
    store: StoreMap,
    blocks: Seq<BlockView>,
    txs: Seq<TransactionView>,
    n: int,
    m: nat,
)
    requires
        extends_chain(blocks, txs),
        tracks(store, blocks, txs, n, 0),
        0 <= n < txs.len(),
        !is_coinbase(txs[n]),
        m <= txs[n].v_in.len(),
    ensures
        spend_first(store, txs[n].v_in, m) is Ok,
        tracks(spend_first(store, txs[n].v_in, m).unwrap(), blocks, txs, n, m as int),
    decreases m,
{
    if m > 0 {
        lemma_spend_inputs(store, blocks, txs, n, (m - 1) as nat);
        let so_far = spend_first(store, txs[n].v_in, (m - 1) as nat).unwrap();
        lemma_spend_step(so_far, blocks, txs, n, m - 1);
    }
}

/// Applying the first `n` new transactions succeeds and gives the index
/// with those transactions applied.
pub proof fn lemma_apply_transactions(
    store: StoreMap,
    blocks: Seq<BlockView>,
    txs: Seq<TransactionView>,
    n: nat,
)
    requires
        extends_chain(blocks, txs),
        tracks(store, blocks, txs, 0, 0),
        n <= txs.len(),
    ensures
        apply_first(store, txs, n) is Ok,
        tracks(apply_first(store, txs, n).unwrap(), blocks, txs, n as int, 0),
    decreases n,
{
    if n > 0 {
        lemma_apply_transactions(store, blocks, txs, (n - 1) as nat);
        let so_far = apply_first(store, txs, (n - 1) as nat).unwrap();
        let t = txs[n - 1];
        if !is_coinbase(t) {
            lemma_spend_inputs(so_far, blocks, txs, n - 1, t.v_in.len());
            let spent = spend_first(so_far, t.v_in, t.v_in.len()).unwrap();
            lemma_enter_step(spent, blocks, txs, n - 1);
        } else {
            lemma_enter_step(so_far, blocks, txs, n - 1);
        }
    }
}

/// Every key of the gathered outputs is the id of a transaction that was
/// read.
pub proof fn lemma_keys_are_ids(blocks: Seq<BlockView>, at_k: nat, at_p: nat, key: Seq<char>)
    requires
        at_k <= blocks.len(),
        at_k < blocks.len() ==> at_p <= blocks[at_k as int].transactions.len(),
        at_k == blocks.len() ==> at_p == 0,
        unspent_after(blocks, at_k, at_p).contains_key(key),
    ensures
        exists|k: int, p: int|
            is_position(blocks, k, p) && (#[trigger] blocks[k].transactions[p]).id == key,
    decreases at_k, at_p,
{
    if at_p > 0 {
        let earlier = unspent_after(blocks, at_k, (at_p - 1) as nat);
        let t = blocks[at_k as int].transactions[at_p - 1];
        if t.id == key {
            assert(is_position(blocks, at_k as int, at_p - 1));
        } else {
            assert(earlier.contains_key(key));
            lemma_keys_are_ids(blocks, at_k, (at_p - 1) as nat, key);
        }
    } else if at_k > 0 {
        lemma_keys_are_ids(blocks, (at_k - 1) as nat, blocks[at_k - 1].transactions.len(), key);
    }
}

/// The index that is rebuilt from a chain is the index of the chain with
/// none of the new transactions applied.
pub proof fn lemma_rebuilt_index_tracks(blocks: Seq<BlockView>, txs: Seq<TransactionView>)
    requires
        extends_chain(blocks, txs),
    ensures
        tracks(index_of(unspent(blocks)), blocks, txs, 0, 0),
{
    let store = index_of(unspent(blocks));
    assert forall|k: int, p: int| is_position(blocks, k, p) implies entry_is(
        store,
        blocks[k].transactions[p].id,
        #[trigger] remaining(blocks, k, p, txs, 0, 0),
    ) by {
        let source = blocks[k].transactions[p];
        assert(id_is_unique(blocks, k, p));
        lemma_entry_after(blocks, blocks.len(), 0, k, p);
        assert(precedes(k, p, blocks.len() as int, 0));
        let f = spent_earlier(blocks, k, p);
        let g = still_spent(blocks, k, p, txs, 0, 0);
        assert forall|j: int| 0 <= j < source.v_out.len() implies #[trigger] f(j) == g(j) by {
            assert(!spent_by(txs, 0, 0, source.id, j));
        }
        lemma_keep_same(source.v_out, f, g);
    }
    assert forall|key: Seq<char>| #[trigger] store.contains_key(key) implies known_id(
        blocks,
        txs,
        0,
        key,
    ) by {
        lemma_keys_are_ids(blocks, blocks.len(), 0, key);
    }
}

/// In the chain with the new block on top, what is spent before a
/// transaction of the old chain is what was spent before it and what the
/// new block spends.
proof fn lemma_spent_before_longer(
    blocks: Seq<BlockView>,
    block: BlockView,
    k: int,
    p: int,
    id: Seq<char>,
    i: int,
)
    requires
        is_position(blocks, k, p),
    ensures
        spent_before(seq![block] + blocks, k + 1, p, id, i) <==> (spent_before(blocks, k, p, id, i)
            || spent_by(block.transactions, block.transactions.len() as int, 0, id, i)),
{
    let longer = seq![block] + blocks;
    let txs = block.transactions;
    if spent_before(longer, k + 1, p, id, i) {
        let (k1, p1) = choose|k1: int, p1: int|
            0 <= k1 < longer.len() && 0 <= p1 < longer[k1].transactions.len() && precedes(
                k1,
                p1,
                k + 1,
                p,
            ) && #[trigger] spends(longer[k1].transactions[p1], id, i);
        if k1 == 0 {
            assert(longer[0] == block);
            assert(spends(txs[p1], id, i));
        } else {
            assert(longer[k1] == blocks[k1 - 1]);
            assert(precedes(k1 - 1, p1, k, p));
            assert(spends(blocks[k1 - 1].transactions[p1], id, i));
        }
    }
    if spent_before(blocks, k, p, id, i) {
        let (k1, p1) = choose|k1: int, p1: int|
            0 <= k1 < blocks.len() && 0 <= p1 < blocks[k1].transactions.len() && precedes(
                k1,
                p1,
                k,
                p,
            ) && #[trigger] spends(blocks[k1].transactions[p1], id, i);
        assert(longer[k1 + 1] == blocks[k1]);
        assert(precedes(k1 + 1, p1, k + 1, p));
        assert(spends(longer[k1 + 1].transactions[p1], id, i));
    }
    if spent_by(txs, txs.len() as int, 0, id, i) {
        let q = choose|q: int| 0 <= q < txs.len() && #[trigger] spends(txs[q], id, i);
        assert(longer[0] == block);
        assert(precedes(0, q, k + 1, p));
        assert(spends(longer[0].transactions[q], id, i));
    }
}

/// An input of a new transaction names a transaction of the chain.
proof fn lemma_inputs_name_the_chain(
    blocks: Seq<BlockView>,
    txs: Seq<TransactionView>,
    q: int,
    id: Seq<char>,
    i: int,
)
    requires
        extends_chain(blocks, txs),
        0 <= q < txs.len(),
        spends(txs[q], id, i),
    ensures
        exists|k: int, p: int|
            is_position(blocks, k, p) && (#[trigger] blocks[k].transactions[p]).id == id,
{
    let t = txs[q];
    let m = choose|m: int|
        0 <= m < t.v_in.len() && m < t.v_in.len() && (#[trigger] t.v_in[m]).tx_id == id
            && t.v_in[m].v_out == i;
    assert(source_is_listed(blocks, txs, q, m));
    let (k, p) = choose|k: int, p: int|
        is_position(blocks, k, p) && is_listed_source(blocks, txs, q, m, k, p);
    assert(blocks[k].transactions[p].id == id);
}

/// Two stores hold the same under `key`, or both nothing.
pub open spec fn agree_at(a: StoreMap, b: StoreMap, key: Seq<char>) -> bool {
    a.contains_key(key) == b.contains_key(key) && (a.contains_key(key) ==> a[key] == b[key])
}

/// The index with all new transactions applied is the index that is
/// rebuilt from the chain with the new block on top.
pub proof fn lemma_tracked_index_is_rebuilt(
    store: StoreMap,
    blocks: Seq<BlockView>,
    block: BlockView,
)
    requires
        extends_chain(blocks, block.transactions),
        tracks(store, blocks, block.transactions, block.transactions.len() as int, 0),
    ensures
        store == index_of(unspent(seq![block] + blocks)),
{
    let txs = block.transactions;
    let longer = seq![block] + blocks;
    let rebuilt = index_of(unspent(longer));
    assert(longer[0] == block);
    assert forall|k: int, p: int| is_position(longer, k, p) implies #[trigger] id_is_unique(
        longer,
        k,
        p,
    ) by {
        assert forall|k1: int, p1: int|
            0 <= k1 < longer.len() && 0 <= p1 < longer[k1].transactions.len() && !(k1 == k && p1
                == p) implies (#[trigger] longer[k1].transactions[p1]).id
            != longer[k].transactions[p].id by {
            if k > 0 {
                assert(longer[k] == blocks[k - 1]);
                assert(id_is_unique(blocks, k - 1, p));
            }
            if k1 > 0 {
                assert(longer[k1] == blocks[k1 - 1]);
                assert(is_position(blocks, k1 - 1, p1));
            }
            if k == 0 && k1 == 0 {
                assert(txs[p].id != txs[p1].id);
            } else if k == 0 {
                assert(txs[p].id != blocks[k1 - 1].transactions[p1].id);
            } else if k1 == 0 {
                assert(txs[p1].id != blocks[k - 1].transactions[p].id);
            } else {
                assert(blocks[k1 - 1].transactions[p1].id != blocks[k - 1].transactions[p].id);
            }
        }
    }
    // The entries of the transactions of the chain.
    assert forall|k: int, p: int| is_position(blocks, k, p) implies entry_is(
        rebuilt,
        (#[trigger] blocks[k].transactions[p]).id,
        remaining(blocks, k, p, txs, txs.len() as int, 0),
    ) by {
        let source = blocks[k].transactions[p];
        assert(longer[k + 1] == blocks[k]);
        assert(is_position(longer, k + 1, p));
        assert(id_is_unique(longer, k + 1, p));
        lemma_entry_after(longer, longer.len(), 0, k + 1, p);
        assert(precedes(k + 1, p, longer.len() as int, 0));
        let f = spent_earlier(longer, k + 1, p);
        let g = still_spent(blocks, k, p, txs, txs.len() as int, 0);
        assert forall|j: int| 0 <= j < source.v_out.len() implies #[trigger] f(j) == g(j) by {
            lemma_spent_before_longer(blocks, block, k, p, source.id, j);
        }
        lemma_keep_same(source.v_out, f, g);
    }
    // The entries of the new transactions.
    assert forall|q: int| 0 <= q < txs.len() implies entry_is(
        rebuilt,
        (#[trigger] txs[q]).id,
        numbered(txs[q].v_out),
    ) by {
        let t = txs[q];
        assert(is_position(longer, 0, q));
        assert(id_is_unique(longer, 0, q));
        lemma_entry_after(longer, longer.len(), 0, 0, q);
        assert(precedes(0, q, longer.len() as int, 0));
        let f = spent_earlier(longer, 0, q);
        assert forall|j: int| 0 <= j < t.v_out.len() implies !#[trigger] f(j) by {
            if spent_before(longer, 0, q, t.id, j) {
                let (k1, p1) = choose|k1: int, p1: int|
                    0 <= k1 < longer.len() && 0 <= p1 < longer[k1].transactions.len() && precedes(
                        k1,
                        p1,
                        0,
                        q,
                    ) && #[trigger] spends(longer[k1].transactions[p1], t.id, j);
                assert(k1 == 0);
                lemma_inputs_name_the_chain(blocks, txs, p1, t.id, j);
                let (k2, p2) = choose|k2: int, p2: int|
                    is_position(blocks, k2, p2) && (#[trigger] blocks[k2].transactions[p2]).id
                        == t.id;
                assert(txs[q].id != blocks[k2].transactions[p2].id);
            }
        }
        lemma_keep_all(t.v_out, f);
    }
    assert forall|key: Seq<char>| #[trigger] agree_at(store, rebuilt, key) by {
        if store.contains_key(key) || rebuilt.contains_key(key) {
            if rebuilt.contains_key(key) {
                lemma_keys_are_ids(longer, longer.len(), 0, key);
                let (k, p) = choose|k: int, p: int|
                    is_position(longer, k, p) && (#[trigger] longer[k].transactions[p]).id == key;
                if k == 0 {
                    assert(txs[p].id == key);
                } else {
                    assert(longer[k] == blocks[k - 1]);
                    assert(blocks[k - 1].transactions[p].id == key);
                    assert(is_position(blocks, k - 1, p));
                }
            } else {
                assert(known_id(blocks, txs, txs.len() as int, key));
            }
            if exists|q: int| 0 <= q < txs.len() && (#[trigger] txs[q]).id == key {
                let q = choose|q: int| 0 <= q < txs.len() && (#[trigger] txs[q]).id == key;
                assert(entry_is(store, txs[q].id, numbered(txs[q].v_out)));
                assert(entry_is(rebuilt, txs[q].id, numbered(txs[q].v_out)));
            } else {
                let (k, p) = choose|k: int, p: int|
                    is_position(blocks, k, p) && (#[trigger] blocks[k].transactions[p]).id == key;
                let r = remaining(blocks, k, p, txs, txs.len() as int, 0);
                assert(entry_is(store, blocks[k].transactions[p].id, r));
                assert(entry_is(rebuilt, blocks[k].transactions[p].id, r));
            }
        }
    }
    assert forall|key: Seq<char>| #[trigger]
        store.dom().contains(key) == rebuilt.dom().contains(key) by {
        assert(agree_at(store, rebuilt, key));
    }
    assert forall|key: Seq<char>| store.dom().contains(key) implies #[trigger] store[key]
        == rebuilt[key] by {
        assert(agree_at(store, rebuilt, key));
    }
    assert(store =~= rebuilt);
}

/// Bringing the index of a chain up to date with a new block gives the
/// index that is rebuilt from the chain with the block on top, where the
/// block extends the chain.
pub proof fn lemma_update_is_reindex(blocks: Seq<BlockView>, block: BlockView)
    requires
        extends_chain(blocks, block.transactions),
    ensures
        apply_block(index_of(unspent(blocks)), block.transactions) == Ok::<StoreMap, Error>(
            index_of(unspent(seq![block] + blocks)),
        ),
{
    let txs = block.transactions;
    let start = index_of(unspent(blocks));
    lemma_rebuilt_index_tracks(blocks, txs);
    lemma_apply_transactions(start, blocks, txs, txs.len());
    lemma_tracked_index_is_rebuilt(apply_first(start, txs, txs.len()).unwrap(), blocks, block);
}

/// The chain `base`, newest block first, with the first `n` of the blocks
/// `added` put on top one after the other.
pub open spec fn chain_with(base: Seq<BlockView>, added: Seq<BlockView>, n: nat) -> Seq<BlockView>
    decreases n,
{
    if n == 0 {
        base
    } else {
        seq![added[n - 1]] + chain_with(base, added, (n - 1) as nat)
    }
}

/// The index after it was brought up to date with the first `n` of the
/// blocks `added`, one after the other.
pub open spec fn updated_with(store: StoreMap, added: Seq<BlockView>, n: nat) -> Result<
    StoreMap,
    Error,
>
    decreases n,
{
    if n == 0 {
        Ok(store)
    } else {
        match updated_with(store, added, (n - 1) as nat) {
            Ok(s) => apply_block(s, added[n - 1].transactions),
            Err(e) => Err(e),
        }
    }
}

/// Rebuilding the index from a chain and then bringing it up to date
/// with every block that is put on top, in order, gives what rebuilding
/// it from the longer chain gives, where every block extends the chain
/// below it.
pub proof fn lemma_updates_are_reindex(base: Seq<BlockView>, added: Seq<BlockView>, n: nat)
    requires
        n <= added.len(),
        forall|i: nat|
            i < n ==> extends_chain(#[trigger] chain_with(base, added, i), added[i as int].transactions),
    ensures
        updated_with(index_of(unspent(base)), added, n) == Ok::<StoreMap, Error>(
            index_of(unspent(chain_with(base, added, n))),
        ),
    decreases n,
{
    if n > 0 {
        lemma_updates_are_reindex(base, added, (n - 1) as nat);
        let below = chain_with(base, added, (n - 1) as nat);
        assert(extends_chain(below, added[n - 1].transactions));
        lemma_update_is_reindex(below, added[n - 1]);
    }
}

/// The index of a chain that is one block with one coinbase: the key
/// hash that the coinbase pays owns one output, of the subsidy, and no
/// other key hash owns anything.
pub proof fn lemma_first_block_pays(genesis: BlockView, lock: Seq<u8>, data: Seq<u8>, other: Seq<u8>)
    requires
        genesis.transactions == seq![coinbase(lock, data)],
        lock.len() <= u64::MAX,
    ensures
        ({
            let blocks = seq![genesis];
            let store = index_of(unspent(blocks));
            let keys = crate::unspent::unspent_order(blocks);
            &&& keys == seq![coinbase(lock, data).id]
            &&& owned_within(store, keys, keys.len(), lock) == Ok::<Seq<TxOutputView>, Error>(
                seq![TxOutputView { value: SUBSIDY, pub_key_hash: lock }],
            )
            &&& other != lock ==> owned_within(store, keys, keys.len(), other) == Ok::<
                Seq<TxOutputView>,
                Error,
            >(Seq::empty())
        }),
{
    let blocks = seq![genesis];
    let t = coinbase(lock, data);
    let out = TxOutputView { value: SUBSIDY, pub_key_hash: lock };
    let entry = seq![ListedView { number: 0, output: out }];
    assert(blocks[0].transactions[0] == t);
    assert(t.v_out =~= seq![out]);
    let f = crate::unspent::spent_earlier(blocks, 0, 0);
    assert forall|j: int| 0 <= j < t.v_out.len() implies !#[trigger] f(j) by {
        assert(!spent_before(blocks, 0, 0, t.id, j));
    }
    lemma_keep_all(t.v_out, f);
    assert(numbered(t.v_out) =~= entry);
    let live = crate::unspent::live_outputs(blocks, 0, 0);
    assert(live == entry);
    let none = unspent_after(blocks, 0, 0);
    assert(none =~= Map::<Seq<char>, Seq<ListedView>>::empty());
    let one = unspent_after(blocks, 0, 1);
    assert(one == none.insert(t.id, entry));
    assert(unspent_after(blocks, 1, 0) == one);
    assert(unspent(blocks) == one);
    let keys = crate::unspent::unspent_order(blocks);
    assert(crate::unspent::order_after(blocks, 0, 0) =~= Seq::<Seq<char>>::empty());
    assert(crate::unspent::order_after(blocks, 0, 1) =~= seq![t.id]);
    assert(crate::unspent::order_after(blocks, 1, 0) == crate::unspent::order_after(blocks, 0, 1));
    assert(keys == seq![t.id]);
    let store = index_of(one);
    assert(store.contains_key(t.id));
    assert(store[t.id] == ValueView::Bytes(enc_entry(entry)));
    lemma_entry_round_trip(entry, Seq::<u8>::empty());
    assert(enc_entry(entry) + Seq::<u8>::empty() =~= enc_entry(entry));
    assert(outputs_at(store, keys[0]) == Ok::<Seq<ListedView>, Error>(entry));
    assert(entry.drop_last() =~= Seq::<ListedView>::empty());
    assert(locked_outputs(entry.drop_last(), lock) =~= Seq::<TxOutputView>::empty());
    assert(locked_outputs(entry, lock) =~= seq![out]);
    assert(locked_outputs(entry.drop_last(), other) =~= Seq::<TxOutputView>::empty());
    assert(owned_within(store, keys, 0, lock) == Ok::<Seq<TxOutputView>, Error>(Seq::empty()));
    assert(owned_within(store, keys, 0, other) == Ok::<Seq<TxOutputView>, Error>(Seq::empty()));
    assert(Seq::<TxOutputView>::empty() + seq![out] =~= seq![out]);
    assert(Seq::<TxOutputView>::empty() + Seq::<TxOutputView>::empty() =~= Seq::<
        TxOutputView,
    >::empty());
    if other != lock {
        assert(locked_outputs(entry, other) =~= Seq::<TxOutputView>::empty());
    }
}

} // verus!
