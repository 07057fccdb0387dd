//! The index of unspent outputs: a store that keeps, under the id of each
//! transaction that has any, the list of its unspent outputs. It is
//! rebuilt from the chain, or brought up to date block by block.

use vstd::prelude::*;
use vstd::slice::*;
use vstd::string::*;

use crate::block::Block;
use crate::blockchain::Blockchain;
use crate::consistency::{extends_chain, lemma_update_is_reindex};
use crate::error::Error;
use crate::model::{
    dec_entry, enc_entry, is_coinbase, numbered, BlockView, ListedView, TransactionView,
    TxInputView, TxOutputView,
};
use crate::store::{copy_store, Store, StoreMap, StoreValue, ValueView};
use crate::table::Table;
use crate::transaction::{
    clone_outputs, input_views, output_views, tx_views, Transaction, TXInput, TXOutput, TXOutputs,
};
use crate::unspent::{unspent, unspent_order, UnspentMap};

verus! {

/// The outputs listed under `key`, which must be there as bytes that
/// decode.
pub open spec fn outputs_at(store: StoreMap, key: Seq<char>) -> Result<Seq<ListedView>, Error> {
    if !store.contains_key(key) {
        Err(Error::EntryNotFound)
    } else {
        match store[key] {
            ValueView::Bytes(bytes) => match dec_entry(bytes) {
                Some((outs, _)) => Ok(outs),
                None => Err(Error::Malformed),
            },
            ValueView::Text(_) => Err(Error::WrongValueKind),
        }
    }
}

/// The store that keeps the given unspent outputs.
pub open spec fn index_of(m: UnspentMap) -> StoreMap {
    Map::new(|k: Seq<char>| m.contains_key(k), |k: Seq<char>| ValueView::Bytes(enc_entry(m[k])))
}

/// The outputs listed in `outs` that are locked to `lock`, in order.
pub open spec fn locked_outputs(outs: Seq<ListedView>, lock: Seq<u8>) -> Seq<TxOutputView>
    decreases outs.len(),
{
    if outs.len() == 0 {
        Seq::empty()
    } else {
        let rest = locked_outputs(outs.drop_last(), lock);
        if outs.last().output.pub_key_hash == lock {
            rest.push(outs.last().output)
        } else {
            rest
        }
    }
}

/// The outputs locked to `lock` under the first `n` keys, in the order of
/// the keys; the first entry that cannot be read decides the error.
pub open spec fn owned_within(store: StoreMap, keys: Seq<Seq<char>>, n: nat, lock: Seq<u8>) -> Result<
    Seq<TxOutputView>,
    Error,
>
    decreases n,
{
    if n == 0 {
        Ok(Seq::empty())
    } else {
        match owned_within(store, keys, (n - 1) as nat, lock) {
            Ok(found) => match outputs_at(store, keys[n - 1]) {
                Ok(outs) => Ok(found + locked_outputs(outs, lock)),
                Err(e) => Err(e),
            },
            Err(e) => Err(e),
        }
    }
}

/// What has been chosen for spending: the sum of the chosen values, the
/// chosen output numbers by transaction id, and the ids in the order in
/// which their first output was chosen.
pub struct Chosen {
    pub sum: int,
    pub numbers: Map<Seq<char>, Seq<i32>>,
    pub order: Seq<Seq<char>>,
}

/// The choice after looking at one output listed in the entry `key`: the
/// output is chosen, by its number, where it is locked to `lock` and the
/// sum has not reached `amount`.
pub open spec fn choose_one(
    chosen: Chosen,
    key: Seq<char>,
    listed: ListedView,
    lock: Seq<u8>,
    amount: int,
) -> Result<Chosen, Error> {
    let number = listed.number as int;
    let out = listed.output;
    if out.pub_key_hash == lock && chosen.sum < amount {
        if number > i32::MAX {
            Err(Error::IndexOverflow)
        } else if !(i32::MIN <= chosen.sum + out.value <= i32::MAX) {
            Err(Error::AmountOverflow)
        } else {
            Ok(
                Chosen {
                    sum: chosen.sum + out.value,
                    numbers: chosen.numbers.insert(
                        key,
                        if chosen.numbers.contains_key(key) {
                            chosen.numbers[key].push(number as i32)
                        } else {
                            seq![number as i32]
                        },
                    ),
                    order: if chosen.numbers.contains_key(key) {
                        chosen.order
                    } else {
                        chosen.order.push(key)
                    },
                },
            )
        }
    } else {
        Ok(chosen)
    }
}

/// The choice after looking at the first `n` outputs of the entry `key`.
pub open spec fn choose_from(
    chosen: Chosen,
    key: Seq<char>,
    outs: Seq<ListedView>,
    n: nat,
    lock: Seq<u8>,
    amount: int,
) -> Result<Chosen, Error>
    decreases n,
{
    if n == 0 {
        Ok(chosen)
    } else {
        match choose_from(chosen, key, outs, (n - 1) as nat, lock, amount) {
            Ok(so_far) => choose_one(so_far, key, outs[n - 1], lock, amount),
            Err(e) => Err(e),
        }
    }
}

/// The choice after looking at the entries under the first `n` keys.
pub open spec fn choose_within(
    store: StoreMap,
    keys: Seq<Seq<char>>,
    n: nat,
    lock: Seq<u8>,
    amount: int,
) -> Result<Chosen, Error>
    decreases n,
{
    if n == 0 {
        Ok(Chosen { sum: 0, numbers: Map::empty(), order: Seq::empty() })
    } else {
        match choose_within(store, keys, (n - 1) as nat, lock, amount) {
            Ok(so_far) => match outputs_at(store, keys[n - 1]) {
                Ok(outs) => choose_from(so_far, keys[n - 1], outs, outs.len(), lock, amount),
                Err(e) => Err(e),
            },
            Err(e) => Err(e),
        }
    }
}

/// The list without the output that is listed with the number `number`;
/// the list itself where no output is.
pub open spec fn without(outs: Seq<ListedView>, number: int) -> Seq<ListedView>
    decreases outs.len(),
{
    if outs.len() == 0 {
        Seq::empty()
    } else {
        let rest = without(outs.drop_last(), number);
        if outs.last().number == number {
            rest
        } else {
            rest.push(outs.last())
        }
    }
}

/// What is left of an entry without the output with a number: every
/// listed output with another number, and nothing else.
pub proof fn lemma_without_keeps_the_others(outs: Seq<ListedView>, number: int, listed: ListedView)
    ensures
        without(outs, number).contains(listed) <==> outs.contains(listed) && listed.number
            != number,
    decreases outs.len(),
{
    if outs.len() > 0 {
        let front = outs.drop_last();
        let rest = without(front, number);
        lemma_without_keeps_the_others(front, number, listed);
        if outs.contains(listed) {
            let i = choose|i: int| 0 <= i < outs.len() && outs[i] == listed;
            if i < front.len() {
                assert(front[i] == listed);
            }
        }
        if front.contains(listed) {
            let i = choose|i: int| 0 <= i < front.len() && front[i] == listed;
            assert(outs[i] == listed);
        }
        assert(outs[outs.len() - 1] == outs.last());
        if outs.last().number != number {
            let all = rest.push(outs.last());
            if all.contains(listed) {
                let i = choose|i: int| 0 <= i < all.len() && all[i] == listed;
                if i < rest.len() {
                    assert(rest[i] == listed);
                }
            }
            if rest.contains(listed) {
                let i = choose|i: int| 0 <= i < rest.len() && rest[i] == listed;
                assert(all[i] == listed);
            }
            assert(all[all.len() - 1] == outs.last());
        }
    }
}

/// The store after an input is spent: the entry of the transaction that
/// the input names loses the output with the number that the input
/// names, and goes altogether where nothing is left of it.
pub open spec fn spend(store: StoreMap, input: TxInputView) -> Result<StoreMap, Error> {
    match outputs_at(store, input.tx_id) {
        Ok(outs) => {
            let kept = without(outs, input.v_out as int);
            if kept.len() == 0 {
                Ok(store.remove(input.tx_id))
            } else {
                Ok(store.insert(input.tx_id, ValueView::Bytes(enc_entry(kept))))
            }
        },
        Err(e) => Err(e),
    }
}

/// The keys after an input is spent: the key of an entry of which
/// nothing is left goes, the others keep their order.
pub open spec fn spend_order(store: StoreMap, keys: Seq<Seq<char>>, input: TxInputView) -> Seq<
    Seq<char>,
> {
    match outputs_at(store, input.tx_id) {
        Ok(outs) => if without(outs, input.v_out as int).len() == 0 {
            keys.remove(keys.index_of(input.tx_id))
        } else {
            keys
        },
        Err(_) => keys,
    }
}

/// The keys after the first `n` inputs are spent.
pub open spec fn spend_first_order(
    store: StoreMap,
    keys: Seq<Seq<char>>,
    inputs: Seq<TxInputView>,
    n: nat,
) -> Seq<Seq<char>>
    decreases n,
{
    if n == 0 {
        keys
    } else {
        match spend_first(store, inputs, (n - 1) as nat) {
            Ok(s) => spend_order(
                s,
                spend_first_order(store, keys, inputs, (n - 1) as nat),
                inputs[n - 1],
            ),
            Err(_) => keys,
        }
    }
}

/// The keys after a transaction is applied: its id goes to the end unless
/// it is a key already.
pub open spec fn apply_tx_order(store: StoreMap, keys: Seq<Seq<char>>, t: TransactionView) -> Seq<
    Seq<char>,
> {
    if is_coinbase(t) {
        if store.contains_key(t.id) {
            keys
        } else {
            keys.push(t.id)
        }
    } else {
        match spend_first(store, t.v_in, t.v_in.len()) {
            Ok(s) => {
                let spent = spend_first_order(store, keys, t.v_in, t.v_in.len());
                if s.contains_key(t.id) {
                    spent
                } else {
                    spent.push(t.id)
                }
            },
            Err(_) => keys,
        }
    }
}

/// The keys after the first `n` transactions are applied.
pub open spec fn apply_first_order(
    store: StoreMap,
    keys: Seq<Seq<char>>,
    txs: Seq<TransactionView>,
    n: nat,
) -> Seq<Seq<char>>
    decreases n,
{
    if n == 0 {
        keys
    } else {
        match apply_first(store, txs, (n - 1) as nat) {
            Ok(s) => apply_tx_order(
                s,
                apply_first_order(store, keys, txs, (n - 1) as nat),
                txs[n - 1],
            ),
            Err(_) => keys,
        }
    }
}

/// The store after the first `n` inputs are spent, one after the other.
pub open spec fn spend_first(store: StoreMap, inputs: Seq<TxInputView>, n: nat) -> Result<
    StoreMap,
    Error,
>
    decreases n,
{
    if n == 0 {
        Ok(store)
    } else {
        match spend_first(store, inputs, (n - 1) as nat) {
            Ok(s) => spend(s, inputs[n - 1]),
            Err(e) => Err(e),
        }
    }
}

/// The store after a transaction is applied: its inputs are spent unless
/// it is a coinbase, and all its outputs are entered under its id, each
/// with its number.
pub open spec fn apply_tx(store: StoreMap, t: TransactionView) -> Result<StoreMap, Error> {
    let spent = if is_coinbase(t) {
        Ok(store)
    } else {
        spend_first(store, t.v_in, t.v_in.len())
    };
    match spent {
        Ok(s) => Ok(s.insert(t.id, ValueView::Bytes(enc_entry(numbered(t.v_out))))),
        Err(e) => Err(e),
    }
}

/// The store after the first `n` transactions are applied, in order.
pub open spec fn apply_first(store: StoreMap, txs: Seq<TransactionView>, n: nat) -> Result<
    StoreMap,
    Error,
>
    decreases n,
{
    if n == 0 {
        Ok(store)
    } else {
        match apply_first(store, txs, (n - 1) as nat) {
            Ok(s) => apply_tx(s, txs[n - 1]),
            Err(e) => Err(e),
        }
    }
}

/// The store after a block is applied.
pub open spec fn apply_block(store: StoreMap, txs: Seq<TransactionView>) -> Result<StoreMap, Error> {
    apply_first(store, txs, txs.len())
}

/// Reads the outputs kept under the key at position `i`.
fn entry_at(store: &Store, i: usize) -> (r: Result<TXOutputs, Error>)
    requires
        i < store.keys().len(),
    ensures
        match outputs_at(store@, store.keys()[i as int]) {
            Ok(outs) => r matches Ok(t) && t@ == outs,
            Err(e) => r matches Err(x) && x == e,
        },
{
    match store.value_at(i) {
        StoreValue::Bytes(bytes) => TXOutputs::deserialize(slice_to_vec(bytes.as_slice())),
        StoreValue::Text(_) => Err(Error::WrongValueKind),
    }
}

/// Reads the outputs kept under `key`.
fn entry_of(store: &Store, key: &str) -> (r: Result<TXOutputs, Error>)
    ensures
        match outputs_at(store@, key@) {
            Ok(outs) => r matches Ok(t) && t@ == outs,
            Err(e) => r matches Err(x) && x == e,
        },
{
    match store.get(key) {
        Some(StoreValue::Bytes(bytes)) => TXOutputs::deserialize(slice_to_vec(bytes.as_slice())),
        Some(StoreValue::Text(_)) => Err(Error::WrongValueKind),
        None => Err(Error::EntryNotFound),
    }
}

/// The index of unspent outputs.
pub struct UTXOSet {
    store: Store,
}

impl UTXOSet {
    /// What the store holds.
    pub closed spec fn store_view(&self) -> StoreMap {
        self.store@
    }

    /// The keys of the store, in their order.
    pub closed spec fn keys(&self) -> Seq<Seq<char>> {
        self.store.keys()
    }

    /// The name of the file that keeps the index of a node.
    pub fn get_store_name(node_id: &str) -> (name: String)
        ensures
            name@ == "utxo_set_"@ + node_id@ + ".db"@,
    {
        let mut name = "utxo_set_".to_owned();
        name.append(node_id);
        name.append(".db");
        name
    }

    /// The index that a store holds.
    pub fn new(store: Store) -> (set: UTXOSet)
        ensures
            set.store_view() == store@,
            set.keys() == store.keys(),
    {
        UTXOSet { store }
    }

    /// The store, as it is to be kept.
    pub fn store(&self) -> (r: &Store)
        ensures
            r@ == self.store_view(),
            r.keys() == self.keys(),
    {
        &self.store
    }

    /// Chooses outputs locked to `pub_key_hash` until their values reach
    /// `amount`: reads the entries in the order of the keys and the
    /// outputs of an entry in their order, and takes every output of that
    /// key hash as long as the sum is below `amount`. Returns the sum and
    /// the chosen output numbers by transaction id.
    pub fn find_spendable_outputs(&self, pub_key_hash: &[u8], amount: i32) -> (r: Result<
        (i32, Table<Vec<i32>>),
        Error,
    >)
        ensures
            match choose_within(
                self.store_view(),
                self.keys(),
                self.keys().len(),
                pub_key_hash@,
                amount as int,
            ) {
                Ok(chosen) => r matches Ok((sum, numbers)) && sum == chosen.sum && numbers@
                    == chosen.numbers && numbers.keys() == chosen.order,
                Err(e) => r matches Err(x) && x == e,
            },
    {
        let mut unspent_outputs: Table<Vec<i32>> = Table::new();
        let mut accumulated: i32 = 0;
        let n = self.store.len();
        let ghost store = self.store_view();
        let ghost keys = self.keys();
        let mut i: usize = 0;
        while i < n
            invariant
                i <= n,
                n == keys.len(),
                store == self.store_view(),
                keys == self.keys(),
                choose_within(store, keys, i as nat, pub_key_hash@, amount as int) == Ok::<
                    Chosen,
                    Error,
                >(
                    Chosen {
                        sum: accumulated as int,
                        numbers: unspent_outputs@,
                        order: unspent_outputs.keys(),
                    },
                ),
            decreases n - i,
        {
            let key = self.store.key_at(i);
            let outs = match entry_at(&self.store, i) {
                Ok(o) => o,
                Err(e) => {
                    proof {
                        lemma_choice_fails_with_prefix(
                            store,
                            keys,
                            i + 1,
                            pub_key_hash@,
                            amount as int,
                        );
                    }
                    return Err(e);
                },
            };
            let ghost start = Chosen {
                sum: accumulated as int,
                numbers: unspent_outputs@,
                order: unspent_outputs.keys(),
            };
            let mut idx: usize = 0;
            while idx < outs.outputs.len()
                invariant
                    idx <= outs.outputs@.len(),
                    outs@.len() == outs.outputs@.len(),
                    i < n,
                    n == keys.len(),
                    store == self.store_view(),
                    keys == self.keys(),
                    key@ == keys[i as int],
                    outputs_at(store, keys[i as int]) == Ok::<Seq<ListedView>, Error>(outs@),
                    choose_within(store, keys, i as nat, pub_key_hash@, amount as int) == Ok::<
                        Chosen,
                        Error,
                    >(start),
                    choose_from(
                        start,
                        key@,
                        outs@,
                        idx as nat,
                        pub_key_hash@,
                        amount as int,
                    ) == Ok::<Chosen, Error>(
                        Chosen {
                            sum: accumulated as int,
                            numbers: unspent_outputs@,
                            order: unspent_outputs.keys(),
                        },
                    ),
                decreases outs.outputs@.len() - idx,
            {
                let out = &outs.outputs[idx];
                assert(outs@[idx as int] == out@);
                if out.output.is_locked_with_key(pub_key_hash) && accumulated < amount {
                    let sum: i64 = accumulated as i64 + out.output.value() as i64;
                    if out.number > i32::MAX as u64 || sum > i32::MAX as i64 || sum < i32::MIN
                        as i64 {
                        proof {
                            assert(choose_from(
                                start,
                                key@,
                                outs@,
                                (idx + 1) as nat,
                                pub_key_hash@,
                                amount as int,
                            ) is Err);
                            lemma_choice_fails_within_entry(
                                start,
                                key@,
                                outs@,
                                idx + 1,
                                pub_key_hash@,
                                amount as int,
                            );
                            assert(choose_within(
                                store,
                                keys,
                                (i + 1) as nat,
                                pub_key_hash@,
                                amount as int,
                            ) is Err);
                            lemma_choice_fails_with_prefix(
                                store,
                                keys,
                                i + 1,
                                pub_key_hash@,
                                amount as int,
                            );
                        }
                        if out.number > i32::MAX as u64 {
                            return Err(Error::IndexOverflow);
                        }
                        return Err(Error::AmountOverflow);
                    }
                    accumulated = sum as i32;
                    let mut numbers: Vec<i32> = match unspent_outputs.get(key) {
                        Some(existing) => existing.clone(),
                        None => Vec::new(),
                    };
                    numbers.push(out.number as i32);
                    proof {
                        if !unspent_outputs@.contains_key(key@) {
                            assert(numbers@ =~= seq![out.number as i32]);
                        }
                    }
                    unspent_outputs.insert(key.to_owned(), numbers);
                }
                idx += 1;
            }
            i += 1;
        }
        Ok((accumulated, unspent_outputs))
    }

    /// The unspent outputs that are locked to `pub_key_hash`, in the
    /// order of the keys and, within an entry, of its outputs.
    pub fn find_utxo(&self, pub_key_hash: &[u8]) -> (r: Result<Vec<TXOutput>, Error>)
        ensures
            match owned_within(
                self.store_view(),
                self.keys(),
                self.keys().len(),
                pub_key_hash@,
            ) {
                Ok(outs) => r matches Ok(found) && output_views(found@) == outs && found@.len()
                    == outs.len(),
                Err(e) => r matches Err(x) && x == e,
            },
    {
        let mut utxos: Vec<TXOutput> = Vec::new();
        let n = self.store.len();
        let ghost store = self.store_view();
        let ghost keys = self.keys();
        let mut i: usize = 0;
        assert(output_views(utxos@) =~= Seq::<TxOutputView>::empty());
        while i < n
            invariant
                i <= n,
                n == keys.len(),
                store == self.store_view(),
                keys == self.keys(),
                owned_within(store, keys, i as nat, pub_key_hash@) == Ok::<
                    Seq<TxOutputView>,
                    Error,
                >(output_views(utxos@)),
            decreases n - i,
        {
            let outs = match entry_at(&self.store, i) {
                Ok(o) => o,
                Err(e) => {
                    proof {
                        lemma_owned_fails_with_prefix(store, keys, i + 1, pub_key_hash@);
                    }
                    return Err(e);
                },
            };
            let ghost found = output_views(utxos@);
            let mut j: usize = 0;
            assert(outs@.take(0) =~= Seq::<ListedView>::empty());
            assert(found + Seq::<TxOutputView>::empty() =~= found);
            while j < outs.outputs.len()
                invariant
                    j <= outs.outputs@.len(),
                    outs@.len() == outs.outputs@.len(),
                    output_views(utxos@) == found + locked_outputs(
                        outs@.take(j as int),
                        pub_key_hash@,
                    ),
                decreases outs.outputs@.len() - j,
            {
                let out = &outs.outputs[j];
                let ghost before = output_views(utxos@);
                proof {
                    let next = outs@.take(j + 1);
                    assert(next.drop_last() =~= outs@.take(j as int));
                    assert(next.last() == out@);
                }
                if out.output.is_locked_with_key(pub_key_hash) {
                    let copy = out.output.clone();
                    proof {
                        assert(output_views(utxos@.push(copy)) =~= before.push(copy@));
                        assert(before.push(copy@) =~= found + locked_outputs(
                            outs@.take(j as int),
                            pub_key_hash@,
                        ).push(copy@));
                    }
                    utxos.push(copy);
                }
                j += 1;
            }
            assert(outs@.take(j as int) =~= outs@);
            i += 1;
        }
        Ok(utxos)
    }

    /// The number of transactions that have an entry.
    pub fn count_transactions(&self) -> (n: usize)
        ensures
            n == self.keys().len(),
            n == self.store_view().dom().len(),
    {
        self.store.len()
    }

    /// Rebuilds the index from the chain: afterwards it keeps exactly the
    /// unspent outputs of the chain. Where the chain cannot be read the
    /// index is left as it was.
    pub fn reindex(&mut self, bc: &Blockchain) -> (r: Result<(), Error>)
        ensures
            match bc.chain() {
                Ok(blocks) => r is Ok && final(self).store_view() == index_of(unspent(blocks))
                    && final(self).keys() == unspent_order(blocks),
                Err(e) => r matches Err(x) && x == e && final(self).store_view() == old(
                    self,
                ).store_view() && final(self).keys() == old(self).keys(),
            },
    {
        let utxo = match bc.find_utxo() {
            Ok(t) => t,
            Err(e) => { return Err(e); },
        };
        let mut store: Store = Table::new();
        let n = utxo.len();
        let mut i: usize = 0;
        while i < n
            invariant
                i <= n,
                n == utxo.keys().len(),
                utxo.keys().no_duplicates(),
                store.keys() == utxo.keys().take(i as int),
                forall|k: Seq<char>| #[trigger]
                    store@.contains_key(k) ==> utxo@.contains_key(k) && store@[k]
                        == ValueView::Bytes(enc_entry(utxo@[k])),
            decreases n - i,
        {
            let key = utxo.key_at(i);
            let outs = utxo.value_at(i);
            proof {
                let keys = utxo.keys();
                assert(keys.take(i as int).push(key@) =~= keys.take(i + 1));
                if store@.contains_key(key@) {
                    let j = store.keys().index_of(key@);
                    assert(keys[j] == keys[i as int]);
                }
            }
            store.insert(key.to_owned(), StoreValue::Bytes(outs.serialize()));
            i += 1;
        }
        proof {
            assert(utxo.keys().take(n as int) =~= utxo.keys());
            assert(store@ =~= index_of(utxo@));
        }
        self.store = store;
        Ok(())
    }

    /// Spends one input in `store`.
    fn spend_input(store: &mut Store, input: &TXInput) -> (r: Result<(), Error>)
        ensures
            match spend(old(store)@, input@) {
                Ok(s) => r is Ok && final(store)@ == s && final(store).keys() == spend_order(
                    old(store)@,
                    old(store).keys(),
                    input@,
                ),
                Err(e) => r matches Err(x) && x == e && final(store)@ == old(store)@
                    && final(store).keys() == old(store).keys(),
            },
    {
        let outs = match entry_of(store, input.tx_id()) {
            Ok(o) => o,
            Err(e) => { return Err(e); },
        };
        let mut updated_outs = TXOutputs { outputs: Vec::new() };
        let number = input.v_out();
        let mut idx: usize = 0;
        assert(updated_outs@ =~= Seq::<ListedView>::empty());
        assert(outs@.take(0) =~= Seq::<ListedView>::empty());
        while idx < outs.outputs.len()
            invariant
                idx <= outs.outputs@.len(),
                outs@.len() == outs.outputs@.len(),
                updated_outs@ == without(outs@.take(idx as int), number as int),
            decreases outs.outputs@.len() - idx,
        {
            let ghost before = updated_outs@;
            proof {
                let next = outs@.take(idx + 1);
                assert(next.drop_last() =~= outs@.take(idx as int));
                assert(next.last() == outs.outputs@[idx as int]@);
            }
            if !(number >= 0 && outs.outputs[idx].number == number as u64) {
                let copy = outs.outputs[idx].clone();
                assert(crate::transaction::listed_views(updated_outs.outputs@.push(copy))
                    =~= before.push(copy@));
                updated_outs.outputs.push(copy);
            }
            idx += 1;
        }
        assert(outs@.take(idx as int) =~= outs@);
        if updated_outs.outputs.len() == 0 {
            store.remove(input.tx_id());
        } else {
            store.insert(input.tx_id().to_owned(), StoreValue::Bytes(updated_outs.serialize()));
        }
        Ok(())
    }

    /// Applies one transaction to `store`.
    fn apply_transaction(store: &mut Store, tx: &Transaction) -> (r: Result<(), Error>)
        ensures
            match apply_tx(old(store)@, tx@) {
                Ok(s) => r is Ok && final(store)@ == s && final(store).keys() == apply_tx_order(
                    old(store)@,
                    old(store).keys(),
                    tx@,
                ),
                Err(e) => r matches Err(x) && x == e,
            },
    {
        if !tx.is_coinbase() {
            let inputs = tx.v_in();
            let mut q: usize = 0;
            while q < inputs.len()
                invariant
                    q <= inputs@.len(),
                    !is_coinbase(tx@),
                    tx@.v_in == input_views(inputs@),
                    spend_first(old(store)@, tx@.v_in, q as nat) == Ok::<StoreMap, Error>(store@),
                    store.keys() == spend_first_order(
                        old(store)@,
                        old(store).keys(),
                        tx@.v_in,
                        q as nat,
                    ),
                decreases inputs@.len() - q,
            {
                assert(tx@.v_in[q as int] == inputs@[q as int]@);
                match Self::spend_input(store, &inputs[q]) {
                    Ok(()) => {},
                    Err(e) => {
                        proof {
                            assert(spend_first(old(store)@, tx@.v_in, (q + 1) as nat) == Err::<
                                StoreMap,
                                Error,
                            >(e));
                            lemma_spend_fails_with_prefix(old(store)@, tx@.v_in, q + 1);
                        }
                        return Err(e);
                    },
                }
                q += 1;
            }
        }
        let new_outputs = TXOutputs::new(clone_outputs(tx.v_out()));
        store.insert(tx.id().to_owned(), StoreValue::Bytes(new_outputs.serialize()));
        Ok(())
    }

    /// Brings the index up to date with a new block: for each of its
    /// transactions in order, the outputs that its inputs spend leave
    /// the index, and all its outputs enter it, each with its number. An
    /// input takes from the entry of the transaction it names the output
    /// with the number it names. Where an entry that is spent from is
    /// missing or cannot be read, the index is left as it was. An index
    /// that keeps the unspent outputs of a chain keeps, after a block
    /// that extends the chain, the unspent outputs of the chain with the
    /// block on top.
    pub fn update(&mut self, block: &Block) -> (r: Result<(), Error>)
        ensures
            match apply_block(old(self).store_view(), block@.transactions) {
                Ok(s) => r is Ok && final(self).store_view() == s && final(self).keys()
                    == apply_first_order(
                    old(self).store_view(),
                    old(self).keys(),
                    block@.transactions,
                    block@.transactions.len(),
                ),
                Err(e) => r matches Err(x) && x == e && final(self).store_view() == old(
                    self,
                ).store_view() && final(self).keys() == old(self).keys(),
            },
            forall|blocks: Seq<BlockView>|
                old(self).store_view() == index_of(unspent(blocks)) && #[trigger] extends_chain(
                    blocks,
                    block@.transactions,
                ) ==> r is Ok && final(self).store_view() == index_of(
                    unspent(seq![block@] + blocks),
                ),
    {
        proof {
            assert forall|blocks: Seq<BlockView>|
                self.store_view() == index_of(unspent(blocks)) && #[trigger] extends_chain(
                    blocks,
                    block@.transactions,
                ) implies apply_block(self.store_view(), block@.transactions) == Ok::<
                StoreMap,
                Error,
            >(index_of(unspent(seq![block@] + blocks))) by {
                lemma_update_is_reindex(blocks, block@);
            }
        }
        let mut work = copy_store(&self.store);
        let txs = block.transactions();
        let ghost views = block@.transactions;
        let ghost start = self.store_view();
        let mut p: usize = 0;
        while p < txs.len()
            invariant
                p <= txs@.len(),
                views == tx_views(txs@),
                views == block@.transactions,
                start == self.store_view(),
                self.keys() == old(self).keys(),
                self.store_view() == old(self).store_view(),
                apply_first(start, views, p as nat) == Ok::<StoreMap, Error>(work@),
                work.keys() == apply_first_order(start, self.keys(), views, p as nat),
                forall|blocks: Seq<BlockView>|
                    start == index_of(unspent(blocks)) && #[trigger] extends_chain(blocks, views)
                        ==> apply_block(start, views) == Ok::<StoreMap, Error>(
                        index_of(unspent(seq![block@] + blocks)),
                    ),
            decreases txs@.len() - p,
        {
            assert(views[p as int] == txs@[p as int]@);
            match Self::apply_transaction(&mut work, &txs[p]) {
                Ok(()) => {},
                Err(e) => {
                    proof {
                        assert(apply_first(start, views, (p + 1) as nat) == Err::<StoreMap, Error>(
                            e,
                        ));
                        lemma_apply_fails_with_prefix(start, views, p + 1);
                    }
                    return Err(e);
                },
            }
            p += 1;
        }
        self.store = work;
        Ok(())
    }
}

/// Once the choice fails within the first `n` keys, it fails for all, in
/// the same way.
pub proof fn lemma_choice_fails_with_prefix(
    store: StoreMap,
    keys: Seq<Seq<char>>,
    n: int,
    lock: Seq<u8>,
    amount: int,
)
    requires
        0 <= n <= keys.len(),
        choose_within(store, keys, n as nat, lock, amount) is Err,
    ensures
        choose_within(store, keys, keys.len(), lock, amount) == choose_within(
            store,
            keys,
            n as nat,
            lock,
            amount,
        ),
    decreases keys.len() - n,
{
    if n < keys.len() {
        lemma_choice_fails_with_prefix(store, keys, n + 1, lock, amount);
    }
}

/// Once the choice fails within the first `n` outputs of an entry, it
/// fails for the entry, in the same way.
pub proof fn lemma_choice_fails_within_entry(
    chosen: Chosen,
    key: Seq<char>,
    outs: Seq<ListedView>,
    n: int,
    lock: Seq<u8>,
    amount: int,
)
    requires
        0 <= n <= outs.len(),
        choose_from(chosen, key, outs, n as nat, lock, amount) is Err,
    ensures
        choose_from(chosen, key, outs, outs.len(), lock, amount) == choose_from(
            chosen,
            key,
            outs,
            n as nat,
            lock,
            amount,
        ),
    decreases outs.len() - n,
{
    if n < outs.len() {
        lemma_choice_fails_within_entry(chosen, key, outs, n + 1, lock, amount);
    }
}

/// Once reading fails within the first `n` keys, it fails for all, in
/// the same way.
pub proof fn lemma_owned_fails_with_prefix(store: StoreMap, keys: Seq<Seq<char>>, n: int, lock: Seq<u8>)
    requires
        0 <= n <= keys.len(),
        owned_within(store, keys, n as nat, lock) is Err,
    ensures
        owned_within(store, keys, keys.len(), lock) == owned_within(store, keys, n as nat, lock),
    decreases keys.len() - n,
{
    if n < keys.len() {
        lemma_owned_fails_with_prefix(store, keys, n + 1, lock);
    }
}

/// Once spending fails within the first `n` inputs, it fails for all, in
/// the same way.
pub proof fn lemma_spend_fails_with_prefix(store: StoreMap, inputs: Seq<TxInputView>, n: int)
    requires
        0 <= n <= inputs.len(),
        spend_first(store, inputs, n as nat) is Err,
    ensures
        spend_first(store, inputs, inputs.len()) == spend_first(store, inputs, n as nat),
    decreases inputs.len() - n,
{
    if n < inputs.len() {
        lemma_spend_fails_with_prefix(store, inputs, n + 1);
    }
}

/// Once applying fails within the first `n` transactions, it fails for
/// all, in the same way.
pub proof fn lemma_apply_fails_with_prefix(store: StoreMap, txs: Seq<TransactionView>, n: int)
    requires
        0 <= n <= txs.len(),
        apply_first(store, txs, n as nat) is Err,
    ensures
        apply_first(store, txs, txs.len()) == apply_first(store, txs, n as nat),
    decreases txs.len() - n,
{
    if n < txs.len() {
        lemma_apply_fails_with_prefix(store, txs, n + 1);
    }
}

} // verus!
