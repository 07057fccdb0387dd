//! The key-value store that the chain, the index of unspent outputs and
//! the wallets are kept in: text keys, and values that are either text or
//! a blob of bytes. This is the store as the node sees it; keeping it on
//! disk is left to the program around the library.

use vstd::prelude::*;
use vstd::slice::*;

use crate::table::Table;

verus! {

/// A stored value: text or bytes.
#[derive(Debug)]
pub enum StoreValue {
    Text(String),
    Bytes(Vec<u8>),
}

/// What a stored value holds.
pub enum ValueView {
    Text(Seq<char>),
    Bytes(Seq<u8>),
}

impl View for StoreValue {
    type V = ValueView;

    open spec fn view(&self) -> ValueView {
        match self {
            StoreValue::Text(s) => ValueView::Text(s@),
            StoreValue::Bytes(b) => ValueView::Bytes(b@),
        }
    }
}

impl Clone for StoreValue {
    fn clone(&self) -> (r: StoreValue)
        ensures
            r@ == self@,
    {
        match self {
            StoreValue::Text(s) => StoreValue::Text(s.clone()),
            StoreValue::Bytes(b) => StoreValue::Bytes(slice_to_vec(b.as_slice())),
        }
    }
}

/// A key-value store of texts and blobs.
pub type Store = Table<StoreValue>;

/// What a store holds, as a map.
pub type StoreMap = Map<Seq<char>, ValueView>;

/// A copy of the store, with the keys in the same order.
pub fn copy_store(store: &Store) -> (copy: Store)
    ensures
        copy@ == store@,
        copy.keys() == store.keys(),
{
    let mut copy: Store = Table::new();
    let n = store.len();
    let mut i: usize = 0;
    while i < n
        invariant
            n == store.keys().len(),
            store.keys().no_duplicates(),
            i <= n,
            copy.keys() == store.keys().take(i as int),
            forall|k: Seq<char>| #[trigger]
                copy@.contains_key(k) ==> store@.contains_key(k) && copy@[k] == store@[k],
        decreases n - i,
    {
        let key = store.key_at(i);
        let value = store.value_at(i).clone();
        proof {
            let keys = store.keys();
            if copy@.contains_key(key@) {
                let j = copy.keys().index_of(key@);
                assert(keys[j] == keys[i as int]);
            }
            assert(keys.take(i as int).push(key@) =~= keys.take(i + 1));
        }
        copy.insert(key.to_owned(), value);
        i += 1;
    }
    proof {
        assert(store.keys().take(n as int) =~= store.keys());
        assert(copy@ =~= store@);
    }
    copy
}

} // verus!
