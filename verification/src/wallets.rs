//! The wallets of a node, kept in a store under their addresses.

use vstd::prelude::*;
use vstd::slice::*;

use crate::error::Error;
use crate::signature::ed25519_public_key;
use crate::store::{Store, StoreMap, StoreValue, ValueView};
use crate::wallet::{address_of, valid_address, Wallet};

verus! {

/// The wallet stored under `address`.
pub open spec fn wallet_at(store: StoreMap, address: Seq<char>) -> Result<Seq<u8>, Error> {
    if !store.contains_key(address) {
        Err(Error::WalletNotFound)
    } else {
        match store[address] {
            ValueView::Bytes(doc) => if ed25519_public_key(doc) is Some {
                Ok(doc)
            } else {
                Err(Error::InvalidKey)
            },
            ValueView::Text(_) => Err(Error::WrongValueKind),
        }
    }
}

/// The wallets of a node.
pub struct Wallets {
    store: Store,
}

impl Wallets {
    /// What the store holds.
    pub closed spec fn store_view(&self) -> StoreMap {
        self.store@
    }

    /// The addresses, in the order in which their wallets were made.
    pub closed spec fn addresses(&self) -> Seq<Seq<char>> {
        self.store.keys()
    }

    /// The wallets that a store holds.
    pub fn new(store: Store) -> (wallets: Wallets)
        ensures
            wallets.store_view() == store@,
            wallets.addresses() == store.keys(),
    {
        Wallets { store }
    }

    /// The store, as it is to be kept.
    pub fn store(&self) -> (r: &Store)
        ensures
            r@ == self.store_view(),
            r.keys() == self.addresses(),
    {
        &self.store
    }

    /// Makes a wallet with a fresh key pair, stores its key under its
    /// address, and returns the address, which is a valid one. Fails only
    /// where no key pair can be generated, and then changes nothing.
    pub fn create_wallet(&mut self) -> (r: Result<String, Error>)
        ensures
            match r {
                Ok(address) => exists|doc: Seq<u8>|
                    {
                        &&& #[trigger] ed25519_public_key(doc) matches Some(public_key)
                        &&& address@ == address_of(public_key)
                        &&& valid_address(address@)
                        &&& final(self).store_view() == old(self).store_view().insert(
                            address@,
                            ValueView::Bytes(doc),
                        )
                        &&& final(self).addresses() == if old(self).store_view().contains_key(
                            address@,
                        ) {
                            old(self).addresses()
                        } else {
                            old(self).addresses().push(address@)
                        }
                    },
                Err(e) => e == Error::NoRandomness && final(self).store_view() == old(
                    self,
                ).store_view() && final(self).addresses() == old(self).addresses(),
            },
    {
        let wallet = match Wallet::new() {
            Ok(w) => w,
            Err(e) => { return Err(e); },
        };
        let address = wallet.get_address();
        let ghost doc = wallet.key();
        self.store.insert(address.clone(), StoreValue::Bytes(wallet.serialize()));
        proof {
            assert(ed25519_public_key(doc) is Some);
        }
        Ok(address)
    }

    /// The addresses of the wallets.
    pub fn get_addresses(&self) -> (r: Vec<String>)
        ensures
            r@.len() == self.addresses().len(),
            forall|i: int| 0 <= i < r@.len() ==> (#[trigger] r@[i])@ == self.addresses()[i],
    {
        self.store.keys_vec()
    }

    /// The wallet stored under `address`.
    pub fn get_wallet(&self, address: &str) -> (r: Result<Wallet, Error>)
        ensures
            match wallet_at(self.store_view(), address@) {
                Ok(doc) => r matches Ok(w) && w.key() == doc,
                Err(e) => r matches Err(x) && x == e,
            },
    {
        match self.store.get(address) {
            Some(StoreValue::Bytes(doc)) => Wallet::deserialize(slice_to_vec(doc.as_slice())),
            Some(StoreValue::Text(_)) => Err(Error::WrongValueKind),
            None => Err(Error::WalletNotFound),
        }
    }
}

} // verus!
