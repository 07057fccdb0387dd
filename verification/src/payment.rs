//! Building a payment: a transaction that spends unspent outputs of the
//! sender, pays the recipient, returns the change, and is signed by the
//! sender.

use vstd::prelude::*;
use vstd::slice::*;

use crate::blockchain::{chain_sign, chain_verify, gather, Blockchain};
use crate::error::Error;
use crate::model::{
    carries_key, is_coinbase, signed, spent_output, tx_digest, verifies, TransactionView,
    TxInputView, TxOutputView,
};
use crate::signature::ed25519_public_key;
use crate::store::StoreMap;

use crate::transaction::{input_views, output_views, Transaction, TXInput, TXOutput};
use crate::utxo_set::{choose_within, Chosen, UTXOSet};
use crate::wallet::{address_key_hash, key_hash, Wallet};

verus! {

/// The unsigned inputs that spend the outputs `numbers` of the
/// transaction `id` and carry `public_key`.
pub open spec fn inputs_spending(id: Seq<char>, numbers: Seq<i32>, public_key: Seq<u8>) -> Seq<
    TxInputView,
> {
    Seq::new(
        numbers.len(),
        |j: int|
            TxInputView { tx_id: id, v_out: numbers[j], signature: Seq::empty(), public_key },
    )
}

/// The unsigned inputs for the chosen outputs of the first `n`
/// transactions of `keys`.
pub open spec fn inputs_for(
    keys: Seq<Seq<char>>,
    numbers: Map<Seq<char>, Seq<i32>>,
    public_key: Seq<u8>,
    n: nat,
) -> Seq<TxInputView>
    decreases n,
{
    if n == 0 {
        Seq::empty()
    } else {
        inputs_for(keys, numbers, public_key, (n - 1) as nat) + inputs_spending(
            keys[n - 1],
            numbers[keys[n - 1]],
            public_key,
        )
    }
}

/// The outputs of a payment: the amount to the recipient, and what the
/// chosen outputs hold beyond it back to the sender.
pub open spec fn payment_outputs(amount: i32, to: Seq<u8>, sum: int, from: Seq<u8>) -> Seq<
    TxOutputView,
> {
    let paid = seq![TxOutputView { value: amount, pub_key_hash: to }];
    if sum > amount {
        paid.push(TxOutputView { value: (sum - amount) as i32, pub_key_hash: from })
    } else {
        paid
    }
}

/// The payment of `amount` to the key hash `to` that spends what was
/// chosen, before it is signed: an input for every chosen output, with the
/// sender's `public_key` and no signature; the outputs of the payment;
/// and the id that these determine.
pub open spec fn unsigned_payment(chosen: Chosen, public_key: Seq<u8>, amount: i32, to: Seq<u8>) -> TransactionView {
    let body = TransactionView {
        id: Seq::empty(),
        v_in: inputs_for(chosen.order, chosen.numbers, public_key, chosen.order.len()),
        v_out: payment_outputs(amount, to, chosen.sum, key_hash(public_key)),
    };
    TransactionView { id: tx_digest(body), ..body }
}

/// What is gathered for a list of inputs depends on the transactions that
/// they name alone.
pub proof fn lemma_gather_by_ids(
    store: StoreMap,
    tip: Seq<char>,
    fuel: nat,
    a: Seq<TxInputView>,
    b: Seq<TxInputView>,
)
    requires
        a.len() == b.len(),
        forall|i: int| 0 <= i < a.len() ==> a[i].tx_id == b[i].tx_id,
    ensures
        gather(store, tip, fuel, a) == gather(store, tip, fuel, b),
    decreases a.len(),
{
    if a.len() > 0 {
        lemma_gather_by_ids(store, tip, fuel, a.drop_last(), b.drop_last());
    }
}

/// A transaction that was signed against the chain with the key that its
/// inputs carry verifies against the chain.
pub proof fn lemma_signed_on_chain_verifies(
    store: StoreMap,
    tip: Seq<char>,
    fuel: nat,
    t: TransactionView,
    pkcs8: Seq<u8>,
    after: TransactionView,
)
    requires
        !is_coinbase(t),
        chain_sign(store, tip, fuel, t, pkcs8) == Ok::<TransactionView, Error>(after),
        (gather(store, tip, fuel, t.v_in) matches Ok(prev) && verifies(after, prev)),
    ensures
        chain_verify(store, tip, fuel, after) == Ok::<bool, Error>(true),
{
    let prev = gather(store, tip, fuel, t.v_in).unwrap();
    assert(after == signed(t, prev, pkcs8));
    lemma_gather_by_ids(store, tip, fuel, t.v_in, after.v_in);
    assert(!is_coinbase(after));
    assert forall|i: int| 0 <= i < after.v_in.len() implies spent_output(
        prev,
        #[trigger] after.v_in[i],
    ) is Some by {
        assert(spent_output(prev, t.v_in[i]) is Some);
        assert(after.v_in[i].tx_id == t.v_in[i].tx_id);
    }
    assert forall|i: int| 0 <= i < after.v_in.len() implies crate::model::find_tx(
        prev,
        (#[trigger] after.v_in[i]).tx_id,
    ) is Some by {
        assert(spent_output(prev, after.v_in[i]) is Some);
    }
}

impl Transaction {
    /// A payment of `amount` from the wallet `from` to the address `to`.
    /// It spends outputs that the index of unspent outputs chooses for
    /// the sender, pays `amount` to the recipient, returns what is left
    /// over to the sender, and is signed with the sender's key against
    /// the chain. The steps are taken in this order, and the first that
    /// fails decides the error: choosing the outputs; `NotEnoughFunds`
    /// where they hold less than `amount`; `InvalidAddress`;
    /// `AmountOverflow` where the change cannot be counted; signing. A
    /// payment that comes back verifies against the chain, and its id is
    /// the digest of the payment before it was signed.
    pub fn new_utxo_tx(
        from: &Wallet,
        to: &str,
        amount: i32,
        bc: &Blockchain,
        utxo_set: &UTXOSet,
    ) -> (r: Result<Transaction, Error>)
        ensures
            match choose_within(
                utxo_set.store_view(),
                utxo_set.keys(),
                utxo_set.keys().len(),
                key_hash(from.spec_public_key()),
                amount as int,
            ) {
                Err(e) => r matches Err(x) && x == e,
                Ok(chosen) => if chosen.sum < amount {
                    r matches Err(x) && x == Error::NotEnoughFunds
                } else if address_key_hash(to@) is None {
                    r matches Err(x) && x == Error::InvalidAddress
                } else if chosen.sum - amount > i32::MAX {
                    r matches Err(x) && x == Error::AmountOverflow
                } else {
                    match chain_sign(
                        bc.store_view(),
                        bc.tip(),
                        bc.fuel(),
                        unsigned_payment(
                            chosen,
                            from.spec_public_key(),
                            amount,
                            address_key_hash(to@).unwrap(),
                        ),
                        from.key(),
                    ) {
                        Ok(after) => r matches Ok(tx) && tx@ == after,
                        Err(e) => r matches Err(x) && x == e,
                    }
                },
            },
            r matches Ok(tx) ==> chain_verify(bc.store_view(), bc.tip(), bc.fuel(), tx@) == Ok::<
                bool,
                Error,
            >(true),
            r matches Ok(tx) ==> crate::model::has_own_id(tx@),
    {
        let public_key = from.public_key();
        let pub_key_hash = Wallet::hash_pub_key(public_key.as_slice());
        let (acc, valid_outputs) = match utxo_set.find_spendable_outputs(
            pub_key_hash.as_slice(),
            amount,
        ) {
            Ok(found) => found,
            Err(e) => { return Err(e); },
        };
        if acc < amount {
            return Err(Error::NotEnoughFunds);
        }
        let ghost chosen = Chosen {
            sum: acc as int,
            numbers: valid_outputs@,
            order: valid_outputs.keys(),
        };
        let ghost keys = valid_outputs.keys();
        let ghost pk = public_key@;
        let n = valid_outputs.len();
        let mut inputs: Vec<TXInput> = Vec::new();
        let mut i: usize = 0;
        assert(input_views(inputs@) =~= Seq::<TxInputView>::empty());
        while i < n
            invariant
                i <= n,
                n == keys.len(),
                keys == valid_outputs.keys(),
                keys.no_duplicates(),
                pk == public_key@,
                input_views(inputs@) == inputs_for(keys, valid_outputs@, pk, i as nat),
            decreases n - i,
        {
            let id = valid_outputs.key_at(i);
            let outs = valid_outputs.value_at(i);
            let ghost done = input_views(inputs@);
            let mut j: usize = 0;
            assert(done + inputs_spending(id@, outs@.take(0), pk) =~= done);
            while j < outs.len()
                invariant
                    j <= outs@.len(),
                    pk == public_key@,
                    input_views(inputs@) == done + inputs_spending(id@, outs@.take(j as int), pk),
                decreases outs@.len() - j,
            {
                let ghost before = input_views(inputs@);
                let input = TXInput::new(
                    id,
                    outs[j],
                    Vec::new(),
                    slice_to_vec(public_key.as_slice()),
                );
                proof {
                    assert(input_views(inputs@.push(input)) =~= before.push(input@));
                    assert(before.push(input@) =~= done + inputs_spending(
                        id@,
                        outs@.take(j + 1),
                        pk,
                    ));
                }
                inputs.push(input);
                j += 1;
            }
            assert(outs@.take(j as int) =~= outs@);
            i += 1;
        }
        let mut outputs: Vec<TXOutput> = Vec::new();
        let paid = match TXOutput::new(amount, to) {
            Ok(o) => o,
            Err(e) => { return Err(e); },
        };
        outputs.push(paid);
        if acc > amount {
            let change: i64 = acc as i64 - amount as i64;
            if change > i32::MAX as i64 {
                return Err(Error::AmountOverflow);
            }
            outputs.push(TXOutput::locked_to(change as i32, pub_key_hash));
        }
        proof {
            assert(output_views(outputs@) =~= payment_outputs(
                amount,
                address_key_hash(to@).unwrap(),
                acc as int,
                key_hash(pk),
            ));
        }
        let mut tx = Transaction::with_digest(inputs, outputs);
        let ghost unsigned = tx@;
        proof {
            assert(unsigned == unsigned_payment(
                chosen,
                pk,
                amount,
                address_key_hash(to@).unwrap(),
            ));
        }
        match bc.sign_transaction(&mut tx, from.pkcs8_bytes()) {
            Ok(()) => {
                proof {
                    lemma_payment_has_own_id(
                        bc.store_view(),
                        bc.tip(),
                        bc.fuel(),
                        unsigned,
                        keys,
                        chosen,
                        pk,
                        from.key(),
                        tx@,
                    );
                    lemma_payment_verifies(
                        bc.store_view(),
                        bc.tip(),
                        bc.fuel(),
                        unsigned,
                        keys,
                        chosen,
                        pk,
                        from.key(),
                        tx@,
                    );
                }
                Ok(tx)
            },
            Err(e) => Err(e),
        }
    }
}

/// Every input of an unsigned payment carries the sender's public key.
pub proof fn lemma_payment_inputs_carry_key(
    keys: Seq<Seq<char>>,
    numbers: Map<Seq<char>, Seq<i32>>,
    public_key: Seq<u8>,
    n: nat,
)
    ensures
        forall|i: int|
            0 <= i < inputs_for(keys, numbers, public_key, n).len() ==> (#[trigger] inputs_for(
                keys,
                numbers,
                public_key,
                n,
            )[i]).public_key == public_key,
    decreases n,
{
    if n > 0 {
        lemma_payment_inputs_carry_key(keys, numbers, public_key, (n - 1) as nat);
        let head = inputs_for(keys, numbers, public_key, (n - 1) as nat);
        let tail = inputs_spending(keys[n - 1], numbers[keys[n - 1]], public_key);
        assert forall|i: int| 0 <= i < (head + tail).len() implies (#[trigger] (head
            + tail)[i]).public_key == public_key by {
            if i < head.len() {
                assert((head + tail)[i] == head[i]);
            } else {
                assert((head + tail)[i] == tail[i - head.len()]);
            }
        }
    }
}

/// No input of an unsigned payment has a signature.
pub proof fn lemma_payment_inputs_unsigned(
    keys: Seq<Seq<char>>,
    numbers: Map<Seq<char>, Seq<i32>>,
    public_key: Seq<u8>,
    n: nat,
)
    ensures
        forall|i: int|
            0 <= i < inputs_for(keys, numbers, public_key, n).len() ==> (#[trigger] inputs_for(
                keys,
                numbers,
                public_key,
                n,
            )[i]).signature.len() == 0,
    decreases n,
{
    if n > 0 {
        lemma_payment_inputs_unsigned(keys, numbers, public_key, (n - 1) as nat);
        let head = inputs_for(keys, numbers, public_key, (n - 1) as nat);
        let tail = inputs_spending(keys[n - 1], numbers[keys[n - 1]], public_key);
        assert forall|i: int| 0 <= i < (head + tail).len() implies (#[trigger] (head
            + tail)[i]).signature.len() == 0 by {
            if i < head.len() {
                assert((head + tail)[i] == head[i]);
            } else {
                assert((head + tail)[i] == tail[i - head.len()]);
            }
        }
    }
}

/// The id of a signed payment is the digest of the payment before it was
/// signed.
proof fn lemma_payment_has_own_id(
    store: StoreMap,
    tip: Seq<char>,
    fuel: nat,
    unsigned: TransactionView,
    keys: Seq<Seq<char>>,
    chosen: Chosen,
    public_key: Seq<u8>,
    pkcs8: Seq<u8>,
    after: TransactionView,
)
    requires
        unsigned.v_in == inputs_for(keys, chosen.numbers, public_key, keys.len()),
        unsigned.id == tx_digest(unsigned),
        chain_sign(store, tip, fuel, unsigned, pkcs8) == Ok::<TransactionView, Error>(after),
    ensures
        crate::model::has_own_id(after),
{
    lemma_payment_inputs_unsigned(keys, chosen.numbers, public_key, keys.len());
    crate::model::lemma_unsigned_without_signatures(unsigned);
    let prev = gather(store, tip, fuel, unsigned.v_in).unwrap();
    crate::model::lemma_signing_keeps_id(unsigned, prev, pkcs8);
}

/// A signed payment verifies against the chain that it was signed
/// against.
proof fn lemma_payment_verifies(
    store: StoreMap,
    tip: Seq<char>,
    fuel: nat,
    unsigned: TransactionView,
    keys: Seq<Seq<char>>,
    chosen: Chosen,
    public_key: Seq<u8>,
    pkcs8: Seq<u8>,
    after: TransactionView,
)
    requires
        unsigned.v_in == inputs_for(keys, chosen.numbers, public_key, keys.len()),
        ed25519_public_key(pkcs8) == Some(public_key),
        chain_sign(store, tip, fuel, unsigned, pkcs8) == Ok::<TransactionView, Error>(after),
        (gather(store, tip, fuel, unsigned.v_in) matches Ok(prev) && (!is_coinbase(unsigned)
            && carries_key(unsigned, pkcs8) ==> verifies(after, prev))),
    ensures
        chain_verify(store, tip, fuel, after) == Ok::<bool, Error>(true),
{
    lemma_payment_inputs_carry_key(keys, chosen.numbers, public_key, keys.len());
    let prev = gather(store, tip, fuel, unsigned.v_in).unwrap();
    if is_coinbase(unsigned) {
        assert(after == unsigned);
    } else {
        assert(carries_key(unsigned, pkcs8));
        lemma_signed_on_chain_verifies(store, tip, fuel, unsigned, pkcs8, after);
    }
}

} // verus!
