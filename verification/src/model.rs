//! The mathematical model of the ledger's data: what a transaction and a
//! block are as values, how they are laid out in bytes, and which digest
//! identifies a transaction.

use vstd::prelude::*;
use vstd::utf8::*;

use crate::codec::{
    dec_bytes, dec_i32, dec_seq, dec_str, dec_u64, enc_bytes, enc_i32, enc_seq, enc_str, enc_u64,
    inverts, lemma_bytes_round_trip, lemma_i32_round_trip, lemma_seq_round_trip,
    lemma_str_round_trip, lemma_u64_round_trip, text_fits, Decoded,
};
use crate::digest::sha256_hex;
use crate::error::Error;
use crate::signature::{ed25519_public_key, ed25519_signature, ed25519_valid};

verus! {

/// A reference to an output of an earlier transaction, with the proof of
/// the right to spend it.
pub struct TxInputView {
    pub tx_id: Seq<char>,
    pub v_out: i32,
    pub signature: Seq<u8>,
    pub public_key: Seq<u8>,
}

/// An amount locked to the hash of a public key.
pub struct TxOutputView {
    pub value: i32,
    pub pub_key_hash: Seq<u8>,
}

/// A transaction: its id, its inputs and its outputs.
pub struct TransactionView {
    pub id: Seq<char>,
    pub v_in: Seq<TxInputView>,
    pub v_out: Seq<TxOutputView>,
}

/// A block: when it was made, its transactions, the hash of the block
/// before it, its own hash, its nonce and its height.
pub struct BlockView {
    pub timestamp: u64,
    pub transactions: Seq<TransactionView>,
    pub prev_block_hash: Seq<char>,
    pub hash: Seq<char>,
    pub nonce: u64,
    pub height: i32,
}

/// An input: id, output number, signature, public key.
pub open spec fn enc_input(i: TxInputView) -> Seq<u8> {
    enc_str(i.tx_id) + enc_i32(i.v_out) + enc_bytes(i.signature) + enc_bytes(i.public_key)
}

/// Takes an input from the front.
pub open spec fn dec_input(s: Seq<u8>) -> Decoded<TxInputView> {
    match dec_str(s) {
        Some((tx_id, r1)) => match dec_i32(r1) {
            Some((v_out, r2)) => match dec_bytes(r2) {
                Some((signature, r3)) => match dec_bytes(r3) {
                    Some((public_key, r4)) => Some(
                        (TxInputView { tx_id, v_out, signature, public_key }, r4),
                    ),
                    None => None,
                },
                None => None,
            },
            None => None,
        },
        None => None,
    }
}

/// An output: value, key hash.
pub open spec fn enc_output(o: TxOutputView) -> Seq<u8> {
    enc_i32(o.value) + enc_bytes(o.pub_key_hash)
}

/// Takes an output from the front.
pub open spec fn dec_output(s: Seq<u8>) -> Decoded<TxOutputView> {
    match dec_i32(s) {
        Some((value, r1)) => match dec_bytes(r1) {
            Some((pub_key_hash, r2)) => Some((TxOutputView { value, pub_key_hash }, r2)),
            None => None,
        },
        None => None,
    }
}

/// `enc_input` as a value.
pub open spec fn input_encoder() -> spec_fn(TxInputView) -> Seq<u8> {
    |i: TxInputView| enc_input(i)
}

/// `dec_input` as a value.
pub open spec fn input_decoder() -> spec_fn(Seq<u8>) -> Decoded<TxInputView> {
    |s: Seq<u8>| dec_input(s)
}

/// `enc_output` as a value.
pub open spec fn output_encoder() -> spec_fn(TxOutputView) -> Seq<u8> {
    |o: TxOutputView| enc_output(o)
}

/// `dec_output` as a value.
pub open spec fn output_decoder() -> spec_fn(Seq<u8>) -> Decoded<TxOutputView> {
    |s: Seq<u8>| dec_output(s)
}

/// The list of unspent outputs kept for one transaction.
pub open spec fn enc_outputs(outs: Seq<TxOutputView>) -> Seq<u8> {
    enc_seq(outs, output_encoder())
}

/// Takes a list of outputs from the front.
pub open spec fn dec_outputs(s: Seq<u8>) -> Decoded<Seq<TxOutputView>> {
    dec_seq(s, output_decoder())
}

/// A transaction: id, inputs, outputs.
pub open spec fn enc_tx(t: TransactionView) -> Seq<u8> {
    enc_str(t.id) + enc_seq(t.v_in, input_encoder()) + enc_seq(t.v_out, output_encoder())
}

/// Takes a transaction from the front.
pub open spec fn dec_tx(s: Seq<u8>) -> Decoded<TransactionView> {
    match dec_str(s) {
        Some((id, r1)) => match dec_seq(r1, input_decoder()) {
            Some((v_in, r2)) => match dec_seq(r2, output_decoder()) {
                Some((v_out, r3)) => Some((TransactionView { id, v_in, v_out }, r3)),
                None => None,
            },
            None => None,
        },
        None => None,
    }
}

/// `enc_tx` as a value.
pub open spec fn tx_encoder() -> spec_fn(TransactionView) -> Seq<u8> {
    |t: TransactionView| enc_tx(t)
}

/// `dec_tx` as a value.
pub open spec fn tx_decoder() -> spec_fn(Seq<u8>) -> Decoded<TransactionView> {
    |s: Seq<u8>| dec_tx(s)
}

/// A block: timestamp, transactions, hash of the block before, hash,
/// nonce, height.
pub open spec fn enc_block(b: BlockView) -> Seq<u8> {
    enc_u64(b.timestamp) + enc_seq(b.transactions, tx_encoder()) + enc_str(b.prev_block_hash)
        + enc_str(b.hash) + enc_u64(b.nonce) + enc_i32(b.height)
}

/// Takes a block from the front.
pub open spec fn dec_block(s: Seq<u8>) -> Decoded<BlockView> {
    match dec_u64(s) {
        Some((timestamp, r1)) => match dec_seq(r1, tx_decoder()) {
            Some((transactions, r2)) => match dec_str(r2) {
                Some((prev_block_hash, r3)) => match dec_str(r3) {
                    Some((hash, r4)) => match dec_u64(r4) {
                        Some((nonce, r5)) => match dec_i32(r5) {
                            Some((height, r6)) => Some(
                                (
                                    BlockView {
                                        timestamp,
                                        transactions,
                                        prev_block_hash,
                                        hash,
                                        nonce,
                                        height,
                                    },
                                    r6,
                                ),
                            ),
                            None => None,
                        },
                        None => None,
                    },
                    None => None,
                },
                None => None,
            },
            None => None,
        },
        None => None,
    }
}

/// The lengths inside an input can be counted in 64 bits.
pub open spec fn input_fits(i: TxInputView) -> bool {
    text_fits(i.tx_id) && i.signature.len() <= u64::MAX && i.public_key.len() <= u64::MAX
}

/// The lengths inside an output can be counted in 64 bits.
pub open spec fn output_fits(o: TxOutputView) -> bool {
    o.pub_key_hash.len() <= u64::MAX
}

/// The lengths of and inside a list of outputs can be counted in 64 bits.
pub open spec fn outputs_fit(outs: Seq<TxOutputView>) -> bool {
    outs.len() <= u64::MAX && forall|i: int| 0 <= i < outs.len() ==> output_fits(#[trigger] outs[i])
}

/// The lengths of and inside a transaction can be counted in 64 bits.
/// This holds of every transaction that a program holds.
pub open spec fn tx_fits(t: TransactionView) -> bool {
    &&& text_fits(t.id)
    &&& t.v_in.len() <= u64::MAX
    &&& forall|i: int| 0 <= i < t.v_in.len() ==> input_fits(#[trigger] t.v_in[i])
    &&& outputs_fit(t.v_out)
}

/// The lengths of and inside a block can be counted in 64 bits.
pub open spec fn block_fits(b: BlockView) -> bool {
    &&& b.transactions.len() <= u64::MAX
    &&& forall|i: int| 0 <= i < b.transactions.len() ==> tx_fits(#[trigger] b.transactions[i])
    &&& text_fits(b.prev_block_hash)
    &&& text_fits(b.hash)
}

/// Decoding the encoding of an input gives the input back.
pub proof fn lemma_input_round_trip(i: TxInputView, rest: Seq<u8>)
    requires
        input_fits(i),
    ensures
        dec_input(enc_input(i) + rest) == Some((i, rest)),
{
    let r3 = enc_bytes(i.public_key) + rest;
    let r2 = enc_bytes(i.signature) + r3;
    let r1 = enc_i32(i.v_out) + r2;
    let all = enc_input(i) + rest;
    assert(all =~= enc_str(i.tx_id) + r1);
    assert(dec_str(all) == Some((i.tx_id, r1))) by {
        lemma_str_round_trip(i.tx_id, r1);
    }
    assert(dec_i32(r1) == Some((i.v_out, r2))) by {
        lemma_i32_round_trip(i.v_out, r2);
    }
    assert(dec_bytes(r2) == Some((i.signature, r3))) by {
        lemma_bytes_round_trip(i.signature, r3);
    }
    assert(dec_bytes(r3) == Some((i.public_key, rest))) by {
        lemma_bytes_round_trip(i.public_key, rest);
    }
}

/// Decoding the encoding of an output gives the output back.
pub proof fn lemma_output_round_trip(o: TxOutputView, rest: Seq<u8>)
    requires
        output_fits(o),
    ensures
        dec_output(enc_output(o) + rest) == Some((o, rest)),
{
    let r1 = enc_bytes(o.pub_key_hash) + rest;
    assert(enc_output(o) + rest =~= enc_i32(o.value) + r1);
    lemma_i32_round_trip(o.value, r1);
    lemma_bytes_round_trip(o.pub_key_hash, rest);
}

/// Decoding the encoding of a list of outputs gives the list back.
pub proof fn lemma_outputs_round_trip(outs: Seq<TxOutputView>, rest: Seq<u8>)
    requires
        outputs_fit(outs),
    ensures
        dec_outputs(enc_outputs(outs) + rest) == Some((outs, rest)),
{
    assert forall|i: int| 0 <= i < outs.len() implies inverts(
        output_decoder(),
        output_encoder(),
        #[trigger] outs[i],
    ) by {
        assert forall|r: Seq<u8>| #[trigger]
            output_decoder()(output_encoder()(outs[i]) + r) == Some((outs[i], r)) by {
            lemma_output_round_trip(outs[i], r);
        }
    }
    lemma_seq_round_trip(outs, output_encoder(), output_decoder(), rest);
}

/// An unspent output as the index lists it: its number among the outputs
/// of its transaction, and the output.
pub struct ListedView {
    pub number: u64,
    pub output: TxOutputView,
}

/// The outputs of a transaction with their numbers, none of them spent.
pub open spec fn numbered(outs: Seq<TxOutputView>) -> Seq<ListedView> {
    Seq::new(outs.len(), |i: int| ListedView { number: i as u64, output: outs[i] })
}

/// A listed output: number, output.
pub open spec fn enc_listed(l: ListedView) -> Seq<u8> {
    enc_u64(l.number) + enc_output(l.output)
}

/// Takes a listed output from the front.
pub open spec fn dec_listed(s: Seq<u8>) -> Decoded<ListedView> {
    match dec_u64(s) {
        Some((number, r1)) => match dec_output(r1) {
            Some((output, r2)) => Some((ListedView { number, output }, r2)),
            None => None,
        },
        None => None,
    }
}

/// `enc_listed` as a value.
pub open spec fn listed_encoder() -> spec_fn(ListedView) -> Seq<u8> {
    |l: ListedView| enc_listed(l)
}

/// `dec_listed` as a value.
pub open spec fn listed_decoder() -> spec_fn(Seq<u8>) -> Decoded<ListedView> {
    |s: Seq<u8>| dec_listed(s)
}

/// An entry of the index: the list of the unspent outputs of one
/// transaction, each with its number.
pub open spec fn enc_entry(entry: Seq<ListedView>) -> Seq<u8> {
    enc_seq(entry, listed_encoder())
}

/// Takes an entry of the index from the front.
pub open spec fn dec_entry(s: Seq<u8>) -> Decoded<Seq<ListedView>> {
    dec_seq(s, listed_decoder())
}

/// The lengths of and inside an entry can be counted in 64 bits.
pub open spec fn entry_fits(entry: Seq<ListedView>) -> bool {
    entry.len() <= u64::MAX && forall|i: int|
        0 <= i < entry.len() ==> output_fits((#[trigger] entry[i]).output)
}

/// Decoding the encoding of a listed output gives it back.
pub proof fn lemma_listed_round_trip(l: ListedView, rest: Seq<u8>)
    requires
        output_fits(l.output),
    ensures
        dec_listed(enc_listed(l) + rest) == Some((l, rest)),
{
    let r1 = enc_output(l.output) + rest;
    let all = enc_listed(l) + rest;
    assert(all =~= enc_u64(l.number) + r1);
    assert(dec_u64(all) == Some((l.number, r1))) by {
        lemma_u64_round_trip(l.number, r1);
    }
    assert(dec_output(r1) == Some((l.output, rest))) by {
        lemma_output_round_trip(l.output, rest);
    }
}

/// Decoding the encoding of an entry of the index gives the entry back.
pub proof fn lemma_entry_round_trip(entry: Seq<ListedView>, rest: Seq<u8>)
    requires
        entry_fits(entry),
    ensures
        dec_entry(enc_entry(entry) + rest) == Some((entry, rest)),
{
    assert forall|i: int| 0 <= i < entry.len() implies inverts(
        listed_decoder(),
        listed_encoder(),
        #[trigger] entry[i],
    ) by {
        assert forall|r: Seq<u8>| #[trigger]
            listed_decoder()(listed_encoder()(entry[i]) + r) == Some((entry[i], r)) by {
            lemma_listed_round_trip(entry[i], r);
        }
    }
    lemma_seq_round_trip(entry, listed_encoder(), listed_decoder(), rest);
}

/// Decoding the encoding of a transaction gives the transaction back.
pub proof fn lemma_tx_round_trip(t: TransactionView, rest: Seq<u8>)
    requires
        tx_fits(t),
    ensures
        dec_tx(enc_tx(t) + rest) == Some((t, rest)),
{
    let r2 = enc_seq(t.v_out, output_encoder()) + rest;
    let r1 = enc_seq(t.v_in, input_encoder()) + r2;
    let all = enc_tx(t) + rest;
    assert(all =~= enc_str(t.id) + r1);
    assert(dec_str(all) == Some((t.id, r1))) by {
        lemma_str_round_trip(t.id, r1);
    }
    assert(dec_seq(r1, input_decoder()) == Some((t.v_in, r2))) by {
        assert forall|i: int| 0 <= i < t.v_in.len() implies inverts(
            input_decoder(),
            input_encoder(),
            #[trigger] t.v_in[i],
        ) by {
            assert forall|r: Seq<u8>| #[trigger]
                input_decoder()(input_encoder()(t.v_in[i]) + r) == Some((t.v_in[i], r)) by {
                lemma_input_round_trip(t.v_in[i], r);
            }
        }
        lemma_seq_round_trip(t.v_in, input_encoder(), input_decoder(), r2);
    }
    assert(dec_seq(r2, output_decoder()) == Some((t.v_out, rest))) by {
        lemma_outputs_round_trip(t.v_out, rest);
    }
}

/// Decoding the encoding of a block gives the block back.
pub proof fn lemma_block_round_trip(b: BlockView, rest: Seq<u8>)
    requires
        block_fits(b),
    ensures
        dec_block(enc_block(b) + rest) == Some((b, rest)),
{
    let r5 = enc_i32(b.height) + rest;
    let r4 = enc_u64(b.nonce) + r5;
    let r3 = enc_str(b.hash) + r4;
    let r2 = enc_str(b.prev_block_hash) + r3;
    let r1 = enc_seq(b.transactions, tx_encoder()) + r2;
    let all = enc_block(b) + rest;
    assert(all =~= enc_u64(b.timestamp) + r1);
    assert(dec_u64(all) == Some((b.timestamp, r1))) by {
        lemma_u64_round_trip(b.timestamp, r1);
    }
    assert(dec_seq(r1, tx_decoder()) == Some((b.transactions, r2))) by {
        assert forall|i: int| 0 <= i < b.transactions.len() implies inverts(
            tx_decoder(),
            tx_encoder(),
            #[trigger] b.transactions[i],
        ) by {
            assert forall|r: Seq<u8>| #[trigger]
                tx_decoder()(tx_encoder()(b.transactions[i]) + r) == Some(
                    (b.transactions[i], r),
                ) by {
                lemma_tx_round_trip(b.transactions[i], r);
            }
        }
        lemma_seq_round_trip(b.transactions, tx_encoder(), tx_decoder(), r2);
    }
    assert(dec_str(r2) == Some((b.prev_block_hash, r3))) by {
        lemma_str_round_trip(b.prev_block_hash, r3);
    }
    assert(dec_str(r3) == Some((b.hash, r4))) by {
        lemma_str_round_trip(b.hash, r4);
    }
    assert(dec_u64(r4) == Some((b.nonce, r5))) by {
        lemma_u64_round_trip(b.nonce, r5);
    }
    assert(dec_i32(r5) == Some((b.height, rest))) by {
        lemma_i32_round_trip(b.height, rest);
    }
}

/// The identifier that the contents of a transaction determine: the
/// SHA-256 digest, in hexadecimal, of the encoding of the transaction with
/// its `id` field empty.
pub open spec fn tx_digest(t: TransactionView) -> Seq<char> {
    sha256_hex(enc_tx(TransactionView { id: Seq::empty(), ..t }))
}

/// The transaction with the signatures of its inputs cleared: what it was
/// before it was signed.
pub open spec fn unsigned(t: TransactionView) -> TransactionView {
    TransactionView {
        v_in: t.v_in.map_values(|i: TxInputView| TxInputView { signature: Seq::empty(), ..i }),
        ..t
    }
}

/// The id of the transaction is the digest of its contents before it was
/// signed.
pub open spec fn has_own_id(t: TransactionView) -> bool {
    t.id == tx_digest(unsigned(t))
}

/// A transaction without signatures is its own unsigned form.
pub proof fn lemma_unsigned_without_signatures(t: TransactionView)
    requires
        forall|i: int| 0 <= i < t.v_in.len() ==> (#[trigger] t.v_in[i]).signature.len() == 0,
    ensures
        unsigned(t) == t,
{
    assert forall|i: int| 0 <= i < t.v_in.len() implies unsigned(t).v_in[i] == t.v_in[i] by {
        assert(t.v_in[i].signature =~= Seq::<u8>::empty());
    }
    assert(unsigned(t).v_in =~= t.v_in);
}

/// A coinbase transaction creates coins: it has exactly one input, which
/// names no transaction and output number -1.
pub open spec fn is_coinbase(t: TransactionView) -> bool {
    t.v_in.len() == 1 && t.v_in[0].tx_id.len() == 0 && t.v_in[0].v_out == -1
}

/// An input with its signature and public key cleared.
pub open spec fn trimmed_input(i: TxInputView) -> TxInputView {
    TxInputView { signature: Seq::empty(), public_key: Seq::empty(), ..i }
}

/// The copy of a transaction that signatures are computed over: every
/// input has its signature and public key cleared.
pub open spec fn trimmed(t: TransactionView) -> TransactionView {
    TransactionView { v_in: t.v_in.map_values(|i: TxInputView| trimmed_input(i)), ..t }
}

/// The text that the signature of input `i` covers: the digest of the
/// trimmed copy in which input `i` alone carries, in place of a public
/// key, the key hash `lock` that the output being spent is locked to.
pub open spec fn signing_text(t: TransactionView, i: int, lock: Seq<u8>) -> Seq<char> {
    let copy = trimmed(t);
    tx_digest(
        TransactionView {
            v_in: copy.v_in.update(i, TxInputView { public_key: lock, ..copy.v_in[i] }),
            ..copy
        },
    )
}

/// The position of the first transaction from `from` on whose id is `id`.
pub open spec fn position_of(txs: Seq<TransactionView>, id: Seq<char>, from: int) -> Option<int>
    decreases txs.len() - from,
{
    if from >= txs.len() {
        None
    } else if txs[from].id == id {
        Some(from)
    } else {
        position_of(txs, id, from + 1)
    }
}

/// The first transaction in `txs` whose id is `id`. An empty id names no
/// transaction.
pub open spec fn find_tx(txs: Seq<TransactionView>, id: Seq<char>) -> Option<TransactionView> {
    if id.len() == 0 {
        None
    } else {
        match position_of(txs, id, 0) {
            Some(k) => Some(txs[k]),
            None => None,
        }
    }
}

/// The output that an input spends, looked up among the earlier
/// transactions `prev`.
pub open spec fn spent_output(prev: Seq<TransactionView>, input: TxInputView) -> Option<
    TxOutputView,
> {
    match find_tx(prev, input.tx_id) {
        Some(t) => if 0 <= input.v_out < t.v_out.len() {
            Some(t.v_out[input.v_out as int])
        } else {
            None
        },
        None => None,
    }
}

/// Every input names a transaction that is among `prev`.
pub open spec fn sources_known(t: TransactionView, prev: Seq<TransactionView>) -> bool {
    forall|i: int| 0 <= i < t.v_in.len() ==> find_tx(prev, (#[trigger] t.v_in[i]).tx_id) is Some
}

/// Every input names an output that exists among `prev`.
pub open spec fn sources_resolve(t: TransactionView, prev: Seq<TransactionView>) -> bool {
    forall|i: int| 0 <= i < t.v_in.len() ==> spent_output(prev, #[trigger] t.v_in[i]) is Some
}

/// What stands in the way of checking the inputs against `prev`, if
/// anything: an input whose transaction is not among them, or else an
/// input whose output number that transaction does not have.
pub open spec fn sources_error(t: TransactionView, prev: Seq<TransactionView>) -> Option<Error> {
    if !sources_known(t, prev) {
        Some(Error::TransactionNotFound)
    } else if !sources_resolve(t, prev) {
        Some(Error::OutputNotFound)
    } else {
        None
    }
}

/// The bytes that the signature of input `i` covers.
pub open spec fn signing_message(t: TransactionView, prev: Seq<TransactionView>, i: int) -> Seq<
    u8,
> {
    encode_utf8(signing_text(t, i, spent_output(prev, t.v_in[i]).unwrap().pub_key_hash))
}

/// The transaction with every input signed by the key of `pkcs8`.
pub open spec fn signed(t: TransactionView, prev: Seq<TransactionView>, pkcs8: Seq<u8>) -> TransactionView {
    TransactionView {
        v_in: Seq::new(
            t.v_in.len(),
            |i: int|
                TxInputView {
                    signature: ed25519_signature(pkcs8, signing_message(t, prev, i)).unwrap(),
                    ..t.v_in[i]
                },
        ),
        ..t
    }
}

/// Input `i` carries a signature that its stated public key accepts for
/// the message of that input.
pub open spec fn input_verifies(t: TransactionView, prev: Seq<TransactionView>, i: int) -> bool {
    ed25519_valid(t.v_in[i].public_key, signing_message(t, prev, i), t.v_in[i].signature)
}

/// A transaction verifies when it is a coinbase or every input does.
pub open spec fn verifies(t: TransactionView, prev: Seq<TransactionView>) -> bool {
    is_coinbase(t) || forall|i: int| 0 <= i < t.v_in.len() ==> input_verifies(t, prev, i)
}

/// The outcome of verifying a transaction against the earlier
/// transactions `prev`.
pub open spec fn verify_result(t: TransactionView, prev: Seq<TransactionView>) -> Result<bool, Error> {
    if is_coinbase(t) {
        Ok(true)
    } else {
        match sources_error(t, prev) {
            Some(e) => Err(e),
            None => Ok(verifies(t, prev)),
        }
    }
}

/// The outcome of signing a transaction with the key of `pkcs8`: the
/// transaction as it is afterwards, or why it was left unsigned.
pub open spec fn sign_result(t: TransactionView, prev: Seq<TransactionView>, pkcs8: Seq<u8>) -> Result<
    TransactionView,
    Error,
> {
    if is_coinbase(t) {
        Ok(t)
    } else {
        match sources_error(t, prev) {
            Some(e) => Err(e),
            None => if ed25519_public_key(pkcs8) is None {
                Err(Error::InvalidKey)
            } else {
                Ok(signed(t, prev, pkcs8))
            },
        }
    }
}

/// Every input carries the public key of `pkcs8`.
pub open spec fn carries_key(t: TransactionView, pkcs8: Seq<u8>) -> bool {
    forall|i: int|
        0 <= i < t.v_in.len() ==> (#[trigger] t.v_in[i]).public_key == ed25519_public_key(
            pkcs8,
        ).unwrap()
}

/// The key of `pkcs8` signs `message`, and its public key accepts the
/// signature.
pub open spec fn signature_accepted(pkcs8: Seq<u8>, message: Seq<u8>) -> bool {
    match ed25519_signature(pkcs8, message) {
        Some(sig) => ed25519_valid(ed25519_public_key(pkcs8).unwrap(), message, sig),
        None => false,
    }
}

/// The messages that are signed do not depend on the signatures or public
/// keys that the inputs carry.
pub proof fn lemma_signing_text_ignores_proofs(a: TransactionView, b: TransactionView, i: int, lock: Seq<u8>)
    requires
        trimmed(a) == trimmed(b),
    ensures
        signing_text(a, i, lock) == signing_text(b, i, lock),
{
}

/// Signing changes neither the id of a transaction nor what the
/// transaction is without its signatures.
pub proof fn lemma_signing_keeps_id(t: TransactionView, prev: Seq<TransactionView>, pkcs8: Seq<u8>)
    ensures
        signed(t, prev, pkcs8).id == t.id,
        unsigned(signed(t, prev, pkcs8)) == unsigned(t),
        has_own_id(t) ==> has_own_id(signed(t, prev, pkcs8)),
{
    assert(unsigned(signed(t, prev, pkcs8)).v_in =~= unsigned(t).v_in);
}

/// A transaction whose inputs carry the signer's public key verifies once
/// it is signed, provided the signatures are ones that the public key
/// accepts.
pub proof fn lemma_signed_verifies(t: TransactionView, prev: Seq<TransactionView>, pkcs8: Seq<u8>)
    requires
        !is_coinbase(t),
        sources_resolve(t, prev),
        ed25519_public_key(pkcs8) is Some,
        carries_key(t, pkcs8),
        forall|i: int|
            0 <= i < t.v_in.len() ==> signature_accepted(
                pkcs8,
                #[trigger] signing_message(t, prev, i),
            ),
    ensures
        verifies(signed(t, prev, pkcs8), prev),
{
    let s = signed(t, prev, pkcs8);
    assert(trimmed(s).v_in =~= trimmed(t).v_in);
    assert forall|i: int| 0 <= i < s.v_in.len() implies input_verifies(s, prev, i) by {
        lemma_signing_text_ignores_proofs(
            s,
            t,
            i,
            spent_output(prev, t.v_in[i]).unwrap().pub_key_hash,
        );
        assert(s.v_in[i].tx_id == t.v_in[i].tx_id);
        assert(signing_message(s, prev, i) == signing_message(t, prev, i));
        assert(signature_accepted(pkcs8, signing_message(t, prev, i)));
    }
}

} // verus!
