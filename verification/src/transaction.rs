//! Transactions: inputs that spend earlier outputs, outputs locked to key
//! hashes, the byte encoding of both, and the identifier that the contents
//! of a transaction determine.

use rand::seq::SliceRandom;
use rand::thread_rng;
use vstd::prelude::*;
use vstd::slice::*;
use vstd::string::*;
use vstd::utf8::*;

use crate::codec::{
    dec_items, dec_seq, enc_items, enc_seq, enc_u64, get_bytes, get_i32, get_str, get_u64,
    put_bytes, put_i32, put_str, put_u64, reads,
};
use crate::digest::sha256_hex_digest;
use crate::error::Error;
use crate::model::{
    carries_key, dec_entry, dec_input, dec_output, dec_outputs, dec_tx, enc_entry, enc_input,
    enc_listed, enc_output, enc_outputs, enc_tx, entry_fits, find_tx, has_own_id, input_decoder,
    input_encoder, input_fits, input_verifies, is_coinbase, lemma_entry_round_trip,
    lemma_signed_verifies, lemma_tx_round_trip, listed_decoder, listed_encoder, numbered,
    output_decoder, output_encoder, output_fits, outputs_fit, position_of, sign_result,
    signature_accepted, signed, signing_message, signing_text, sources_known, sources_resolve,
    spent_output, trimmed, trimmed_input, tx_digest, tx_fits, unsigned, verifies, verify_result,
    ListedView, TransactionView, TxInputView, TxOutputView,
};
use crate::signature::{ed25519_public_key, public_key_of};
use crate::text::{bytes_equal, str_equal};
use crate::wallet::{address_key_hash, key_hash, key_hash_of_address, Wallet};

verus! {

/// The reward that a coinbase transaction pays.
pub const SUBSIDY: i32 = 10;

/// A reference to an output of an earlier transaction.
#[derive(Debug)]
pub struct TXInput {
    tx_id: String,
    v_out: i32,
    signature: Vec<u8>,
    public_key: Vec<u8>,
}

impl View for TXInput {
    type V = TxInputView;

    closed spec fn view(&self) -> TxInputView {
        TxInputView {
            tx_id: self.tx_id@,
            v_out: self.v_out,
            signature: self.signature@,
            public_key: self.public_key@,
        }
    }
}

impl Clone for TXInput {
    fn clone(&self) -> (r: TXInput)
        ensures
            r@ == self@,
    {
        TXInput {
            tx_id: self.tx_id.clone(),
            v_out: self.v_out,
            signature: slice_to_vec(self.signature.as_slice()),
            public_key: slice_to_vec(self.public_key.as_slice()),
        }
    }
}

/// The values of a list of inputs.
pub open spec fn input_views(s: Seq<TXInput>) -> Seq<TxInputView> {
    s.map_values(|i: TXInput| i@)
}

/// The values of a list of outputs.
pub open spec fn output_views(s: Seq<TXOutput>) -> Seq<TxOutputView> {
    s.map_values(|o: TXOutput| o@)
}

/// The values of a list of transactions.
pub open spec fn tx_views(s: Seq<Transaction>) -> Seq<TransactionView> {
    s.map_values(|t: Transaction| t@)
}

impl TXInput {
    /// An input that spends output `v_out` of the transaction `tx_id`.
    pub fn new(tx_id: &str, v_out: i32, signature: Vec<u8>, public_key: Vec<u8>) -> (r: TXInput)
        ensures
            r@ == (TxInputView {
                tx_id: tx_id@,
                v_out,
                signature: signature@,
                public_key: public_key@,
            }),
    {
        TXInput { tx_id: tx_id.to_owned(), v_out, signature, public_key }
    }

    /// Whether the input was made with the key that `pub_key_hash` is the
    /// hash of.
    pub fn uses_key(&self, pub_key_hash: &[u8]) -> (r: bool)
        ensures
            r == (key_hash(self@.public_key) == pub_key_hash@),
    {
        let locking_hash = Wallet::hash_pub_key(self.public_key.as_slice());
        bytes_equal(locking_hash.as_slice(), pub_key_hash)
    }

    /// The id of the transaction whose output is spent.
    pub fn tx_id(&self) -> (r: &str)
        ensures
            r@ == self@.tx_id,
    {
        self.tx_id.as_str()
    }

    /// The number of the output that is spent; -1 in a coinbase.
    pub fn v_out(&self) -> (r: i32)
        ensures
            r == self@.v_out,
    {
        self.v_out
    }

    /// The signature.
    pub fn signature(&self) -> (r: &[u8])
        ensures
            r@ == self@.signature,
    {
        self.signature.as_slice()
    }

    /// Replaces the signature.
    pub fn set_signature(&mut self, signature: &[u8])
        ensures
            final(self)@ == (TxInputView { signature: signature@, ..old(self)@ }),
    {
        self.signature = slice_to_vec(signature);
    }

    /// The public key of the spender; in a coinbase, its payload.
    pub fn pub_key(&self) -> (r: &[u8])
        ensures
            r@ == self@.public_key,
    {
        self.public_key.as_slice()
    }

    /// Replaces the public key.
    pub fn set_pub_key(&mut self, bytes: &[u8])
        ensures
            final(self)@ == (TxInputView { public_key: bytes@, ..old(self)@ }),
    {
        self.public_key = slice_to_vec(bytes);
    }

    /// The input without signature and public key.
    fn trimmed(&self) -> (r: TXInput)
        ensures
            r@ == trimmed_input(self@),
    {
        TXInput {
            tx_id: self.tx_id.clone(),
            v_out: self.v_out,
            signature: Vec::new(),
            public_key: Vec::new(),
        }
    }

    fn put(&self, out: &mut Vec<u8>)
        ensures
            final(out)@ == old(out)@ + enc_input(self@),
            input_fits(self@),
    {
        put_str(out, self.tx_id.as_str());
        put_i32(out, self.v_out);
        put_bytes(out, self.signature.as_slice());
        put_bytes(out, self.public_key.as_slice());
        assert(out@ =~= old(out)@ + enc_input(self@));
    }

    fn get(bytes: &[u8], pos: usize) -> (r: Option<(TXInput, usize)>)
        requires
            pos <= bytes@.len(),
        ensures
            reads(
                bytes@,
                pos as int,
                dec_input(bytes@.skip(pos as int)),
                match r {
                    Some((v, next)) => Some((v@, next)),
                    None => None,
                },
            ),
    {
        let (tx_id, p1) = match get_str(bytes, pos) {
            Some(x) => x,
            None => { return None; },
        };
        let (v_out, p2) = match get_i32(bytes, p1) {
            Some(x) => x,
            None => { return None; },
        };
        let (signature, p3) = match get_bytes(bytes, p2) {
            Some(x) => x,
            None => { return None; },
        };
        let (public_key, p4) = match get_bytes(bytes, p3) {
            Some(x) => x,
            None => { return None; },
        };
        Some((TXInput { tx_id, v_out, signature, public_key }, p4))
    }
}

/// An amount locked to the hash of a public key.
#[derive(Debug)]
pub struct TXOutput {
    value: i32,
    pub_key_hash: Vec<u8>,
}

impl View for TXOutput {
    type V = TxOutputView;

    closed spec fn view(&self) -> TxOutputView {
        TxOutputView { value: self.value, pub_key_hash: self.pub_key_hash@ }
    }
}

impl Clone for TXOutput {
    fn clone(&self) -> (r: TXOutput)
        ensures
            r@ == self@,
    {
        TXOutput { value: self.value, pub_key_hash: slice_to_vec(self.pub_key_hash.as_slice()) }
    }
}

impl TXOutput {
    /// An output of `amount` locked to the key hash that `address` names.
    /// Refused where the address does not decode to a key hash.
    pub fn new(amount: i32, address: &str) -> (r: Result<TXOutput, Error>)
        ensures
            match r {
                Ok(o) => address_key_hash(address@) == Some(o@.pub_key_hash) && o@.value
                    == amount,
                Err(e) => e == Error::InvalidAddress && address_key_hash(address@) is None,
            },
    {
        let mut txo = TXOutput { value: amount, pub_key_hash: Vec::new() };
        match txo.lock(address) {
            Ok(()) => Ok(txo),
            Err(e) => Err(e),
        }
    }

    /// An output of `amount` locked to the given key hash.
    pub fn locked_to(amount: i32, pub_key_hash: Vec<u8>) -> (r: TXOutput)
        ensures
            r@ == (TxOutputView { value: amount, pub_key_hash: pub_key_hash@ }),
    {
        TXOutput { value: amount, pub_key_hash }
    }

    fn lock(&mut self, address: &str) -> (r: Result<(), Error>)
        ensures
            match r {
                Ok(()) => {
                    &&& address_key_hash(address@) == Some(final(self)@.pub_key_hash)
                    &&& final(self)@.value == old(self)@.value
                },
                Err(e) => e == Error::InvalidAddress && address_key_hash(address@) is None
                    && final(self)@ == old(self)@,
            },
    {
        match key_hash_of_address(address) {
            Ok(hash) => {
                self.pub_key_hash = hash;
                Ok(())
            },
            Err(e) => Err(e),
        }
    }

    /// Whether the output is locked to `pub_key_hash`.
    pub fn is_locked_with_key(&self, pub_key_hash: &[u8]) -> (r: bool)
        ensures
            r == (self@.pub_key_hash == pub_key_hash@),
    {
        bytes_equal(self.pub_key_hash.as_slice(), pub_key_hash)
    }

    /// The amount.
    pub fn value(&self) -> (r: i32)
        ensures
            r == self@.value,
    {
        self.value
    }

    /// The key hash that the amount is locked to.
    pub fn pub_key_hash(&self) -> (r: &[u8])
        ensures
            r@ == self@.pub_key_hash,
    {
        self.pub_key_hash.as_slice()
    }

    fn put(&self, out: &mut Vec<u8>)
        ensures
            final(out)@ == old(out)@ + enc_output(self@),
            output_fits(self@),
    {
        put_i32(out, self.value);
        put_bytes(out, self.pub_key_hash.as_slice());
        assert(out@ =~= old(out)@ + enc_output(self@));
    }

    fn get(bytes: &[u8], pos: usize) -> (r: Option<(TXOutput, usize)>)
        requires
            pos <= bytes@.len(),
        ensures
            reads(
                bytes@,
                pos as int,
                dec_output(bytes@.skip(pos as int)),
                match r {
                    Some((v, next)) => Some((v@, next)),
                    None => None,
                },
            ),
    {
        let (value, p1) = match get_i32(bytes, pos) {
            Some(x) => x,
            None => { return None; },
        };
        let (pub_key_hash, p2) = match get_bytes(bytes, p1) {
            Some(x) => x,
            None => { return None; },
        };
        Some((TXOutput { value, pub_key_hash }, p2))
    }
}

/// Copies a list of outputs.
pub fn clone_outputs(v: &[TXOutput]) -> (r: Vec<TXOutput>)
    ensures
        output_views(r@) == output_views(v@),
{
    let mut r: Vec<TXOutput> = Vec::new();
    let mut i: usize = 0;
    while i < v.len()
        invariant
            i <= v@.len(),
            r@.len() == i,
            forall|j: int| 0 <= j < i ==> (#[trigger] r@[j])@ == v@[j]@,
        decreases v@.len() - i,
    {
        r.push(v[i].clone());
        i += 1;
    }
    assert(output_views(r@) =~= output_views(v@));
    r
}

/// Copies a list of inputs.
pub fn clone_inputs(v: &[TXInput]) -> (r: Vec<TXInput>)
    ensures
        input_views(r@) == input_views(v@),
{
    let mut r: Vec<TXInput> = Vec::new();
    let mut i: usize = 0;
    while i < v.len()
        invariant
            i <= v@.len(),
            r@.len() == i,
            forall|j: int| 0 <= j < i ==> (#[trigger] r@[j])@ == v@[j]@,
        decreases v@.len() - i,
    {
        r.push(v[i].clone());
        i += 1;
    }
    assert(input_views(r@) =~= input_views(v@));
    r
}

pub(crate) fn put_inputs(out: &mut Vec<u8>, v: &[TXInput])
    ensures
        final(out)@ == old(out)@ + enc_seq(input_views(v@), input_encoder()),
        forall|i: int| 0 <= i < v@.len() ==> input_fits(#[trigger] input_views(v@)[i]),
{
    put_u64(out, v.len() as u64);
    let ghost views = input_views(v@);
    let ghost head = old(out)@ + enc_u64(v@.len() as u64);
    let mut i: usize = 0;
    assert(enc_items(views.take(0), input_encoder()) =~= Seq::<u8>::empty());
    assert(out@ =~= head + enc_items(views.take(0), input_encoder()));
    while i < v.len()
        invariant
            i <= v@.len(),
            views == input_views(v@),
            out@ == head + enc_items(views.take(i as int), input_encoder()),
            forall|j: int| 0 <= j < i ==> input_fits(#[trigger] views[j]),
        decreases v@.len() - i,
    {
        v[i].put(out);
        i += 1;
        proof {
            let t = views.take(i as int);
            assert(t.drop_last() =~= views.take(i - 1));
            assert(t.last() == v@[i - 1]@);
            assert(out@ =~= head + enc_items(t, input_encoder()));
        }
    }
    assert(views.take(i as int) =~= views);
    assert(out@ =~= old(out)@ + enc_seq(views, input_encoder()));
}

pub(crate) fn put_outputs(out: &mut Vec<u8>, v: &[TXOutput])
    ensures
        final(out)@ == old(out)@ + enc_outputs(output_views(v@)),
        outputs_fit(output_views(v@)),
{
    put_u64(out, v.len() as u64);
    let ghost views = output_views(v@);
    let ghost head = old(out)@ + enc_u64(v@.len() as u64);
    let mut i: usize = 0;
    assert(enc_items(views.take(0), output_encoder()) =~= Seq::<u8>::empty());
    assert(out@ =~= head + enc_items(views.take(0), output_encoder()));
    while i < v.len()
        invariant
            i <= v@.len(),
            views == output_views(v@),
            out@ == head + enc_items(views.take(i as int), output_encoder()),
            forall|j: int| 0 <= j < i ==> output_fits(#[trigger] views[j]),
        decreases v@.len() - i,
    {
        v[i].put(out);
        i += 1;
        proof {
            let t = views.take(i as int);
            assert(t.drop_last() =~= views.take(i - 1));
            assert(t.last() == v@[i - 1]@);
            assert(out@ =~= head + enc_items(t, output_encoder()));
        }
    }
    assert(views.take(i as int) =~= views);
    assert(out@ =~= old(out)@ + enc_seq(views, output_encoder()));
}

pub(crate) fn get_inputs(bytes: &[u8], pos: usize) -> (r: Option<(Vec<TXInput>, usize)>)
    requires
        pos <= bytes@.len(),
    ensures
        reads(
            bytes@,
            pos as int,
            dec_seq(bytes@.skip(pos as int), input_decoder()),
            match r {
                Some((v, next)) => Some((input_views(v@), next)),
                None => None,
            },
        ),
{
    let (n, start) = match get_u64(bytes, pos) {
        Some(x) => x,
        None => { return None; },
    };
    let ghost whole = dec_items(bytes@.skip(start as int), n as nat, input_decoder());
    let mut got: Vec<TXInput> = Vec::new();
    let mut cur: usize = start;
    let mut i: u64 = 0;
    assert(input_views(got@) =~= Seq::<TxInputView>::empty());
    while i < n
        invariant
            i <= n,
            pos <= cur <= bytes@.len(),
            whole == dec_seq(bytes@.skip(pos as int), input_decoder()),
            whole == match dec_items(bytes@.skip(cur as int), (n - i) as nat, input_decoder()) {
                Some((xs, rest)) => Some((input_views(got@) + xs, rest)),
                None => None,
            },
        decreases n - i,
    {
        let ghost before = input_views(got@);
        match TXInput::get(bytes, cur) {
            Some((x, next)) => {
                proof {
                    let tail = dec_items(
                        bytes@.skip(next as int),
                        (n - i - 1) as nat,
                        input_decoder(),
                    );
                    if let Some((xs, rest)) = tail {
                        assert(before.push(x@) + xs =~= before + (seq![x@] + xs));
                    }
                    assert(input_views(got@.push(x)) =~= before.push(x@));
                }
                got.push(x);
                cur = next;
                i += 1;
            },
            None => {
                return None;
            },
        }
    }
    assert(input_views(got@) + Seq::<TxInputView>::empty() =~= input_views(got@));
    Some((got, cur))
}

pub(crate) fn get_outputs(bytes: &[u8], pos: usize) -> (r: Option<(Vec<TXOutput>, usize)>)
    requires
        pos <= bytes@.len(),
    ensures
        reads(
            bytes@,
            pos as int,
            dec_outputs(bytes@.skip(pos as int)),
            match r {
                Some((v, next)) => Some((output_views(v@), next)),
                None => None,
            },
        ),
{
    let (n, start) = match get_u64(bytes, pos) {
        Some(x) => x,
        None => { return None; },
    };
    let ghost whole = dec_items(bytes@.skip(start as int), n as nat, output_decoder());
    let mut got: Vec<TXOutput> = Vec::new();
    let mut cur: usize = start;
    let mut i: u64 = 0;
    assert(output_views(got@) =~= Seq::<TxOutputView>::empty());
    while i < n
        invariant
            i <= n,
            pos <= cur <= bytes@.len(),
            whole == dec_outputs(bytes@.skip(pos as int)),
            whole == match dec_items(bytes@.skip(cur as int), (n - i) as nat, output_decoder()) {
                Some((xs, rest)) => Some((output_views(got@) + xs, rest)),
                None => None,
            },
        decreases n - i,
    {
        let ghost before = output_views(got@);
        match TXOutput::get(bytes, cur) {
            Some((x, next)) => {
                proof {
                    let tail = dec_items(
                        bytes@.skip(next as int),
                        (n - i - 1) as nat,
                        output_decoder(),
                    );
                    if let Some((xs, rest)) = tail {
                        assert(before.push(x@) + xs =~= before + (seq![x@] + xs));
                    }
                    assert(output_views(got@.push(x)) =~= before.push(x@));
                }
                got.push(x);
                cur = next;
                i += 1;
            },
            None => {
                return None;
            },
        }
    }
    assert(output_views(got@) + Seq::<TxOutputView>::empty() =~= output_views(got@));
    Some((got, cur))
}

/// An unspent output as the index lists it: its number among the outputs
/// of its transaction, and the output.
#[derive(Debug)]
pub struct ListedOutput {
    pub number: u64,
    pub output: TXOutput,
}

impl View for ListedOutput {
    type V = ListedView;

    open spec fn view(&self) -> ListedView {
        ListedView { number: self.number, output: self.output@ }
    }
}

impl Clone for ListedOutput {
    fn clone(&self) -> (r: ListedOutput)
        ensures
            r@ == self@,
    {
        ListedOutput { number: self.number, output: self.output.clone() }
    }
}

/// The values of a list of listed outputs.
pub open spec fn listed_views(s: Seq<ListedOutput>) -> Seq<ListedView> {
    s.map_values(|l: ListedOutput| l@)
}

/// Copies a list of listed outputs.
pub fn clone_listed(v: &[ListedOutput]) -> (r: Vec<ListedOutput>)
    ensures
        listed_views(r@) == listed_views(v@),
        r@.len() == v@.len(),
{
    let mut r: Vec<ListedOutput> = Vec::new();
    let mut i: usize = 0;
    while i < v.len()
        invariant
            i <= v@.len(),
            r@.len() == i,
            forall|j: int| 0 <= j < i ==> (#[trigger] r@[j])@ == v@[j]@,
        decreases v@.len() - i,
    {
        r.push(v[i].clone());
        i += 1;
    }
    assert(listed_views(r@) =~= listed_views(v@));
    r
}

/// Appends the encoding of the listed outputs.
fn put_listed(out: &mut Vec<u8>, v: &[ListedOutput])
    ensures
        final(out)@ == old(out)@ + enc_entry(listed_views(v@)),
        entry_fits(listed_views(v@)),
{
    put_u64(out, v.len() as u64);
    let ghost views = listed_views(v@);
    let ghost head = old(out)@ + enc_u64(v@.len() as u64);
    let mut i: usize = 0;
    assert(enc_items(views.take(0), listed_encoder()) =~= Seq::<u8>::empty());
    assert(out@ =~= head + enc_items(views.take(0), listed_encoder()));
    while i < v.len()
        invariant
            i <= v@.len(),
            views == listed_views(v@),
            out@ == head + enc_items(views.take(i as int), listed_encoder()),
            forall|j: int| 0 <= j < i ==> output_fits((#[trigger] views[j]).output),
        decreases v@.len() - i,
    {
        let ghost before = out@;
        put_u64(out, v[i].number);
        v[i].output.put(out);
        i += 1;
        proof {
            let t = views.take(i as int);
            assert(t.drop_last() =~= views.take(i - 1));
            assert(t.last() == v@[i - 1]@);
            assert(out@ =~= before + enc_listed(v@[i - 1]@));
            assert(out@ =~= head + enc_items(t, listed_encoder()));
        }
    }
    assert(views.take(i as int) =~= views);
    assert(out@ =~= old(out)@ + enc_seq(views, listed_encoder()));
}

/// Reads listed outputs from `pos` on.
fn get_listed(bytes: &[u8], pos: usize) -> (r: Option<(Vec<ListedOutput>, usize)>)
    requires
        pos <= bytes@.len(),
    ensures
        reads(
            bytes@,
            pos as int,
            dec_entry(bytes@.skip(pos as int)),
            match r {
                Some((v, next)) => Some((listed_views(v@), next)),
                None => None,
            },
        ),
{
    let (n, start) = match get_u64(bytes, pos) {
        Some(x) => x,
        None => { return None; },
    };
    let ghost whole = dec_items(bytes@.skip(start as int), n as nat, listed_decoder());
    let mut got: Vec<ListedOutput> = Vec::new();
    let mut cur: usize = start;
    let mut i: u64 = 0;
    assert(listed_views(got@) =~= Seq::<ListedView>::empty());
    while i < n
        invariant
            i <= n,
            pos <= cur <= bytes@.len(),
            whole == dec_entry(bytes@.skip(pos as int)),
            whole == match dec_items(bytes@.skip(cur as int), (n - i) as nat, listed_decoder()) {
                Some((xs, rest)) => Some((listed_views(got@) + xs, rest)),
                None => None,
            },
        decreases n - i,
    {
        let ghost before = listed_views(got@);
        let (number, p1) = match get_u64(bytes, cur) {
            Some(x) => x,
            None => { return None; },
        };
        let (output, next) = match TXOutput::get(bytes, p1) {
            Some(x) => x,
            None => { return None; },
        };
        let x = ListedOutput { number, output };
        proof {
            let tail = dec_items(bytes@.skip(next as int), (n - i - 1) as nat, listed_decoder());
            if let Some((xs, rest)) = tail {
                assert(before.push(x@) + xs =~= before + (seq![x@] + xs));
            }
            assert(listed_views(got@.push(x)) =~= before.push(x@));
        }
        got.push(x);
        cur = next;
        i += 1;
    }
    assert(listed_views(got@) + Seq::<ListedView>::empty() =~= listed_views(got@));
    Some((got, cur))
}

/// The unspent outputs kept for one transaction, each with its number.
#[derive(Debug)]
pub struct TXOutputs {
    pub outputs: Vec<ListedOutput>,
}

impl View for TXOutputs {
    type V = Seq<ListedView>;

    open spec fn view(&self) -> Seq<ListedView> {
        listed_views(self.outputs@)
    }
}

impl Clone for TXOutputs {
    fn clone(&self) -> (r: TXOutputs)
        ensures
            r@ == self@,
    {
        TXOutputs { outputs: clone_listed(self.outputs.as_slice()) }
    }
}

impl TXOutputs {
    /// The outputs of a transaction, none of them spent: each is listed
    /// with its number.
    pub fn new(outputs: Vec<TXOutput>) -> (r: TXOutputs)
        ensures
            r@ == numbered(output_views(outputs@)),
    {
        let mut outputs = outputs;
        let ghost given = output_views(outputs@);
        let mut reversed: Vec<ListedOutput> = Vec::new();
        while outputs.len() > 0
            invariant
                outputs@.len() <= given.len(),
                output_views(outputs@) == given.take(outputs@.len() as int),
                reversed@.len() == given.len() - outputs@.len(),
                forall|j: int|
                    0 <= j < reversed@.len() ==> (#[trigger] reversed@[j])@ == (ListedView {
                        number: (given.len() - 1 - j) as u64,
                        output: given[given.len() - 1 - j],
                    }),
            decreases outputs@.len(),
        {
            let ghost before = output_views(outputs@);
            let number = outputs.len() - 1;
            let output = match outputs.pop() {
                Some(o) => o,
                None => {
                    assert(false);
                    return TXOutputs { outputs: Vec::new() };
                },
            };
            proof {
                assert(before[number as int] == output@);
                assert(output_views(outputs@) =~= given.take(outputs@.len() as int));
            }
            reversed.push(ListedOutput { number: number as u64, output });
        }
        let mut listed: Vec<ListedOutput> = Vec::new();
        while reversed.len() > 0
            invariant
                reversed@.len() + listed@.len() == given.len(),
                forall|j: int|
                    0 <= j < reversed@.len() ==> (#[trigger] reversed@[j])@ == (ListedView {
                        number: (given.len() - 1 - j) as u64,
                        output: given[given.len() - 1 - j],
                    }),
                forall|j: int|
                    0 <= j < listed@.len() ==> (#[trigger] listed@[j])@ == (ListedView {
                        number: j as u64,
                        output: given[j],
                    }),
            decreases reversed@.len(),
        {
            match reversed.pop() {
                Some(l) => {
                    listed.push(l);
                },
                None => {
                    assert(false);
                },
            }
        }
        let r = TXOutputs { outputs: listed };
        assert(r@ =~= numbered(given));
        r
    }

    /// The encoding of the list. Decoding it gives the list back.
    pub fn serialize(&self) -> (out: Vec<u8>)
        ensures
            out@ == enc_entry(self@),
            dec_entry(out@) == Some((self@, Seq::<u8>::empty())),
    {
        let mut out: Vec<u8> = Vec::new();
        put_listed(&mut out, self.outputs.as_slice());
        proof {
            assert(out@ =~= enc_entry(self@));
            lemma_entry_round_trip(self@, Seq::<u8>::empty());
            assert(enc_entry(self@) + Seq::<u8>::empty() =~= enc_entry(self@));
        }
        out
    }

    /// Decodes a list of listed outputs from the start of `bytes`; bytes
    /// after it are ignored.
    pub fn deserialize(bytes: Vec<u8>) -> (r: Result<TXOutputs, Error>)
        ensures
            match r {
                Ok(outs) => dec_entry(bytes@) matches Some((v, _)) && v == outs@,
                Err(e) => e == Error::Malformed && dec_entry(bytes@) is None,
            },
    {
        assert(bytes@.skip(0) =~= bytes@);
        match get_listed(bytes.as_slice(), 0) {
            Some((outputs, _)) => Ok(TXOutputs { outputs }),
            None => Err(Error::Malformed),
        }
    }
}

/// A transfer of value: inputs that spend earlier outputs, and new outputs.
#[derive(Debug)]
pub struct Transaction {
    id: String,
    v_in: Vec<TXInput>,
    v_out: Vec<TXOutput>,
}

impl View for Transaction {
    type V = TransactionView;

    closed spec fn view(&self) -> TransactionView {
        TransactionView {
            id: self.id@,
            v_in: input_views(self.v_in@),
            v_out: output_views(self.v_out@),
        }
    }
}

impl Clone for Transaction {
    fn clone(&self) -> (r: Transaction)
        ensures
            r@ == self@,
    {
        Transaction {
            id: self.id.clone(),
            v_in: clone_inputs(self.v_in.as_slice()),
            v_out: clone_outputs(self.v_out.as_slice()),
        }
    }
}

/// The body of a coinbase transaction, before it has an id: one input
/// that spends nothing and carries `data`, one output of the subsidy
/// locked to `lock`.
pub open spec fn coinbase_body(lock: Seq<u8>, data: Seq<u8>) -> TransactionView {
    TransactionView {
        id: Seq::empty(),
        v_in: seq![
            TxInputView {
                tx_id: Seq::empty(),
                v_out: -1i32,
                signature: Seq::empty(),
                public_key: data,
            },
        ],
        v_out: seq![TxOutputView { value: SUBSIDY, pub_key_hash: lock }],
    }
}

/// The coinbase transaction that pays the subsidy to `lock` and carries
/// `data`.
pub open spec fn coinbase(lock: Seq<u8>, data: Seq<u8>) -> TransactionView {
    let body = coinbase_body(lock, data);
    TransactionView { id: tx_digest(body), ..body }
}

/// The id of a coinbase transaction is the digest of its contents.
pub proof fn lemma_coinbase_id(lock: Seq<u8>, data: Seq<u8>)
    ensures
        coinbase(lock, data).id == tx_digest(coinbase(lock, data)),
        has_own_id(coinbase(lock, data)),
        is_coinbase(coinbase(lock, data)),
{
    let t = coinbase(lock, data);
    crate::model::lemma_unsigned_without_signatures(t);
}

/// The number of bytes of a payload that is drawn at random.
pub const RANDOM_PAYLOAD_LEN: usize = 30;

/// The bytes that a random payload is drawn from: the ASCII letters, the
/// digits, and `)(*&^%$#@!~`.
pub open spec fn is_payload_byte(b: u8) -> bool {
    ||| 65 <= b <= 90
    ||| 97 <= b <= 122
    ||| 48 <= b <= 57
    ||| b == 33
    ||| 35 <= b <= 38
    ||| 40 <= b <= 42
    ||| b == 64
    ||| b == 94
    ||| b == 126
}

/// A payload as it is drawn at random: thirty bytes of the alphabet.
pub open spec fn is_random_payload(data: Seq<u8>) -> bool {
    data.len() == RANDOM_PAYLOAD_LEN && forall|i: int|
        0 <= i < data.len() ==> is_payload_byte(#[trigger] data[i])
}

/// Calls `rand::seq::SliceRandom::choose` on `charset` with
/// `rand::thread_rng()`. Trusted: an element of the slice comes back, and
/// `None` only for an empty slice. Which element is left open.
#[verifier::external_body]
fn choose_byte(charset: &[u8]) -> (out: Option<u8>)
    ensures
        out is Some <==> charset@.len() > 0,
        out matches Some(b) ==> charset@.contains(b),
{
    charset.choose(&mut thread_rng()).copied()
}

fn payload_alphabet() -> (out: Vec<u8>)
    ensures
        out@.len() > 0,
        forall|i: int| 0 <= i < out@.len() ==> is_payload_byte(#[trigger] out@[i]),
{
    let mut out: Vec<u8> = Vec::new();
    let mut b: u8 = 33;
    while b < 127
        invariant
            33 <= b <= 127,
            b > 65 ==> out@.len() > 0,
            forall|i: int| 0 <= i < out@.len() ==> is_payload_byte(#[trigger] out@[i]),
        decreases 127 - b,
    {
        let keep = (65 <= b && b <= 90) || (97 <= b && b <= 122) || (48 <= b && b <= 57) || b
            == 33 || (35 <= b && b <= 38) || (40 <= b && b <= 42) || b == 64 || b == 94 || b
            == 126;
        if keep {
            out.push(b);
        }
        b += 1;
    }
    out
}

/// Draws a payload at random.
fn random_payload() -> (out: Vec<u8>)
    ensures
        is_random_payload(out@),
{
    let alphabet = payload_alphabet();
    let mut out: Vec<u8> = Vec::new();
    while out.len() < RANDOM_PAYLOAD_LEN
        invariant
            alphabet@.len() > 0,
            forall|i: int| 0 <= i < alphabet@.len() ==> is_payload_byte(#[trigger] alphabet@[i]),
            out@.len() <= RANDOM_PAYLOAD_LEN,
            forall|i: int| 0 <= i < out@.len() ==> is_payload_byte(#[trigger] out@[i]),
        decreases RANDOM_PAYLOAD_LEN - out@.len(),
    {
        match choose_byte(alphabet.as_slice()) {
            Some(b) => {
                out.push(b);
            },
            None => {
                assert(false);
            },
        }
    }
    out
}

fn encode_parts(id: &str, v_in: &[TXInput], v_out: &[TXOutput]) -> (out: Vec<u8>)
    ensures
        out@ == enc_tx(
            TransactionView { id: id@, v_in: input_views(v_in@), v_out: output_views(v_out@) },
        ),
        tx_fits(
            TransactionView { id: id@, v_in: input_views(v_in@), v_out: output_views(v_out@) },
        ),
{
    let mut out: Vec<u8> = Vec::new();
    put_str(&mut out, id);
    put_inputs(&mut out, v_in);
    put_outputs(&mut out, v_out);
    assert(v_in@.len() == v_in.len());
    assert(out@ =~= enc_tx(
        TransactionView { id: id@, v_in: input_views(v_in@), v_out: output_views(v_out@) },
    ));
    out
}

fn digest_of_parts(v_in: &[TXInput], v_out: &[TXOutput]) -> (out: String)
    ensures
        out@ == tx_digest(
            TransactionView {
                id: Seq::empty(),
                v_in: input_views(v_in@),
                v_out: output_views(v_out@),
            },
        ),
        out@.len() == 64,
{
    let empty = String::new();
    let bytes = encode_parts(empty.as_str(), v_in, v_out);
    sha256_hex_digest(bytes.as_slice())
}

impl Transaction {
    /// A coinbase transaction that pays the subsidy to `to`. Its input
    /// carries `data`, or thirty random bytes where `data` is empty, so
    /// that two rewards to one address have different ids.
    pub fn new_coin_base_tx(to: &str, data: &str) -> (r: Result<Transaction, Error>)
        ensures
            match r {
                Ok(tx) => address_key_hash(to@) matches Some(lock) && exists|payload: Seq<u8>|
                    {
                        &&& #[trigger] coinbase(lock, payload) == tx@
                        &&& data@.len() > 0 ==> payload == encode_utf8(data@)
                        &&& data@.len() == 0 ==> is_random_payload(payload)
                    },
                Err(e) => e == Error::InvalidAddress && address_key_hash(to@) is None,
            },
            r matches Ok(tx) ==> tx@.id == tx_digest(tx@) && has_own_id(tx@),
    {
        let payload = if data.is_empty() {
            random_payload()
        } else {
            slice_to_vec(data.as_bytes())
        };
        let ghost p = payload@;
        let r = Self::coinbase_with_payload(to, payload);
        proof {
            if r is Ok {
                assert(coinbase(address_key_hash(to@).unwrap(), p) == r.unwrap()@);
            }
        }
        r
    }

    /// The coinbase transaction that pays the subsidy to `to` and carries
    /// `payload` in its input.
    pub fn coinbase_with_payload(to: &str, payload: Vec<u8>) -> (r: Result<Transaction, Error>)
        ensures
            match r {
                Ok(tx) => address_key_hash(to@) matches Some(lock) && tx@ == coinbase(
                    lock,
                    payload@,
                ),
                Err(e) => e == Error::InvalidAddress && address_key_hash(to@) is None,
            },
            r matches Ok(tx) ==> tx@.id == tx_digest(tx@) && has_own_id(tx@),
    {
        let output = match TXOutput::new(SUBSIDY, to) {
            Ok(o) => o,
            Err(e) => { return Err(e); },
        };
        let ghost lock = output@.pub_key_hash;
        let mut v_in: Vec<TXInput> = Vec::new();
        v_in.push(TXInput::new("", -1, Vec::new(), payload));
        let mut v_out: Vec<TXOutput> = Vec::new();
        v_out.push(output);
        let mut tx = Transaction { id: String::new(), v_in, v_out };
        proof {
            reveal_strlit("");
            assert(""@ =~= Seq::<char>::empty());
            assert(tx@.v_in =~= coinbase_body(lock, payload@).v_in);
            assert(tx@.v_out =~= coinbase_body(lock, payload@).v_out);
            assert(tx@.id =~= Seq::<char>::empty());
        }
        tx.set_id();
        proof {
            lemma_coinbase_id(lock, payload@);
        }
        Ok(tx)
    }

    /// A transaction with the given parts, as they are.
    pub fn from_parts(id: String, v_in: Vec<TXInput>, v_out: Vec<TXOutput>) -> (r: Transaction)
        ensures
            r@ == (TransactionView {
                id: id@,
                v_in: input_views(v_in@),
                v_out: output_views(v_out@),
            }),
    {
        Transaction { id, v_in, v_out }
    }

    /// A transaction with the given inputs and outputs and the id that
    /// they determine.
    pub fn with_digest(v_in: Vec<TXInput>, v_out: Vec<TXOutput>) -> (r: Transaction)
        ensures
            r@.v_in == input_views(v_in@),
            r@.v_out == output_views(v_out@),
            r@.id == tx_digest(r@),
    {
        let mut tx = Transaction { id: String::new(), v_in, v_out };
        tx.set_id();
        tx
    }

    /// Whether the transaction is a coinbase.
    pub fn is_coinbase(&self) -> (r: bool)
        ensures
            r == is_coinbase(self@),
    {
        self.v_in.len() == 1 && self.v_in[0].tx_id.as_str().unicode_len() == 0
            && self.v_in[0].v_out == -1
    }

    /// The copy that signatures are computed over: every input without
    /// its signature and public key.
    pub fn trimmed_copy(&self) -> (r: Transaction)
        ensures
            r@ == trimmed(self@),
    {
        let mut inputs: Vec<TXInput> = Vec::new();
        let mut i: usize = 0;
        while i < self.v_in.len()
            invariant
                i <= self.v_in@.len(),
                inputs@.len() == i,
                forall|j: int| 0 <= j < i ==> (#[trigger] inputs@[j])@ == trimmed_input(self.v_in@[j]@),
            decreases self.v_in@.len() - i,
        {
            inputs.push(self.v_in[i].trimmed());
            i += 1;
        }
        let outputs = clone_outputs(self.v_out.as_slice());
        let r = Transaction { id: self.id.clone(), v_in: inputs, v_out: outputs };
        assert(r@.v_in =~= trimmed(self@).v_in);
        r
    }

    /// Sets the id to the digest of the contents, taken with an empty
    /// id: 64 hexadecimal characters. Nothing else changes, and a second
    /// call gives the same id.
    pub fn set_id(&mut self)
        ensures
            final(self)@ == (TransactionView { id: tx_digest(old(self)@), ..old(self)@ }),
            final(self)@.id.len() == 64,
            tx_digest(final(self)@) == final(self)@.id,
    {
        self.id = digest_of_parts(self.v_in.as_slice(), self.v_out.as_slice());
    }

    /// Whether the id is the digest of the contents as they were before
    /// the transaction was signed.
    pub fn has_own_id(&self) -> (r: bool)
        ensures
            r == has_own_id(self@),
    {
        let mut inputs: Vec<TXInput> = Vec::new();
        let mut i: usize = 0;
        while i < self.v_in.len()
            invariant
                i <= self.v_in@.len(),
                inputs@.len() == i,
                forall|j: int|
                    0 <= j < i ==> (#[trigger] inputs@[j])@ == (TxInputView {
                        signature: Seq::empty(),
                        ..self.v_in@[j]@
                    }),
            decreases self.v_in@.len() - i,
        {
            let mut input = self.v_in[i].clone();
            input.signature = Vec::new();
            inputs.push(input);
            i += 1;
        }
        assert(input_views(inputs@) =~= unsigned(self@).v_in);
        let digest = digest_of_parts(inputs.as_slice(), self.v_out.as_slice());
        digest == self.id
    }

    /// The encoding of the transaction. Decoding it gives the transaction
    /// back.
    pub fn serialize(&self) -> (out: Vec<u8>)
        ensures
            out@ == enc_tx(self@),
            dec_tx(out@) == Some((self@, Seq::<u8>::empty())),
    {
        let out = encode_parts(self.id.as_str(), self.v_in.as_slice(), self.v_out.as_slice());
        proof {
            lemma_tx_round_trip(self@, Seq::<u8>::empty());
            assert(enc_tx(self@) + Seq::<u8>::empty() =~= enc_tx(self@));
        }
        out
    }

    /// Decodes a transaction from the start of `bytes`; bytes after it are
    /// ignored.
    pub fn deserialize(bytes: Vec<u8>) -> (r: Result<Transaction, Error>)
        ensures
            match r {
                Ok(tx) => dec_tx(bytes@) matches Some((v, _)) && v == tx@,
                Err(e) => e == Error::Malformed && dec_tx(bytes@) is None,
            },
    {
        assert(bytes@.skip(0) =~= bytes@);
        match Self::get(bytes.as_slice(), 0) {
            Some((tx, _)) => Ok(tx),
            None => Err(Error::Malformed),
        }
    }

    pub(crate) fn put(&self, out: &mut Vec<u8>)
        ensures
            final(out)@ == old(out)@ + enc_tx(self@),
            tx_fits(self@),
    {
        let mut bytes = encode_parts(
            self.id.as_str(),
            self.v_in.as_slice(),
            self.v_out.as_slice(),
        );
        out.append(&mut bytes);
    }

    pub(crate) fn get(bytes: &[u8], pos: usize) -> (r: Option<(Transaction, usize)>)
        requires
            pos <= bytes@.len(),
        ensures
            reads(
                bytes@,
                pos as int,
                dec_tx(bytes@.skip(pos as int)),
                match r {
                    Some((v, next)) => Some((v@, next)),
                    None => None,
                },
            ),
    {
        let (id, p1) = match get_str(bytes, pos) {
            Some(x) => x,
            None => { return None; },
        };
        let (v_in, p2) = match get_inputs(bytes, p1) {
            Some(x) => x,
            None => { return None; },
        };
        let (v_out, p3) = match get_outputs(bytes, p2) {
            Some(x) => x,
            None => { return None; },
        };
        Some((Transaction { id, v_in, v_out }, p3))
    }

    /// The id.
    pub fn id(&self) -> (r: &str)
        ensures
            r@ == self@.id,
    {
        self.id.as_str()
    }

    /// The inputs.
    pub fn v_in(&self) -> (r: &[TXInput])
        ensures
            input_views(r@) == self@.v_in,
            r@.len() == self@.v_in.len(),
            forall|i: int| 0 <= i < r@.len() ==> (#[trigger] r@[i])@ == self@.v_in[i],
    {
        self.v_in.as_slice()
    }

    /// The inputs, to be changed in place.
    pub fn mut_v_in(&mut self) -> (r: &mut [TXInput])
        ensures
            input_views(r@) == old(self)@.v_in,
            final(self)@ == (TransactionView { v_in: input_views(final(r)@), ..old(self)@ }),
    {
        self.v_in.as_mut_slice()
    }

    /// The outputs.
    pub fn v_out(&self) -> (r: &[TXOutput])
        ensures
            output_views(r@) == self@.v_out,
            r@.len() == self@.v_out.len(),
            forall|i: int| 0 <= i < r@.len() ==> (#[trigger] r@[i])@ == self@.v_out[i],
    {
        self.v_out.as_slice()
    }
}

/// The position of the first transaction in `txs` whose id is `id`.
pub fn position_by_id(txs: &[Transaction], id: &str) -> (r: Option<usize>)
    ensures
        match r {
            Some(k) => k < txs@.len() && txs@[k as int]@.id == id@ && position_of(
                tx_views(txs@),
                id@,
                0,
            ) == Some(k as int),
            None => position_of(tx_views(txs@), id@, 0) is None,
        },
{
    let ghost views = tx_views(txs@);
    let mut i: usize = 0;
    while i < txs.len()
        invariant
            i <= txs@.len(),
            views == tx_views(txs@),
            position_of(views, id@, 0) == position_of(views, id@, i as int),
        decreases txs@.len() - i,
    {
        assert(views[i as int] == txs@[i as int]@);
        if str_equal(txs[i].id.as_str(), id) {
            return Some(i);
        }
        i += 1;
    }
    None
}

/// Finds the first transaction in `txs` whose id is `id`; an empty id
/// names none.
pub fn find_by_id(txs: &[Transaction], id: &str) -> (r: Option<usize>)
    ensures
        match r {
            Some(k) => k < txs@.len() && find_tx(tx_views(txs@), id@) == Some(txs@[k as int]@),
            None => find_tx(tx_views(txs@), id@) is None,
        },
{
    if id.unicode_len() == 0 {
        return None;
    }
    position_by_id(txs, id)
}

impl Transaction {
    /// The key hashes that the outputs spent by the inputs are locked to,
    /// one for each input, looked up among `prev_txs`.
    fn locks(&self, prev_txs: &[Transaction]) -> (r: Result<Vec<Vec<u8>>, Error>)
        ensures
            match r {
                Ok(locks) => {
                    &&& sources_resolve(self@, tx_views(prev_txs@))
                    &&& locks@.len() == self@.v_in.len()
                    &&& forall|i: int|
                        0 <= i < locks@.len() ==> (#[trigger] locks@[i])@ == spent_output(
                            tx_views(prev_txs@),
                            self@.v_in[i],
                        ).unwrap().pub_key_hash
                },
                Err(e) => {
                    &&& e == Error::TransactionNotFound || e == Error::OutputNotFound
                    &&& e == Error::TransactionNotFound <==> !sources_known(
                        self@,
                        tx_views(prev_txs@),
                    )
                    &&& !sources_resolve(self@, tx_views(prev_txs@))
                },
            },
    {
        let ghost prev = tx_views(prev_txs@);
        let mut i: usize = 0;
        while i < self.v_in.len()
            invariant
                i <= self.v_in@.len(),
                prev == tx_views(prev_txs@),
                forall|j: int| 0 <= j < i ==> find_tx(prev, (#[trigger] self@.v_in[j]).tx_id) is Some,
            decreases self.v_in@.len() - i,
        {
            if find_by_id(prev_txs, self.v_in[i].tx_id.as_str()).is_none() {
                assert(find_tx(prev, self@.v_in[i as int].tx_id) is None);
                assert(spent_output(prev, self@.v_in[i as int]) is None);
                return Err(Error::TransactionNotFound);
            }
            i += 1;
        }
        let mut locks: Vec<Vec<u8>> = Vec::new();
        let mut i: usize = 0;
        while i < self.v_in.len()
            invariant
                i <= self.v_in@.len(),
                prev == tx_views(prev_txs@),
                sources_known(self@, prev),
                locks@.len() == i,
                forall|j: int| 0 <= j < i ==> spent_output(prev, #[trigger] self@.v_in[j]) is Some,
                forall|j: int|
                    0 <= j < i ==> (#[trigger] locks@[j])@ == spent_output(
                        prev,
                        self@.v_in[j],
                    ).unwrap().pub_key_hash,
            decreases self.v_in@.len() - i,
        {
            let input = &self.v_in[i];
            assert(find_tx(prev, self@.v_in[i as int].tx_id) is Some);
            let k = match find_by_id(prev_txs, input.tx_id.as_str()) {
                Some(k) => k,
                None => { return Err(Error::TransactionNotFound); },
            };
            let source = &prev_txs[k];
            if input.v_out < 0 || input.v_out as usize >= source.v_out.len() {
                assert(spent_output(prev, self@.v_in[i as int]) is None);
                return Err(Error::OutputNotFound);
            }
            locks.push(slice_to_vec(source.v_out[input.v_out as usize].pub_key_hash.as_slice()));
            i += 1;
        }
        Ok(locks)
    }

    /// The text that the signature of input `i` covers, computed from the
    /// trimmed copy.
    fn signing_text_of(&self, i: usize, lock: &[u8]) -> (r: String)
        requires
            i < self@.v_in.len(),
            self@ == trimmed(self@),
        ensures
            r@ == signing_text(self@, i as int, lock@),
    {
        let mut inputs = clone_inputs(self.v_in.as_slice());
        let mut marked = self.v_in[i].clone();
        marked.set_pub_key(lock);
        inputs.set(i, marked);
        proof {
            let copy = trimmed(self@);
            assert(input_views(inputs@) =~= copy.v_in.update(
                i as int,
                TxInputView { public_key: lock@, ..copy.v_in[i as int] },
            ));
        }
        digest_of_parts(inputs.as_slice(), self.v_out.as_slice())
    }

    /// Signs every input with the key of the PKCS#8 document. A coinbase
    /// is left as it is. The inputs must name outputs of transactions
    /// among `prev_txs`, and the document must be an acceptable key;
    /// otherwise the transaction is left unchanged and the error says
    /// which of these failed. Where every input carries the public key of
    /// the document, the signed transaction verifies.
    pub fn sign(&mut self, pkcs8_bytes: &[u8], prev_txs: &[Transaction]) -> (r: Result<(), Error>)
        ensures
            match sign_result(old(self)@, tx_views(prev_txs@), pkcs8_bytes@) {
                Ok(after) => r is Ok && final(self)@ == after,
                Err(e) => r == Err::<(), Error>(e) && final(self)@ == old(self)@,
            },
            r is Ok && !is_coinbase(old(self)@) && carries_key(old(self)@, pkcs8_bytes@)
                ==> verifies(final(self)@, tx_views(prev_txs@)),
    {
        if self.is_coinbase() {
            return Ok(());
        }
        let ghost prev = tx_views(prev_txs@);
        let ghost before = self@;
        let locks = match self.locks(prev_txs) {
            Ok(l) => l,
            Err(e) => { return Err(e); },
        };
        if public_key_of(pkcs8_bytes).is_none() {
            return Err(Error::InvalidKey);
        }
        let copy = self.trimmed_copy();
        proof {
            assert(trimmed(copy@).v_in =~= copy@.v_in);
        }
        let mut inputs: Vec<TXInput> = Vec::new();
        let mut i: usize = 0;
        while i < self.v_in.len()
            invariant
                i <= self.v_in@.len(),
                self@ == before,
                copy@ == trimmed(before),
                copy@ == trimmed(copy@),
                prev == tx_views(prev_txs@),
                sources_resolve(before, prev),
                ed25519_public_key(pkcs8_bytes@) is Some,
                locks@.len() == before.v_in.len(),
                forall|j: int|
                    0 <= j < locks@.len() ==> (#[trigger] locks@[j])@ == spent_output(
                        prev,
                        before.v_in[j],
                    ).unwrap().pub_key_hash,
                inputs@.len() == i,
                forall|j: int|
                    0 <= j < i ==> (#[trigger] inputs@[j])@ == signed(
                        before,
                        prev,
                        pkcs8_bytes@,
                    ).v_in[j],
                forall|j: int|
                    0 <= j < i ==> signature_accepted(
                        pkcs8_bytes@,
                        #[trigger] signing_message(before, prev, j),
                    ),
            decreases self.v_in@.len() - i,
        {
            let text = copy.signing_text_of(i, locks[i].as_slice());
            proof {
                crate::model::lemma_signing_text_ignores_proofs(
                    copy@,
                    before,
                    i as int,
                    locks@[i as int]@,
                );
                assert(text@ == signing_text(before, i as int, locks@[i as int]@));
                assert(encode_utf8(text@) == signing_message(before, prev, i as int));
            }
            let sig = match crate::signature::sign(pkcs8_bytes, text.as_str().as_bytes()) {
                Some(sig) => sig,
                None => { return Err(Error::InvalidKey); },
            };
            let mut input = self.v_in[i].clone();
            input.set_signature(sig.as_slice());
            inputs.push(input);
            i += 1;
        }
        self.v_in = inputs;
        proof {
            let s = signed(before, prev, pkcs8_bytes@);
            assert(self@.v_in =~= s.v_in);
            if carries_key(before, pkcs8_bytes@) {
                lemma_signed_verifies(before, prev, pkcs8_bytes@);
            }
        }
        Ok(())
    }

    /// Checks the signature of every input against the key hash that the
    /// output it spends is locked to. A coinbase always verifies. The
    /// inputs must name outputs of transactions among `prev_txs`.
    pub fn verify(&self, prev_txs: &[Transaction]) -> (r: Result<bool, Error>)
        ensures
            r == verify_result(self@, tx_views(prev_txs@)),
    {
        if self.is_coinbase() {
            return Ok(true);
        }
        let ghost prev = tx_views(prev_txs@);
        let locks = match self.locks(prev_txs) {
            Ok(l) => l,
            Err(e) => { return Err(e); },
        };
        let copy = self.trimmed_copy();
        proof {
            assert(trimmed(copy@).v_in =~= copy@.v_in);
        }
        let mut i: usize = 0;
        while i < self.v_in.len()
            invariant
                i <= self.v_in@.len(),
                copy@ == trimmed(self@),
                copy@ == trimmed(copy@),
                prev == tx_views(prev_txs@),
                sources_resolve(self@, prev),
                locks@.len() == self@.v_in.len(),
                forall|j: int|
                    0 <= j < locks@.len() ==> (#[trigger] locks@[j])@ == spent_output(
                        prev,
                        self@.v_in[j],
                    ).unwrap().pub_key_hash,
                forall|j: int| 0 <= j < i ==> input_verifies(self@, prev, j),
            decreases self.v_in@.len() - i,
        {
            let text = copy.signing_text_of(i, locks[i].as_slice());
            proof {
                crate::model::lemma_signing_text_ignores_proofs(
                    copy@,
                    self@,
                    i as int,
                    locks@[i as int]@,
                );
                assert(encode_utf8(text@) == signing_message(self@, prev, i as int));
            }
            let input = &self.v_in[i];
            if !crate::signature::verify(
                input.public_key.as_slice(),
                text.as_str().as_bytes(),
                input.signature.as_slice(),
            ) {
                assert(!input_verifies(self@, prev, i as int));
                return Ok(false);
            }
            i += 1;
        }
        Ok(true)
    }
}

} // verus!
