//! The fixed-layout binary encoding in which blocks, transactions and
//! protocol messages are stored and sent: integers little-endian at their
//! full width, byte strings and sequences behind a 64-bit element count,
//! text as its UTF-8 bytes, the fields of a record one after another.
//!
//! Encoders are specified by `enc_*` functions and decoders by `dec_*`
//! functions that return the decoded value with the bytes left over. A
//! decoder accepts any input that starts with an encoding.

use vstd::bytes::*;
use vstd::prelude::*;
use vstd::slice::*;
use vstd::string::*;
use vstd::utf8::*;

verus! {

/// A decoded value together with the bytes that follow its encoding.
pub type Decoded<T> = Option<(T, Seq<u8>)>;

/// A 64-bit integer: eight bytes, lowest first.
pub open spec fn enc_u64(x: u64) -> Seq<u8> {
    spec_u64_to_le_bytes(x)
}

/// A signed 32-bit integer: four bytes in two's complement, lowest first.
pub open spec fn enc_i32(x: i32) -> Seq<u8> {
    spec_u32_to_le_bytes(x as u32)
}

/// A byte string: its length as a 64-bit integer, then the bytes.
pub open spec fn enc_bytes(b: Seq<u8>) -> Seq<u8> {
    enc_u64(b.len() as u64) + b
}

/// A text: the byte string of its UTF-8 form.
pub open spec fn enc_str(s: Seq<char>) -> Seq<u8> {
    enc_bytes(encode_utf8(s))
}

/// The encodings of the items of a sequence, one after another.
pub open spec fn enc_items<T>(items: Seq<T>, enc: spec_fn(T) -> Seq<u8>) -> Seq<u8>
    decreases items.len(),
{
    if items.len() == 0 {
        Seq::empty()
    } else {
        enc_items(items.drop_last(), enc) + enc(items.last())
    }
}

/// A sequence: its length, then its items.
pub open spec fn enc_seq<T>(items: Seq<T>, enc: spec_fn(T) -> Seq<u8>) -> Seq<u8> {
    enc_u64(items.len() as u64) + enc_items(items, enc)
}

/// Takes a 64-bit integer from the front: `None` where fewer than eight
/// bytes are there.
pub open spec fn dec_u64(s: Seq<u8>) -> Decoded<u64> {
    if s.len() >= 8 {
        Some((spec_u64_from_le_bytes(s.take(8)), s.skip(8)))
    } else {
        None
    }
}

/// Takes a signed 32-bit integer from the front.
pub open spec fn dec_i32(s: Seq<u8>) -> Decoded<i32> {
    if s.len() >= 4 {
        Some((spec_u32_from_le_bytes(s.take(4)) as i32, s.skip(4)))
    } else {
        None
    }
}

/// Takes a byte string from the front: `None` where the length or as many
/// bytes as it says are not there.
pub open spec fn dec_bytes(s: Seq<u8>) -> Decoded<Seq<u8>> {
    match dec_u64(s) {
        Some((n, rest)) => if rest.len() >= n {
            Some((rest.take(n as int), rest.skip(n as int)))
        } else {
            None
        },
        None => None,
    }
}

/// Takes a text from the front: a byte string that is well-formed UTF-8.
pub open spec fn dec_str(s: Seq<u8>) -> Decoded<Seq<char>> {
    match dec_bytes(s) {
        Some((b, rest)) => if valid_utf8(b) {
            Some((decode_utf8(b), rest))
        } else {
            None
        },
        None => None,
    }
}

/// Decodes `n` items one after another.
pub open spec fn dec_items<T>(s: Seq<u8>, n: nat, dec: spec_fn(Seq<u8>) -> Decoded<T>) -> Decoded<
    Seq<T>,
>
    decreases n,
{
    if n == 0 {
        Some((Seq::empty(), s))
    } else {
        match dec(s) {
            Some((x, rest)) => match dec_items(rest, (n - 1) as nat, dec) {
                Some((xs, rest2)) => Some((seq![x] + xs, rest2)),
                None => None,
            },
            None => None,
        }
    }
}

/// Takes a sequence from the front: its length, then that many items.
pub open spec fn dec_seq<T>(s: Seq<u8>, dec: spec_fn(Seq<u8>) -> Decoded<T>) -> Decoded<Seq<T>> {
    match dec_u64(s) {
        Some((n, rest)) => dec_items(rest, n as nat, dec),
        None => None,
    }
}

/// `dec` undoes `enc` on `x`, whatever bytes follow the encoding.
pub open spec fn inverts<T>(
    dec: spec_fn(Seq<u8>) -> Decoded<T>,
    enc: spec_fn(T) -> Seq<u8>,
    x: T,
) -> bool {
    forall|rest: Seq<u8>| #[trigger] dec(enc(x) + rest) == Some((x, rest))
}

/// Decoding the encoding of an integer gives the integer back.
pub proof fn lemma_u64_round_trip(x: u64, rest: Seq<u8>)
    ensures
        enc_u64(x).len() == 8,
        dec_u64(enc_u64(x) + rest) == Some((x, rest)),
{
    lemma_auto_spec_u64_to_from_le_bytes();
    let s = enc_u64(x) + rest;
    assert(s.take(8) =~= enc_u64(x));
    assert(s.skip(8) =~= rest);
}

/// Decoding the encoding of a signed integer gives the integer back.
pub proof fn lemma_i32_round_trip(x: i32, rest: Seq<u8>)
    ensures
        enc_i32(x).len() == 4,
        dec_i32(enc_i32(x) + rest) == Some((x, rest)),
{
    lemma_auto_spec_u32_to_from_le_bytes();
    let s = enc_i32(x) + rest;
    assert(s.take(4) =~= enc_i32(x));
    assert(s.skip(4) =~= rest);
    assert((x as u32) as i32 == x) by (bit_vector);
}

/// Decoding the encoding of a byte string gives the byte string back.
pub proof fn lemma_bytes_round_trip(b: Seq<u8>, rest: Seq<u8>)
    requires
        b.len() <= u64::MAX,
    ensures
        dec_bytes(enc_bytes(b) + rest) == Some((b, rest)),
{
    let n = b.len() as u64;
    lemma_u64_round_trip(n, b + rest);
    assert(enc_bytes(b) + rest =~= enc_u64(n) + (b + rest));
    assert((b + rest).take(n as int) =~= b);
    assert((b + rest).skip(n as int) =~= rest);
}

/// Decoding the encoding of a text gives the text back.
pub proof fn lemma_str_round_trip(s: Seq<char>, rest: Seq<u8>)
    requires
        encode_utf8(s).len() <= u64::MAX,
    ensures
        dec_str(enc_str(s) + rest) == Some((s, rest)),
{
    lemma_bytes_round_trip(encode_utf8(s), rest);
    encode_utf8_valid_utf8(s);
    encode_utf8_decode_utf8(s);
}

/// The encoding of a sequence that starts with `x` starts with the
/// encoding of `x`.
pub proof fn lemma_enc_items_first<T>(x: T, xs: Seq<T>, enc: spec_fn(T) -> Seq<u8>)
    ensures
        enc_items(seq![x] + xs, enc) == enc(x) + enc_items(xs, enc),
    decreases xs.len(),
{
    let all = seq![x] + xs;
    if xs.len() == 0 {
        assert(all.drop_last() =~= Seq::<T>::empty());
        assert(enc_items(all.drop_last(), enc) =~= Seq::<u8>::empty());
        assert(enc_items(all, enc) =~= enc(x) + enc_items(xs, enc));
    } else {
        assert(all.drop_last() =~= seq![x] + xs.drop_last());
        assert(all.last() == xs.last());
        lemma_enc_items_first(x, xs.drop_last(), enc);
        assert(enc_items(all, enc) =~= enc(x) + enc_items(xs, enc));
    }
}

/// Decoding the encodings of items that can each be decoded gives the
/// items back.
pub proof fn lemma_items_round_trip<T>(
    items: Seq<T>,
    enc: spec_fn(T) -> Seq<u8>,
    dec: spec_fn(Seq<u8>) -> Decoded<T>,
    rest: Seq<u8>,
)
    requires
        forall|i: int| 0 <= i < items.len() ==> inverts(dec, enc, #[trigger] items[i]),
    ensures
        dec_items(enc_items(items, enc) + rest, items.len(), dec) == Some((items, rest)),
    decreases items.len(),
{
    if items.len() == 0 {
        assert(enc_items(items, enc) + rest =~= rest);
        assert(items =~= Seq::<T>::empty());
    } else {
        let x = items[0];
        let xs = items.drop_first();
        assert(items =~= seq![x] + xs);
        lemma_enc_items_first(x, xs, enc);
        let tail = enc_items(xs, enc) + rest;
        assert(enc_items(items, enc) + rest =~= enc(x) + tail);
        assert(inverts(dec, enc, items[0]));
        assert(dec(enc(x) + tail) == Some((x, tail)));
        assert forall|i: int| 0 <= i < xs.len() implies inverts(dec, enc, #[trigger] xs[i]) by {
            assert(xs[i] == items[i + 1]);
        }
        lemma_items_round_trip(xs, enc, dec, rest);
    }
}

/// Decoding the encoding of a sequence of items that can each be decoded
/// gives the sequence back.
pub proof fn lemma_seq_round_trip<T>(
    items: Seq<T>,
    enc: spec_fn(T) -> Seq<u8>,
    dec: spec_fn(Seq<u8>) -> Decoded<T>,
    rest: Seq<u8>,
)
    requires
        items.len() <= u64::MAX,
        forall|i: int| 0 <= i < items.len() ==> inverts(dec, enc, #[trigger] items[i]),
    ensures
        dec_seq(enc_seq(items, enc) + rest, dec) == Some((items, rest)),
{
    let n = items.len() as u64;
    let tail = enc_items(items, enc) + rest;
    lemma_u64_round_trip(n, tail);
    assert(enc_seq(items, enc) + rest =~= enc_u64(n) + tail);
    lemma_items_round_trip(items, enc, dec, rest);
}

/// Appends the encoding of `x`.
pub fn put_u64(out: &mut Vec<u8>, x: u64)
    ensures
        final(out)@ == old(out)@ + enc_u64(x),
{
    let b = u64_to_le_bytes(x);
    out.extend_from_slice(b.as_slice());
}

/// Appends the encoding of `x`.
pub fn put_i32(out: &mut Vec<u8>, x: i32)
    ensures
        final(out)@ == old(out)@ + enc_i32(x),
{
    let b = u32_to_le_bytes(#[verifier::truncate] (x as u32));
    out.extend_from_slice(b.as_slice());
}

/// Appends the encoding of the byte string `b`.
pub fn put_bytes(out: &mut Vec<u8>, b: &[u8])
    ensures
        final(out)@ == old(out)@ + enc_bytes(b@),
        b@.len() <= u64::MAX,
{
    put_u64(out, b.len() as u64);
    out.extend_from_slice(b);
    assert(out@ =~= old(out)@ + enc_bytes(b@));
}

/// A text fits the encoding when its UTF-8 form can be counted in 64 bits.
/// Every text that a program holds does.
pub open spec fn text_fits(s: Seq<char>) -> bool {
    encode_utf8(s).len() <= u64::MAX
}

/// Appends the encoding of the text `s`.
pub fn put_str(out: &mut Vec<u8>, s: &str)
    ensures
        final(out)@ == old(out)@ + enc_str(s@),
        text_fits(s@),
{
    put_bytes(out, s.as_bytes());
}

/// What a reader hands back: the value and the position after it, which
/// agree with what the decoder `d` gives on the input from `pos` on.
pub open spec fn reads<T>(bytes: Seq<u8>, pos: int, d: Decoded<T>, r: Option<(T, usize)>) -> bool {
    match r {
        Some((v, next)) => pos <= next <= bytes.len() && d == Some((v, bytes.skip(next as int))),
        None => d is None,
    }
}

/// Reads a 64-bit integer at `pos`.
pub fn get_u64(bytes: &[u8], pos: usize) -> (r: Option<(u64, usize)>)
    requires
        pos <= bytes@.len(),
    ensures
        reads(bytes@, pos as int, dec_u64(bytes@.skip(pos as int)), r),
{
    if bytes.len() - pos < 8 {
        return None;
    }
    let v = u64_from_le_bytes(slice_subrange(bytes, pos, pos + 8));
    proof {
        let s = bytes@.skip(pos as int);
        assert(s.take(8) =~= bytes@.subrange(pos as int, pos + 8));
        assert(s.skip(8) =~= bytes@.skip(pos + 8));
    }
    Some((v, pos + 8))
}

/// Reads a 32-bit signed integer at `pos`.
pub fn get_i32(bytes: &[u8], pos: usize) -> (r: Option<(i32, usize)>)
    requires
        pos <= bytes@.len(),
    ensures
        reads(bytes@, pos as int, dec_i32(bytes@.skip(pos as int)), r),
{
    if bytes.len() - pos < 4 {
        return None;
    }
    let v = u32_from_le_bytes(slice_subrange(bytes, pos, pos + 4));
    proof {
        let s = bytes@.skip(pos as int);
        assert(s.take(4) =~= bytes@.subrange(pos as int, pos + 4));
        assert(s.skip(4) =~= bytes@.skip(pos + 4));
    }
    Some((#[verifier::truncate] (v as i32), pos + 4))
}

/// Reads a length-prefixed byte string at `pos`.
pub fn get_bytes(bytes: &[u8], pos: usize) -> (r: Option<(Vec<u8>, usize)>)
    requires
        pos <= bytes@.len(),
    ensures
        reads(
            bytes@,
            pos as int,
            dec_bytes(bytes@.skip(pos as int)),
            match r {
                Some((v, next)) => Some((v@, next)),
                None => None,
            },
        ),
{
    let (n, start) = match get_u64(bytes, pos) {
        Some(p) => p,
        None => { return None; },
    };
    if n > (bytes.len() - start) as u64 {
        return None;
    }
    let len = n as usize;
    let v = slice_to_vec(slice_subrange(bytes, start, start + len));
    proof {
        let rest = bytes@.skip(start as int);
        assert(rest.take(n as int) =~= bytes@.subrange(start as int, start + len));
        assert(rest.skip(n as int) =~= bytes@.skip(start + len));
    }
    Some((v, start + len))
}

/// `String::from_utf8` turns bytes into text. Trusted: it succeeds exactly
/// on well-formed UTF-8, and the text is then the decoding of the bytes.
#[verifier::external_body]
pub(crate) fn text_from_utf8(bytes: Vec<u8>) -> (out: Option<String>)
    ensures
        out is Some <==> valid_utf8(bytes@),
        out matches Some(s) ==> s@ == decode_utf8(bytes@),
{
    String::from_utf8(bytes).ok()
}

/// The text that bytes are read as when ill-formed parts are replaced by
/// the replacement character.
pub uninterp spec fn utf8_lossy(bytes: Seq<u8>) -> Seq<char>;

/// `String::from_utf8_lossy` turns bytes into text and puts the
/// replacement character in place of what is not UTF-8. Trusted: the
/// result depends on the bytes alone, and is their decoding where they
/// are well-formed UTF-8.
#[verifier::external_body]
pub(crate) fn text_from_utf8_lossy(bytes: &[u8]) -> (out: String)
    ensures
        out@ == utf8_lossy(bytes@),
        valid_utf8(bytes@) ==> out@ == decode_utf8(bytes@),
{
    String::from_utf8_lossy(bytes).into_owned()
}

/// Reads a length-prefixed text at `pos`.
pub fn get_str(bytes: &[u8], pos: usize) -> (r: Option<(String, usize)>)
    requires
        pos <= bytes@.len(),
    ensures
        reads(
            bytes@,
            pos as int,
            dec_str(bytes@.skip(pos as int)),
            match r {
                Some((s, next)) => Some((s@, next)),
                None => None,
            },
        ),
{
    match get_bytes(bytes, pos) {
        Some((raw, next)) => match text_from_utf8(raw) {
            Some(s) => Some((s, next)),
            None => None,
        },
        None => None,
    }
}

} // verus!
