//! Base-58 text, in which addresses are written. The conversion is done by
//! the `bs58` crate with its default (Bitcoin) alphabet.

use vstd::prelude::*;

verus! {

/// The base-58 text of a byte string.
pub uninterp spec fn base58_encode(bytes: Seq<u8>) -> Seq<char>;

/// The bytes that a base-58 text stands for, if it is one.
pub uninterp spec fn base58_decode(text: Seq<char>) -> Option<Seq<u8>>;

/// Calls `bs58::encode(..).into_string()`. Trusted: the result is the
/// base-58 text of `bytes`, and `bs58::decode` reads it back as `bytes`:
/// the crate is a codec, whose decoder undoes its encoder.
#[verifier::external_body]
pub(crate) fn encode(bytes: &[u8]) -> (out: String)
    ensures
        out@ == base58_encode(bytes@),
        base58_decode(out@) == Some(bytes@),
{
    bs58::encode(bytes).into_string()
}

/// Calls `bs58::decode(..).into_vec()`. Trusted: the result holds the
/// decoded bytes, and is `None` exactly when the text is not base-58.
#[verifier::external_body]
pub(crate) fn decode(text: &str) -> (out: Option<Vec<u8>>)
    ensures
        base58_decode(text@) == match out {
            Some(v) => Some(v@),
            None => None,
        },
{
    bs58::decode(text).into_vec().ok()
}

} // verus!
