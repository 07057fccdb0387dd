//! The two message digests the ledger is built on. Both are computed by the
//! `crypto` crate; this module gives each a name in specifications and adds
//! the hexadecimal form used for identifiers.

use crypto::digest::Digest;
use crypto::ripemd160::Ripemd160;
use crypto::sha2::Sha256;
use vstd::prelude::*;

use crate::text::{hex_string, to_hex};

verus! {

/// The SHA-256 digest of a byte string.
pub uninterp spec fn sha256(data: Seq<u8>) -> Seq<u8>;

/// The RIPEMD-160 digest of a byte string.
pub uninterp spec fn ripemd160(data: Seq<u8>) -> Seq<u8>;

/// Length in bytes of a SHA-256 digest.
pub const SHA256_LEN: usize = 32;

/// Length in bytes of a RIPEMD-160 digest.
pub const RIPEMD160_LEN: usize = 20;

/// Feeds `data` to `crypto::sha2::Sha256` (`Digest::input`, then
/// `Digest::result`) and returns the digest. Trusted: the result is the
/// SHA-256 digest of `data`, which is 32 bytes long.
#[verifier::external_body]
pub(crate) fn sha256_digest(data: &[u8]) -> (out: Vec<u8>)
    ensures
        out@ == sha256(data@),
        out@.len() == SHA256_LEN,
{
    let mut hasher = Sha256::new();
    hasher.input(data);
    let mut out = [0u8; 32];
    hasher.result(&mut out);
    out.to_vec()
}

/// Feeds `data` to `crypto::ripemd160::Ripemd160` (`Digest::input`, then
/// `Digest::result`) and returns the digest. Trusted: the result is the
/// RIPEMD-160 digest of `data`, which is 20 bytes long.
#[verifier::external_body]
pub(crate) fn ripemd160_digest(data: &[u8]) -> (out: Vec<u8>)
    ensures
        out@ == ripemd160(data@),
        out@.len() == RIPEMD160_LEN,
{
    let mut hasher = Ripemd160::new();
    hasher.input(data);
    let mut out = [0u8; 20];
    hasher.result(&mut out);
    out.to_vec()
}

/// The SHA-256 digest of `data` as 64 lower-case hexadecimal characters.
pub open spec fn sha256_hex(data: Seq<u8>) -> Seq<char> {
    hex_string(sha256(data))
}

/// Computes the SHA-256 digest of `data` in hexadecimal.
pub fn sha256_hex_digest(data: &[u8]) -> (out: String)
    ensures
        out@ == sha256_hex(data@),
        out@.len() == 2 * SHA256_LEN,
{
    let raw = sha256_digest(data);
    to_hex(raw.as_slice())
}

} // verus!
