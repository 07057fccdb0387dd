//! Ed25519 keys and signatures, computed by the `ring` crate. A private
//! key is held as the bytes of a PKCS#8 document.

use ring::rand::SystemRandom;
use ring::signature::{Ed25519KeyPair, KeyPair, UnparsedPublicKey, ED25519};
use vstd::prelude::*;

verus! {

/// The public key of the key pair that a PKCS#8 document holds, if the
/// document is an acceptable Ed25519 private key.
pub uninterp spec fn ed25519_public_key(pkcs8: Seq<u8>) -> Option<Seq<u8>>;

/// The signature that the key pair of a PKCS#8 document gives to a
/// message, if the document is acceptable. Ed25519 signatures are
/// deterministic.
pub uninterp spec fn ed25519_signature(pkcs8: Seq<u8>, message: Seq<u8>) -> Option<Seq<u8>>;

/// Whether `signature` is accepted for `message` under `public_key`.
pub uninterp spec fn ed25519_valid(public_key: Seq<u8>, message: Seq<u8>, signature: Seq<u8>) -> bool;

/// Length in bytes of an Ed25519 public key.
pub const ED25519_PUBLIC_KEY_LEN: usize = 32;

/// Length in bytes of an Ed25519 signature.
pub const ED25519_SIGNATURE_LEN: usize = 64;

/// The contents of bytes that may be there.
pub open spec fn bytes_view(v: Option<Vec<u8>>) -> Option<Seq<u8>> {
    match v {
        Some(b) => Some(b@),
        None => None,
    }
}

/// Calls `Ed25519KeyPair::generate_pkcs8` with a fresh `SystemRandom`.
/// Trusted: a document that comes back is one that
/// `Ed25519KeyPair::from_pkcs8` accepts. Which document it is depends on
/// the random source, so nothing more is stated.
#[verifier::external_body]
pub(crate) fn generate_pkcs8() -> (out: Option<Vec<u8>>)
    ensures
        out matches Some(doc) ==> ed25519_public_key(doc@) is Some,
{
    let rng = SystemRandom::new();
    Ed25519KeyPair::generate_pkcs8(&rng).ok().map(|doc| doc.as_ref().to_vec())
}

/// Parses the document with `Ed25519KeyPair::from_pkcs8` and returns the
/// bytes of `KeyPair::public_key`. Trusted: the result is the public key
/// of the document, `None` exactly when the document is rejected; a
/// public key has 32 bytes.
#[verifier::external_body]
pub(crate) fn public_key_of(pkcs8: &[u8]) -> (out: Option<Vec<u8>>)
    ensures
        bytes_view(out) == ed25519_public_key(pkcs8@),
        out matches Some(key) ==> key@.len() == ED25519_PUBLIC_KEY_LEN,
{
    Ed25519KeyPair::from_pkcs8(pkcs8).ok().map(|pair| pair.public_key().as_ref().to_vec())
}

/// Parses the document with `Ed25519KeyPair::from_pkcs8` and signs
/// `message` with `Ed25519KeyPair::sign`. Trusted: the result is the
/// signature of the message under the document's key; it is `None`
/// exactly when the document is rejected; a signature has 64 bytes; and
/// the signature is one that `UnparsedPublicKey::verify` accepts for the
/// message under the document's public key, as the signing example of
/// `ring::signature` shows.
#[verifier::external_body]
pub(crate) fn sign(pkcs8: &[u8], message: &[u8]) -> (out: Option<Vec<u8>>)
    ensures
        bytes_view(out) == ed25519_signature(pkcs8@, message@),
        out is Some <==> ed25519_public_key(pkcs8@) is Some,
        out matches Some(sig) ==> sig@.len() == ED25519_SIGNATURE_LEN,
        out matches Some(sig) ==> ed25519_valid(
            ed25519_public_key(pkcs8@).unwrap(),
            message@,
            sig@,
        ),
{
    Ed25519KeyPair::from_pkcs8(pkcs8).ok().map(|pair| pair.sign(message).as_ref().to_vec())
}

/// Calls `UnparsedPublicKey::new(&ED25519, public_key).verify(message,
/// signature)`. Trusted: the result says whether `ring` accepts the
/// signature.
#[verifier::external_body]
pub(crate) fn verify(public_key: &[u8], message: &[u8], signature: &[u8]) -> (ok: bool)
    ensures
        ok == ed25519_valid(public_key@, message@, signature@),
{
    UnparsedPublicKey::new(&ED25519, public_key).verify(message, signature).is_ok()
}

} // verus!
