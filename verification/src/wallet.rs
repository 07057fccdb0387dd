//! A wallet is one Ed25519 key pair. Its address is the base-58 text of a
//! version byte, the hash of the public key, and a four-byte checksum.

use vstd::prelude::*;
use vstd::slice::*;

use crate::base58::{base58_decode, base58_encode, self};
use crate::digest::{ripemd160, ripemd160_digest, sha256, sha256_digest};
use crate::error::Error;
use crate::text::bytes_equal;
use crate::signature::{ed25519_public_key, generate_pkcs8, public_key_of};

verus! {

/// The version byte that every address starts with.
pub const VERSION: u8 = 0;

/// The number of checksum bytes at the end of an address.
pub const ADDRESS_CHECKSUM_LEN: usize = 4;

/// The hash that outputs are locked to: RIPEMD-160 of SHA-256 of the
/// public key.
pub open spec fn key_hash(public_key: Seq<u8>) -> Seq<u8> {
    ripemd160(sha256(public_key))
}

/// The first four bytes of the double SHA-256 digest of the payload.
pub open spec fn checksum_of(payload: Seq<u8>) -> Seq<u8> {
    sha256(sha256(payload)).take(ADDRESS_CHECKSUM_LEN as int)
}

/// The bytes of an address: version byte, key hash, checksum.
pub open spec fn address_bytes(hash: Seq<u8>) -> Seq<u8> {
    let payload = seq![VERSION] + hash;
    payload + checksum_of(payload)
}

/// The address of a public key.
pub open spec fn address_of(public_key: Seq<u8>) -> Seq<char> {
    base58_encode(address_bytes(key_hash(public_key)))
}

/// An address is valid when it is base-58 text for at least a version byte
/// and a checksum, and its last four bytes are the checksum of the bytes
/// before them.
pub open spec fn valid_address(address: Seq<char>) -> bool {
    match base58_decode(address) {
        Some(b) => b.len() > ADDRESS_CHECKSUM_LEN && checksum_of(
            b.take(b.len() - ADDRESS_CHECKSUM_LEN),
        ) == b.skip(b.len() - ADDRESS_CHECKSUM_LEN),
        None => false,
    }
}

/// The key hash inside an address: the decoded bytes without the version
/// byte and the checksum. `None` where the text is not base-58 or too
/// short to hold both.
pub open spec fn address_key_hash(address: Seq<char>) -> Option<Seq<u8>> {
    match base58_decode(address) {
        Some(b) => if b.len() > ADDRESS_CHECKSUM_LEN {
            Some(b.subrange(1, b.len() - ADDRESS_CHECKSUM_LEN))
        } else {
            None
        },
        None => None,
    }
}

/// Decodes an address and extracts the key hash that it names.
pub fn key_hash_of_address(address: &str) -> (r: Result<Vec<u8>, Error>)
    ensures
        match r {
            Ok(h) => address_key_hash(address@) == Some(h@),
            Err(e) => e == Error::InvalidAddress && address_key_hash(address@) is None,
        },
{
    match base58::decode(address) {
        Some(b) => {
            if b.len() > ADDRESS_CHECKSUM_LEN {
                Ok(slice_to_vec(slice_subrange(b.as_slice(), 1, b.len() - ADDRESS_CHECKSUM_LEN)))
            } else {
                Err(Error::InvalidAddress)
            }
        },
        None => Err(Error::InvalidAddress),
    }
}

/// An Ed25519 key pair, kept as its PKCS#8 document. Every wallet holds a
/// document that is an acceptable key.
pub struct Wallet {
    pkcs8_bytes: Vec<u8>,
}

impl Wallet {
    #[verifier::type_invariant]
    spec fn holds_a_key(&self) -> bool {
        ed25519_public_key(self.pkcs8_bytes@) is Some
    }

    /// The PKCS#8 document of the wallet's key pair.
    pub closed spec fn key(&self) -> Seq<u8> {
        self.pkcs8_bytes@
    }

    /// The public key of the wallet.
    pub open spec fn spec_public_key(&self) -> Seq<u8> {
        ed25519_public_key(self.key()).unwrap()
    }

    /// Makes a wallet with a freshly generated key pair. Fails only when
    /// the system gives no random bytes.
    pub fn new() -> (r: Result<Wallet, Error>)
        ensures
            r matches Err(e) ==> e == Error::NoRandomness,
            r matches Ok(w) ==> ed25519_public_key(w.key()) is Some,
    {
        match generate_pkcs8() {
            Some(doc) => Ok(Wallet { pkcs8_bytes: doc }),
            None => Err(Error::NoRandomness),
        }
    }

    /// Makes a wallet from a stored PKCS#8 document, which must be an
    /// acceptable Ed25519 key.
    pub fn deserialize(bytes: Vec<u8>) -> (r: Result<Wallet, Error>)
        ensures
            match r {
                Ok(w) => w.key() == bytes@ && ed25519_public_key(bytes@) is Some,
                Err(e) => e == Error::InvalidKey && ed25519_public_key(bytes@) is None,
            },
    {
        match public_key_of(bytes.as_slice()) {
            Some(_) => Ok(Wallet { pkcs8_bytes: bytes }),
            None => Err(Error::InvalidKey),
        }
    }

    /// The bytes under which the wallet is stored: its PKCS#8 document.
    pub fn serialize(&self) -> (out: Vec<u8>)
        ensures
            out@ == self.key(),
    {
        slice_to_vec(self.pkcs8_bytes.as_slice())
    }

    /// The PKCS#8 document of the wallet's key pair.
    pub fn pkcs8_bytes(&self) -> (out: &[u8])
        ensures
            out@ == self.key(),
            ed25519_public_key(out@) is Some,
    {
        proof {
            use_type_invariant(self);
        }
        self.pkcs8_bytes.as_slice()
    }

    /// The public key of the wallet.
    pub fn public_key(&self) -> (out: Vec<u8>)
        ensures
            ed25519_public_key(self.key()) == Some(out@),
            out@.len() == crate::signature::ED25519_PUBLIC_KEY_LEN,
    {
        proof {
            use_type_invariant(self);
        }
        match public_key_of(self.pkcs8_bytes.as_slice()) {
            Some(public_key) => public_key,
            None => Vec::new(),
        }
    }

    /// The hash that outputs are locked to: RIPEMD-160 of SHA-256 of the
    /// public key.
    pub fn hash_pub_key(pub_key: &[u8]) -> (out: Vec<u8>)
        ensures
            out@ == key_hash(pub_key@),
            out@.len() == 20,
    {
        let inner = sha256_digest(pub_key);
        ripemd160_digest(inner.as_slice())
    }

    fn checksum(payload: &[u8]) -> (out: Vec<u8>)
        ensures
            out@ == checksum_of(payload@),
            out@.len() == ADDRESS_CHECKSUM_LEN,
    {
        let first = sha256_digest(payload);
        let second = sha256_digest(first.as_slice());
        slice_to_vec(slice_subrange(second.as_slice(), 0, ADDRESS_CHECKSUM_LEN))
    }

    /// The address of the wallet. It is a valid address, and the key hash
    /// that it names is the hash of the wallet's public key.
    pub fn get_address(&self) -> (address: String)
        ensures
            address@ == address_of(self.spec_public_key()),
            valid_address(address@),
            address_key_hash(address@) == Some(key_hash(self.spec_public_key())),
    {
        let public_key = self.public_key();
        let pub_key_hash = Self::hash_pub_key(public_key.as_slice());
        let mut payload: Vec<u8> = Vec::new();
        payload.push(VERSION);
        payload.extend_from_slice(pub_key_hash.as_slice());
        let checksum = Self::checksum(payload.as_slice());
        let ghost versioned = payload@;
        payload.extend_from_slice(checksum.as_slice());
        let address = base58::encode(payload.as_slice());
        proof {
            let b = payload@;
            assert(versioned =~= seq![VERSION] + pub_key_hash@);
            assert(b =~= address_bytes(key_hash(public_key@)));
            assert(b.take(b.len() - ADDRESS_CHECKSUM_LEN) =~= versioned);
            assert(b.skip(b.len() - ADDRESS_CHECKSUM_LEN) =~= checksum@);
            assert(b.subrange(1, b.len() - ADDRESS_CHECKSUM_LEN) =~= pub_key_hash@);
        }
        address
    }

    /// Decides whether an address is valid: whether it decodes and ends
    /// with the checksum of what comes before.
    pub fn validate_address(address: &str) -> (ok: bool)
        ensures
            ok == valid_address(address@),
    {
        let decoded = match base58::decode(address) {
            Some(b) => b,
            None => { return false; },
        };
        if decoded.len() <= ADDRESS_CHECKSUM_LEN {
            return false;
        }
        let size = decoded.len() - ADDRESS_CHECKSUM_LEN;
        let actual = slice_subrange(decoded.as_slice(), size, decoded.len());
        let target = Self::checksum(slice_subrange(decoded.as_slice(), 0, size));
        proof {
            assert(decoded@.take(size as int) =~= decoded@.subrange(0, size as int));
            assert(decoded@.skip(size as int) =~= decoded@.subrange(
                size as int,
                decoded@.len() as int,
            ));
        }
        bytes_equal(actual, target.as_slice())
    }
}

} // verus!
