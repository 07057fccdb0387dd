//! Proof of work: the search for a nonce that brings the digest of a
//! block's header below a fixed target, and the check that a block's
//! nonce does so.

use vstd::prelude::*;
use vstd::string::*;
use vstd::utf8::*;

use crate::block::Block;
use crate::digest::{sha256_hex, sha256_hex_digest};
use crate::error::Error;
use crate::merkle_tree::merkle_root;
use crate::model::{enc_tx, BlockView, TransactionView};
use crate::text::{decimal_string, hex_string, lex_less, str_less, to_decimal};

verus! {

/// Nonces are tried from zero up to, and not including, this one.
pub const MAX_NONCE: u64 = u64::MAX;

/// Counted from the low end of the 64 hexadecimal digits of the target,
/// the position of its only `1`.
pub const TARGET_BYTE: i32 = 61;

/// The number of hexadecimal digits of the target.
pub const TARGET_LEN: usize = 64;

/// The target: 64 hexadecimal digits, all `0` but a `1` at position
/// `TARGET_BYTE` from the low end.
pub open spec fn target() -> Seq<char> {
    Seq::new(TARGET_LEN as nat, |i: int| if TARGET_LEN - 1 - i == TARGET_BYTE { '1' } else { '0' })
}

/// The encodings of the transactions, in order.
pub open spec fn tx_encodings(txs: Seq<TransactionView>) -> Seq<Seq<u8>> {
    txs.map_values(|t: TransactionView| enc_tx(t))
}

/// The Merkle root of the encoded transactions, in hexadecimal.
pub open spec fn transactions_root(txs: Seq<TransactionView>) -> Seq<char> {
    hex_string(merkle_root(tx_encodings(txs)))
}

/// The header text that is hashed for a nonce: the previous block's hash,
/// the root of the transactions, the timestamp in decimal, the target, and
/// the nonce in decimal.
pub open spec fn header_text(b: BlockView, nonce: u64) -> Seq<char> {
    b.prev_block_hash + transactions_root(b.transactions) + decimal_string(b.timestamp as nat)
        + target() + decimal_string(nonce as nat)
}

/// The hash of a block for a nonce: the SHA-256 digest of the header
/// text, in hexadecimal. It does not depend on the hash, nonce or height
/// that the block records.
pub open spec fn header_hash(b: BlockView, nonce: u64) -> Seq<char> {
    sha256_hex(encode_utf8(header_text(b, nonce)))
}

/// A hash meets the target when it comes before it in lexicographic
/// order.
pub open spec fn meets_target(hash: Seq<char>) -> bool {
    lex_less(hash, target())
}

/// The nonce that a block records brings its header below the target.
pub open spec fn nonce_is_valid(b: BlockView) -> bool {
    meets_target(header_hash(b, b.nonce))
}

/// A block is mined when it records the hash of its header for its nonce
/// and that hash meets the target.
pub open spec fn is_mined(b: BlockView) -> bool {
    b.hash == header_hash(b, b.nonce) && meets_target(b.hash)
}

/// For a hash of 64 hexadecimal digits, to meet the target is to start
/// with three zeros.
pub proof fn lemma_target_means_three_zeros(hash: Seq<char>)
    requires
        hash.len() == TARGET_LEN,
        crate::text::is_lower_hex(hash),
    ensures
        meets_target(hash) <==> (hash[0] == '0' && hash[1] == '0' && hash[2] == '0'),
{
    let t = target();
    assert(t[0] == '0' && t[1] == '0' && t[2] == '1');
    let h1 = hash.drop_first();
    let t1 = t.drop_first();
    let h2 = h1.drop_first();
    let t2 = t1.drop_first();
    let h3 = h2.drop_first();
    let t3 = t2.drop_first();
    assert(h1[0] == hash[1] && h2[0] == hash[2] && t1[0] == t[1] && t2[0] == t[2]);
    reveal_with_fuel(lex_less, 4);
    assert(hash[0] == '0' || '0' < hash[0]);
    assert(hash[1] == '0' || '0' < hash[1]);
    assert(hash[2] == '0' || '0' < hash[2]);
    if hash[0] == '0' && hash[1] == '0' && hash[2] == '0' {
        assert(lex_less(h2, t2));
    } else if hash[0] == '0' && hash[1] == '0' {
        if hash[2] == '1' {
            lemma_not_below_zeros(h3, t3);
        }
    }
}

/// Nothing of the same length comes before a string of zeros.
proof fn lemma_not_below_zeros(a: Seq<char>, zeros: Seq<char>)
    requires
        a.len() == zeros.len(),
        crate::text::is_lower_hex(a),
        forall|i: int| 0 <= i < zeros.len() ==> zeros[i] == '0',
    ensures
        !lex_less(a, zeros),
    decreases a.len(),
{
    if a.len() > 0 {
        assert(a[0] == '0' || '0' < a[0]);
        if a[0] == zeros[0] {
            let a1 = a.drop_first();
            let z1 = zeros.drop_first();
            assert forall|i: int| 0 <= i < a1.len() implies ('0' <= #[trigger] a1[i] <= '9' || 'a'
                <= a1[i] <= 'f') by {
                assert(a1[i] == a[i + 1]);
            }
            lemma_not_below_zeros(a1, z1);
        }
    }
}

/// The search for the nonce of one block.
pub struct ProofOfWork<'a> {
    block: &'a Block,
    target: String,
}

impl<'a> ProofOfWork<'a> {
    /// The block that is being mined or checked.
    pub closed spec fn block(&self) -> BlockView {
        self.block@
    }

    #[verifier::type_invariant]
    spec fn holds_the_target(&self) -> bool {
        self.target@ == target()
    }

    /// The search for the nonce of `block`, against the fixed target.
    pub fn new(block: &'a Block) -> (pow: ProofOfWork<'a>)
        ensures
            pow.block() == block@,
    {
        let mut text = String::new();
        let mut i: usize = 0;
        while i < TARGET_LEN
            invariant
                i <= TARGET_LEN,
                text@ == target().take(i as int),
            decreases TARGET_LEN - i,
        {
            if (TARGET_LEN - 1 - i) as i32 == TARGET_BYTE {
                text.push('1');
            } else {
                text.push('0');
            }
            i += 1;
            assert(text@ =~= target().take(i as int));
        }
        assert(target().take(TARGET_LEN as int) =~= target());
        ProofOfWork { block, target: text }
    }

    /// The part of the header text that comes before the nonce.
    fn header_prefix(&self) -> (text: String)
        ensures
            forall|nonce: u64|
                text@ + decimal_string(nonce as nat) == #[trigger] header_text(self.block(), nonce),
    {
        proof {
            use_type_invariant(self);
        }
        let mut text = String::new();
        text.append(self.block.prev_block_hash());
        let root = self.block.hash_transactions();
        text.append(root.as_str());
        let timestamp = to_decimal(self.block.timestamp());
        text.append(timestamp.as_str());
        text.append(self.target.as_str());
        assert forall|nonce: u64|
            text@ + decimal_string(nonce as nat) == #[trigger] header_text(
                self.block(),
                nonce,
            ) by {
            let b = self.block();
            assert(text@ =~= b.prev_block_hash + transactions_root(b.transactions)
                + decimal_string(b.timestamp as nat) + target());
        }
        text
    }

    /// The header text that is hashed for `nonce`.
    pub fn prepare_data(&self, nonce: u64) -> (text: String)
        ensures
            text@ == header_text(self.block(), nonce),
    {
        let mut text = self.header_prefix();
        let digits = to_decimal(nonce);
        text.append(digits.as_str());
        text
    }

    /// Whether a hash meets the target.
    fn below_target(&self, hash: &str) -> (r: bool)
        ensures
            r == meets_target(hash@),
    {
        proof {
            use_type_invariant(self);
        }
        str_less(hash, self.target.as_str())
    }

    /// Tries the nonces from zero upwards and returns the first whose
    /// header hash meets the target, with that hash. Fails where no nonce
    /// below `MAX_NONCE` does.
    pub fn run(&self) -> (r: Result<(u64, String), Error>)
        ensures
            match r {
                Ok((nonce, hash)) => {
                    &&& nonce < MAX_NONCE
                    &&& hash@.len() == TARGET_LEN
                    &&& hash@ == header_hash(self.block(), nonce)
                    &&& meets_target(hash@)
                    &&& forall|m: u64| m < nonce ==> !meets_target(#[trigger] header_hash(self.block(), m))
                },
                Err(e) => {
                    &&& e == Error::NonceSpaceExhausted
                    &&& forall|m: u64|
                        m < MAX_NONCE ==> !meets_target(#[trigger] header_hash(self.block(), m))
                },
            },
    {
        let prefix = self.header_prefix();
        let mut nonce: u64 = 0;
        while nonce < MAX_NONCE
            invariant
                forall|n: u64|
                    prefix@ + decimal_string(n as nat) == #[trigger] header_text(self.block(), n),
                forall|m: u64| m < nonce ==> !meets_target(#[trigger] header_hash(self.block(), m)),
            decreases MAX_NONCE - nonce,
        {
            let mut data = prefix.clone();
            let digits = to_decimal(nonce);
            data.append(digits.as_str());
            assert(data@ == header_text(self.block(), nonce));
            let hash = sha256_hex_digest(data.as_str().as_bytes());
            if self.below_target(hash.as_str()) {
                return Ok((nonce, hash));
            }
            nonce += 1;
        }
        Err(Error::NonceSpaceExhausted)
    }

    /// Recomputes the header hash for the nonce that the block records
    /// and says whether it meets the target.
    pub fn validate(&self) -> (ok: bool)
        ensures
            ok == nonce_is_valid(self.block()),
    {
        let data = self.prepare_data(self.block.nonce());
        let hash = sha256_hex_digest(data.as_str().as_bytes());
        self.below_target(hash.as_str())
    }
}

} // verus!
