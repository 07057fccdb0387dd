//! The ways in which an operation of the node can be refused.

use vstd::prelude::*;

verus! {

/// Why an operation was refused. Every function that returns one of these
/// says in its contract exactly when.
#[derive(Debug, Clone, Copy, PartialEq, Eq, Structural)]
pub enum Error {
    /// The address is not base-58 or too short to hold a version byte and a checksum.
    InvalidAddress,
    /// The private key is not an acceptable PKCS#8 Ed25519 key.
    InvalidKey,
    /// The spendable outputs of the sender do not reach the amount.
    NotEnoughFunds,
    /// A sum of output values left the range of a 32-bit signed integer.
    AmountOverflow,
    /// An output stands at a position that a 32-bit output number cannot name.
    IndexOverflow,
    /// A transaction offered for mining does not verify.
    InvalidTransaction,
    /// No transaction with the requested id is on the chain.
    TransactionNotFound,
    /// An input refers to an output that its transaction does not have.
    OutputNotFound,
    /// No nonce below the limit satisfies the proof-of-work target.
    NonceSpaceExhausted,
    /// The system clock reads a time before the Unix epoch.
    ClockBeforeEpoch,
    /// A store already holds a blockchain.
    BlockchainExists,
    /// The store holds no blockchain.
    NoBlockchain,
    /// The store has no tip entry.
    TipMissing,
    /// The store holds a value of the wrong kind under a key.
    WrongValueKind,
    /// No block is stored under the requested hash.
    BlockNotFound,
    /// Following the links from the tip passes more blocks than the store has keys.
    CyclicChain,
    /// The chain is as high as a 32-bit height can count.
    HeightOverflow,
    /// Stored or received bytes do not decode.
    Malformed,
    /// The unspent-output index has no entry for a transaction that is being spent.
    EntryNotFound,
    /// No wallet is stored under the address.
    WalletNotFound,
    /// The operating system gave no random bytes.
    NoRandomness,
    /// A message names a command or a kind that the protocol does not have.
    UnknownCommand,
}

} // verus!
