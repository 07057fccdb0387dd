//! A small UTXO-model cryptocurrency node: blocks linked by hash and mined
//! under a fixed proof-of-work target, signed transactions over a ledger of
//! unspent outputs, wallets with base-58 addresses, and the decisions of the
//! peer-to-peer protocol. Every function states its behaviour in a contract
//! that Verus proves.

pub mod base58;
pub mod block;
pub mod blockchain;
pub mod cli;
pub mod clock;
pub mod codec;
pub mod consistency;
pub mod digest;
pub mod error;
pub mod linkage;
pub mod merkle_tree;
pub mod model;
pub mod payment;
pub mod proofofwork;
pub mod render;
pub mod server;
pub mod signature;
pub mod store;
pub mod table;
pub mod text;
pub mod transaction;
pub mod unspent;
pub mod utxo_set;
pub mod wallet;
pub mod wallets;
pub mod wire;
