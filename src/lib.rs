//! A minimal proof-of-work ledger: blocks, transactions, the unspent-output
//! index and the chain that holds them, each with a checked contract.

pub mod util;
pub mod transaction;
pub mod merkle_tree;
pub mod proof_of_work;
pub mod block;
pub mod blockchain;
pub mod utxo_set;
pub mod wallet;
pub mod node;
