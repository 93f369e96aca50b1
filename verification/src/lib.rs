//! A bicycle registry kept on a blockchain: transactions record who owns a
//! bike, blocks chain the transactions together, and a proof-of-work miner
//! seals them. Peers exchange blocks and transactions.

pub mod blockchain;
pub mod p2p;
pub mod backend;
pub mod rest;
