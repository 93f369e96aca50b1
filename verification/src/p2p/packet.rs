//! The packets that nodes exchange.

use crate::blockchain::transaction::Transaction;
use crate::blockchain::BlockType;
use crate::p2p::network::NetAddr;
use vstd::prelude::*;

verus! {

/// A packet of the peer-to-peer protocol.
#[derive(Debug)]
pub enum Packet {
    /// Posts a block (at a height of the sender's longest chain), or says
    /// that the sender has none there.
    PostBlock(Option<BlockType>, u64),
    /// Asks for the block at a height of the longest chain.
    GetBlock(u64),
    /// Asks for the block with the given hash.
    GetBlockByHash(crate::blockchain::hash::Hash),
    /// Offers peers for a shuffle.
    PeerShuffleReq(Vec<NetAddr>),
    /// Answers a shuffle: peers, or `None` when the shuffle is refused.
    PeerShuffleResp(Option<Vec<NetAddr>>),
    /// Posts a new transaction.
    PostTx(Transaction),
    /// A node on the given port wants to join.
    JoinReq(u16),
    /// A node has joined and should be connected to.
    JoinFwd(NetAddr),
    /// Asks the connection to a node to close.
    CloseConnection(),
}

impl Packet {
    /// Whether the packet asks to close the connection.
    pub fn is_close_connection(&self) -> (r: bool)
        ensures
            r == (*self is CloseConnection),
    {
        match self {
            Packet::CloseConnection() => true,
            _ => false,
        }
    }
}

/// The errors of encoding and decoding packets.
#[derive(Debug)]
pub enum PacketErr {
    Deserialize(String),
    Serialize(String),
    Other(String),
}

impl PacketErr {
    /// The message of the error.
    pub fn message(&self) -> (s: &String)
        ensures
            match self {
                PacketErr::Deserialize(m) => *s == m,
                PacketErr::Serialize(m) => *s == m,
                PacketErr::Other(m) => *s == m,
            },
    {
        match self {
            PacketErr::Deserialize(m) => m,
            PacketErr::Serialize(m) => m,
            PacketErr::Other(m) => m,
        }
    }
}

/// The codec that frames packets on a stream.
#[derive(Debug)]
pub struct PacketCodec(());

impl PacketCodec {
    /// A new codec.
    pub fn new() -> (c: PacketCodec) {
        PacketCodec(())
    }
}

} // verus!
