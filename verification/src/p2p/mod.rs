//! The peer-to-peer side: addresses, packets, and the decisions of peer
//! discovery.

pub mod network;
pub mod packet;
pub mod peer_discovery;
