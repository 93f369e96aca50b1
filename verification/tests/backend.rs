use bikechain::backend::{Backend, BackendErr, Outgoing, PacketOutcome, SyncStep};
use bikechain::blockchain::block::Block;
use bikechain::blockchain::hash;
use bikechain::blockchain::transaction::Transaction;
use bikechain::p2p::network::NetAddr;
use bikechain::p2p::packet::Packet;

fn register(id: &str, n: u8) -> Transaction {
    Transaction::from_details(format!("{}", id), 1, None, vec![n; 32], vec![n; 64])
}

fn transfer(prev: &Transaction, n: u8) -> Transaction {
    let mut t = Transaction::make_transfer(prev, vec![n; 32]);
    t.set_signature(vec![n; 64]);
    t
}

fn peer() -> NetAddr {
    NetAddr::V4 { ip: 0x0a00_0001, port: 35011 }
}

fn mined(parent: [u8; 32], t: Transaction) -> Block<Transaction> {
    let mut b = Block::new(parent, t);
    while !hash::hash_meets_difficulty(&b.calc_hash()) {
        b.inc_nonce();
    }
    b
}

#[test]
fn test_get_block_answers() {
    let mut node = Backend::new(register("GENESIS_BIKE", 250));
    match node.handle_packet(Packet::GetBlock(0), peer(), true) {
        PacketOutcome::Send(v) => {
            assert_eq!(v.len(), 1);
            match &v[0] {
                Outgoing::Unicast(Packet::PostBlock(Some(b), 0), to) => {
                    assert_eq!(*to, peer());
                    assert_eq!(b.get_data().get_id(), "GENESIS_BIKE");
                }
                other => panic!("unexpected {:?}", other),
            }
        }
        other => panic!("unexpected {:?}", other),
    }
    match node.handle_packet(Packet::GetBlock(5), peer(), true) {
        PacketOutcome::Send(v) => assert!(matches!(&v[0], Outgoing::Unicast(Packet::PostBlock(None, 5), _))),
        other => panic!("unexpected {:?}", other),
    }
    match node.handle_packet(Packet::GetBlockByHash(hash::EMPTY_HASH), peer(), true) {
        PacketOutcome::Send(v) => assert!(matches!(&v[0], Outgoing::Unicast(Packet::PostBlock(None, 0), _))),
        other => panic!("unexpected {:?}", other),
    }
    assert!(matches!(node.handle_packet(Packet::JoinReq(1), peer(), true), PacketOutcome::PeerDiscovery(Packet::JoinReq(1))));
}

#[test]
fn test_backlog_waits_for_parent() {
    let mut node = Backend::new(register("GENESIS_BIKE", 250));
    let genesis_hash = node.get_chain().get_genesis_block().calc_hash();
    let t0 = register("A", 1);
    let t1 = transfer(&t0, 2);
    let b0 = mined(genesis_hash, t0);
    let b1 = mined(b0.calc_hash(), t1);
    let b0_hash = b0.calc_hash();
    // The child arrives first: its parent is asked for.
    match node.handle_packet(Packet::PostBlock(Some(b1), 2), peer(), true) {
        PacketOutcome::Send(v) => match &v[0] {
            Outgoing::Broadcast(Packet::GetBlockByHash(h)) => assert_eq!(*h, b0_hash),
            other => panic!("unexpected {:?}", other),
        },
        other => panic!("unexpected {:?}", other),
    }
    assert_eq!(node.backlog_len(), 1);
    assert_eq!(node.get_chain().block_count(), 1);
    // The parent arrives: both fit now.
    assert!(matches!(node.handle_packet(Packet::PostBlock(Some(b0), 1), peer(), true), PacketOutcome::Send(_)));
    assert_eq!(node.backlog_len(), 0);
    assert_eq!(node.get_chain().block_count(), 3);
    assert_eq!(node.query_id("A", 10, 0).len(), 2);
}

#[test]
fn test_bad_block_is_fatal() {
    let mut node = Backend::new(register("GENESIS_BIKE", 250));
    let genesis_hash = node.get_chain().get_genesis_block().calc_hash();
    let b = mined(genesis_hash, register("GENESIS_BIKE", 3));
    assert!(matches!(
        node.handle_packet(Packet::PostBlock(Some(b), 1), peer(), true),
        PacketOutcome::Fatal(bikechain::blockchain::ChainErr::NonUniqueTransactionID)
    ));
}

#[test]
fn test_create_transaction_and_mine() {
    let mut node = Backend::new(register("GENESIS_BIKE", 250));
    let (reply, post) = node.create_transaction(register("A", 1), true);
    assert!(matches!(reply, Some(Ok(()))));
    assert!(matches!(post, Some(Packet::PostTx(_))));
    let (reply, post) = node.create_transaction(register("A", 1), true);
    assert!(matches!(reply, Some(Ok(()))), "a known transaction is accepted again");
    assert!(post.is_none());
    let (reply, _) = node.create_transaction(register("GENESIS_BIKE", 2), true);
    assert!(matches!(reply, Some(Err(BackendErr::ChainErr(_)))));
    let out = loop {
        let out = node.mine().expect("mining keeps the chain consistent");
        if !out.is_empty() {
            break out;
        }
    };
    match &out[0] {
        Outgoing::Broadcast(Packet::PostBlock(Some(b), 1)) => assert_eq!(b.get_data().get_id(), "A"),
        other => panic!("unexpected {:?}", other),
    }
    assert_eq!(node.get_chain().block_count(), 2);
}

#[test]
fn test_query_pages() {
    let mut node = Backend::new(register("GENESIS_BIKE", 250));
    let t0 = register("A", 1);
    let t1 = transfer(&t0, 2);
    let t2 = transfer(&t1, 3);
    let genesis_hash = node.get_chain().get_genesis_block().calc_hash();
    let b0 = mined(genesis_hash, t0);
    let b1 = mined(b0.calc_hash(), t1);
    let b2 = mined(b1.calc_hash(), t2);
    for (i, b) in vec![b0, b1, b2].into_iter().enumerate() {
        node.handle_packet(Packet::PostBlock(Some(b), i as u64 + 1), peer(), true);
    }
    assert_eq!(node.query_id("A", usize::MAX, 0).len(), 3);
    let page = node.query_id("A", 1, 1);
    assert_eq!(page.len(), 1);
    assert_eq!(page[0].get_signature(), &vec![2u8; 64]);
    assert_eq!(node.query_id("A", 5, usize::MAX).len(), 0);
    assert_eq!(node.query_pub_key(&vec![2; 32], 10, 0).len(), 2);
}

#[test]
fn test_initial_sync_steps() {
    let mut node = Backend::new(register("GENESIS_BIKE", 250));
    let genesis_hash = node.get_chain().get_genesis_block().calc_hash();
    let b0 = mined(genesis_hash, register("A", 1));
    let other = NetAddr::V4 { ip: 0x0a00_0002, port: 1 };
    assert!(matches!(node.sync_on_packet(1, Packet::GetBlock(3), other, peer(), true), SyncStep::Ignore));
    assert!(matches!(node.sync_on_packet(1, Packet::GetBlock(3), peer(), peer(), true), SyncStep::Reply(_)));
    assert!(matches!(node.sync_on_packet(1, Packet::PostBlock(Some(b0), 1), peer(), peer(), true), SyncStep::Request(2)));
    assert!(matches!(node.sync_on_packet(2, Packet::PostBlock(None, 2), peer(), peer(), true), SyncStep::Done));
    assert_eq!(node.get_chain().block_count(), 2);
}

#[test]
fn test_known_block_and_wrong_height() {
    let mut node = Backend::new(register("GENESIS_BIKE", 250));
    let genesis_hash = node.get_chain().get_genesis_block().calc_hash();
    let b0 = mined(genesis_hash, register("A", 1));
    let b1 = mined(b0.calc_hash(), register("B", 2));
    assert!(matches!(node.handle_packet(Packet::PostBlock(Some(b0), 1), peer(), true), PacketOutcome::Send(_)));
    assert_eq!(node.get_chain().block_count(), 2);
    // A block already on the chain is ignored.
    let last = node.get_chain().get_last_block().duplicate();
    match node.handle_packet(Packet::PostBlock(Some(last), 1), peer(), true) {
        PacketOutcome::Send(v) => assert!(v.is_empty()),
        other => panic!("unexpected {:?}", other),
    }
    assert_eq!(node.get_chain().block_count(), 2);
    // A block placed at another height than the one it was posted for.
    match node.handle_packet(Packet::PostBlock(Some(b1), 7), peer(), true) {
        PacketOutcome::WrongHeight { claimed, height } => assert_eq!((claimed, height), (7, 2)),
        other => panic!("unexpected {:?}", other),
    }
    assert_eq!(node.get_chain().block_count(), 3);
}
