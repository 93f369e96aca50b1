use bikechain::blockchain::block::Block;
use bikechain::blockchain::hash;
use bikechain::blockchain::miner::{Miner, PushResult};
use bikechain::blockchain::transaction::Transaction;
use bikechain::blockchain::Chain;

fn register(id: &str, n: u8) -> Transaction {
    Transaction::from_details(format!("{}", id), 1, None, vec![n; 32], vec![n; 64])
}

fn new_chain() -> Chain {
    Chain::new(register("GENESIS_BIKE", 250))
}

#[test]
fn test_miner_queues_once() {
    let chain = new_chain();
    let mut miner = Miner::new();
    let t = register("SN1337BIKE", 1);
    assert!(matches!(miner.push_transaction(&chain, t.duplicate(), true), PushResult::Added));
    assert!(matches!(miner.push_transaction(&chain, t.duplicate(), true), PushResult::Ignored));
    let dup_id = register("GENESIS_BIKE", 2);
    assert!(matches!(
        miner.push_transaction(&chain, dup_id, true),
        PushResult::Invalid(bikechain::blockchain::ChainErr::NonUniqueTransactionID)
    ));
    let bad = register("OTHER", 3);
    assert!(matches!(miner.push_transaction(&chain, bad, false), PushResult::Invalid(_)));
}

#[test]
fn test_miner_mines_queued_transaction() {
    let mut chain = new_chain();
    let mut miner = Miner::new();
    assert!(miner.mine(&chain).is_none(), "nothing to mine");
    assert!(!miner.is_mining());
    let t = register("SN1337BIKE", 1);
    miner.push_transaction(&chain, t, true);
    let mut rounds = 0u32;
    let block = loop {
        rounds += 1;
        if let Some(b) = miner.mine(&chain) {
            break b;
        }
        assert!(miner.is_mining());
    };
    assert!(rounds >= 1);
    assert!(!miner.is_mining());
    assert!(hash::hash_meets_difficulty(&block.calc_hash()));
    assert_eq!(block.get_data().get_id(), "SN1337BIKE");
    assert_eq!(*block.get_parent_hash(), chain.get_last_block().calc_hash());
    chain.push(block, true).expect("a mined block fits");
    assert_eq!(chain.block_count(), 2);
}

#[test]
fn test_miner_forgets_received_transaction() {
    let chain = new_chain();
    let mut miner = Miner::new();
    let t1 = register("A", 1);
    let t2 = register("B", 2);
    miner.push_transaction(&chain, t1.duplicate(), true);
    miner.push_transaction(&chain, t2.duplicate(), true);
    let block = Block::new(chain.get_last_block().calc_hash(), t2.duplicate());
    miner.on_block_recv(&block);
    // B was dropped: pushing it again queues it again.
    assert!(matches!(miner.push_transaction(&chain, t2.duplicate(), true), PushResult::Added));
    // A is still queued.
    assert!(matches!(miner.push_transaction(&chain, t1.duplicate(), true), PushResult::Ignored));
}
