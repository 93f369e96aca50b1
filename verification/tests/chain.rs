//! The blockchain. The transactions carry keys and signatures of the right
//! lengths, and each push is told what the signature check answered: that
//! it passed, or, where the signature was tampered with, that it failed.

use bikechain::blockchain::block::Block;
use bikechain::blockchain::hash;
use bikechain::blockchain::proof_of_work;
use bikechain::blockchain::transaction::Transaction;
use bikechain::blockchain::Chain;

fn key(n: u8) -> Vec<u8> {
    vec![n; 32]
}

fn sig(n: u8) -> Vec<u8> {
    vec![n; 64]
}

fn register(id: &str, n: u8) -> Transaction {
    Transaction::from_details(format!("{}", id), 1_000 + n as u64, None, key(n), sig(n))
}

fn transfer(prev: &Transaction, n: u8) -> Transaction {
    let mut t = Transaction::make_transfer(prev, key(n));
    t.set_signature(sig(n));
    t
}

fn new_chain() -> Chain {
    Chain::new(register("GENESIS_BIKE", 250))
}

#[test]
fn test_create() {
    let chain = new_chain();
    assert_eq!(
        chain.block_count(),
        1,
        "Newly created blockchains should only contain the genesis block"
    );
}

#[test]
fn test_append() {
    let mut chain = new_chain();

    let t0 = register("SN1337BIKE", 1);
    let t1 = register("MYCOOLBIKE", 2);
    let t2 = transfer(&t0, 3);

    let block_0 = Block::new(chain.get_genesis_block().calc_hash(), t0);
    let block_1 = Block::new(block_0.calc_hash(), t1);
    let block_2 = Block::new(block_1.calc_hash(), t2);

    chain.push_ignore_hash(block_0, true).expect("Chain::push failure (0)");
    chain.push_ignore_hash(block_1, true).expect("Chain::push failure (1)");
    chain.push_ignore_hash(block_2, true).expect("Chain::push failure (2)");

    assert_eq!(
        chain.block_count(),
        4,
        "Blockchain should contain 4 blocks (+1 for genesis)"
    );
}

/// Test diverging chains
#[test]
fn test_diverging() {
    let mut chain = new_chain();

    let t0 = register("SN1337BIKE", 1);
    let t1 = register("MYCOOLBIKE", 2);
    let t2 = transfer(&t0, 3);
    let t3 = transfer(&t0, 4);

    let block_0 = Block::new(chain.get_genesis_block().calc_hash(), t0);
    let block_1 = Block::new(block_0.calc_hash(), t1);
    let block_2 = Block::new(block_0.calc_hash(), t2);
    let block_3 = Block::new(block_1.calc_hash(), t3);

    chain.push_ignore_hash(block_0, true).expect("Chain::push failure (0)");
    chain.push_ignore_hash(block_1, true).expect("Chain::push failure (1)");
    chain.push_ignore_hash(block_2, true).expect("Chain::push failure (2)");
    chain.push_ignore_hash(block_3, true).expect("Chain::push failure (3)");
}

#[test]
fn test_complex_chain() {
    let mut chain = new_chain();

    let t0 = register("SN1337BIKE", 1);
    let t1 = transfer(&t0, 2);
    let t2 = register("MYCOOLBIKE", 3);
    let t3 = transfer(&t2, 4);
    let t4 = register("WOW_BIKE_WOW", 5);
    let t5 = transfer(&t4, 6);
    let t6 = transfer(&t1, 7);
    let t7 = transfer(&t5, 8);
    let t8 = transfer(&t3, 9);
    let t9 = transfer(&t6, 10);
    let t10 = transfer(&t9, 11);

    let block_0 = Block::new(chain.get_genesis_block().calc_hash(), t0);
    let block_1 = Block::new(block_0.calc_hash(), t1);
    let block_2 = Block::new(block_1.calc_hash(), t2);
    let block_3 = Block::new(block_2.calc_hash(), t3);
    let block_4 = Block::new(block_3.calc_hash(), t4);
    let block_5 = Block::new(block_4.calc_hash(), t5);
    let block_6 = Block::new(block_5.calc_hash(), t6);
    let block_7 = Block::new(block_6.calc_hash(), t7);
    let block_8 = Block::new(block_7.calc_hash(), t8);
    let block_9 = Block::new(block_8.calc_hash(), t9);
    let block_10 = Block::new(block_9.calc_hash(), t10);

    chain.push_ignore_hash(block_0, true).expect("Chain::push failure (0)");
    chain.push_ignore_hash(block_1, true).expect("Chain::push failure (1)");
    chain.push_ignore_hash(block_2, true).expect("Chain::push failure (2)");
    chain.push_ignore_hash(block_3, true).expect("Chain::push failure (3)");
    chain.push_ignore_hash(block_4, true).expect("Chain::push failure (4)");
    chain.push_ignore_hash(block_5, true).expect("Chain::push failure (5)");
    chain.push_ignore_hash(block_6, true).expect("Chain::push failure (6)");
    chain.push_ignore_hash(block_7, true).expect("Chain::push failure (7)");
    chain.push_ignore_hash(block_8, true).expect("Chain::push failure (8)");
    chain.push_ignore_hash(block_9, true).expect("Chain::push failure (9)");
    chain.push_ignore_hash(block_10, true).expect("Chain::push failure (10)");
}

#[test]
#[should_panic(expected = "Chain::push failure (1): BadParent")]
fn test_invalid_parent() {
    let mut chain = new_chain();

    let t0 = register("SN1337BIKE", 1);
    let t1 = register("MYCOOLBIKE", 2);

    let block_0 = Block::new(chain.get_genesis_block().calc_hash(), t0);
    let block_1 = Block::new(hash::EMPTY_HASH, t1);

    chain.push_ignore_hash(block_0, true).expect("Chain::push failure (0)");
    chain.push_ignore_hash(block_1, true).expect("Chain::push failure (1)");
}

/// Duplicate IDs of registrations are not allowed.
#[test]
#[should_panic(expected = "Chain::push failure (1): NonUniqueTransactionID")]
fn test_append_dup_id() {
    let mut chain = new_chain();

    let t0 = register("SN1337BIKE", 1);
    let t1 = register("SN1337BIKE", 2);

    let block_0 = Block::new(chain.get_genesis_block().calc_hash(), t0);
    let block_1 = Block::new(block_0.calc_hash(), t1);

    chain.push_ignore_hash(block_0, true).expect("Chain::push failure (0)");
    chain.push_ignore_hash(block_1, true).expect("Chain::push failure (1)");
}

/// A tampered transaction fails its signature check.
#[test]
#[should_panic(
    expected = "Chain::push failure: BadTransaction(\"content does not match the signature\")"
)]
fn test_invalid_transaction() {
    let mut chain = new_chain();

    let mut t0 = register("SN1337BIKE", 1);
    t0.set_id("MYCOOLBIKE");

    let block_0 = Block::new(chain.get_genesis_block().calc_hash(), t0);

    // The signature no longer matches the content.
    chain.push_ignore_hash(block_0, false).expect("Chain::push failure");
}

#[test]
fn test_query_id() {
    let mut chain = new_chain();

    let t0 = register("SN1337BIKE", 1);
    let t1 = register("MYCOOLBIKE", 2);
    let t2 = transfer(&t0, 3);
    let t3 = transfer(&t2, 4);

    let block_0 = Block::new(chain.get_genesis_block().calc_hash(), t0);
    let block_1 = Block::new(block_0.calc_hash(), t1);
    let block_2 = Block::new(block_1.calc_hash(), t2);
    let block_3 = Block::new(block_2.calc_hash(), t3);

    chain.push_ignore_hash(block_0, true).expect("Chain::push failure (0)");
    chain.push_ignore_hash(block_1, true).expect("Chain::push failure (1)");
    chain.push_ignore_hash(block_2, true).expect("Chain::push failure (2)");
    chain.push_ignore_hash(block_3, true).expect("Chain::push failure (3)");

    let q_id = "SN1337BIKE";
    let q = chain.get_blocks_for_id(q_id);
    assert_eq!(q.len(), 3, "Three blocks should match the ID");
    assert_eq!(q.iter().all(|b| b.get_data().get_id() == q_id), true);
}

#[test]
fn test_query_pub_key() {
    let mut chain = new_chain();

    let t0 = register("SN1337BIKE", 1);
    let pub_key = t0.get_public_key_output().clone();
    let t1 = register("MYCOOLBIKE", 2);
    let t2 = transfer(&t0, 3);
    let t3 = transfer(&t2, 4);

    let block_0 = Block::new(chain.get_genesis_block().calc_hash(), t0);
    let block_1 = Block::new(block_0.calc_hash(), t1);
    let block_2 = Block::new(block_1.calc_hash(), t2);
    let block_3 = Block::new(block_2.calc_hash(), t3);

    chain.push_ignore_hash(block_0, true).expect("Chain::push failure (0)");
    chain.push_ignore_hash(block_1, true).expect("Chain::push failure (1)");
    chain.push_ignore_hash(block_2, true).expect("Chain::push failure (2)");
    chain.push_ignore_hash(block_3, true).expect("Chain::push failure (3)");

    let q = chain.get_blocks_for_pub_key(&pub_key);
    assert_eq!(q.len(), 2, "The two blocks between which the ownership of the bike is first transferred should be found");
}

#[test]
fn test_mine() {
    let mut chain = new_chain();

    let t0 = register("SN1337BIKE", 1);
    let t1 = transfer(&t0, 2);
    let t2 = transfer(&t1, 3);

    for (n, t) in vec![t0, t1, t2].into_iter().enumerate() {
        let block = chain.mine(t).expect("some nonce gives a hash that meets the difficulty");
        let hash = hash::hash_to_str(&block.calc_hash());
        assert!(hash.ends_with("000"), "Hash must end with \"000\" (was: \"{}\")", hash);
        let height = chain.push(block, true).expect("Chain::push failure (0)");
        assert_eq!(height, n + 1);
    }
    assert_eq!(chain.get_longest_chain().len(), 4);
}

#[test]
#[should_panic(expected = "Chain::push failure: BadHash")]
fn test_bad_hash() {
    let mut chain = new_chain();

    let t0 = register("SN1337BIKE", 1);

    let mut block = Block::new(chain.get_genesis_block().calc_hash(), t0);
    while hash::hash_to_str(&block.calc_hash()).ends_with("000") {
        block.inc_nonce();
    }

    chain.push(block, true).expect("Chain::push failure");
}

#[test]
fn test_transfer_from_stale_owner_is_refused() {
    let mut chain = new_chain();
    let t0 = register("SN1337BIKE", 1);
    let t1 = transfer(&t0, 2);
    let t2 = transfer(&t0, 3);
    let b0 = Block::new(chain.get_genesis_block().calc_hash(), t0);
    let b1 = Block::new(b0.calc_hash(), t1);
    let b2 = Block::new(b1.calc_hash(), t2);
    chain.push_ignore_hash(b0, true).unwrap();
    chain.push_ignore_hash(b1, true).unwrap();
    let err = chain.push_ignore_hash(b2, true).unwrap_err();
    assert_eq!(
        format!("{:?}", err),
        "BadTransaction(\"Transaction input referes to a transaction that is not the latest\")"
    );
    assert_eq!(chain.block_count(), 3, "a refused block leaves the chain as it was");
}

#[test]
fn test_transfer_without_owner_is_refused() {
    let mut chain = new_chain();
    let t0 = register("SN1337BIKE", 1);
    let stranger = register("OTHERBIKE", 9);
    let mut t1 = Transaction::make_transfer(&stranger, key(2));
    t1.set_id("SN1337BIKE-NEW");
    t1.set_signature(sig(2));
    let b0 = Block::new(chain.get_genesis_block().calc_hash(), t0);
    let b1 = Block::new(b0.calc_hash(), t1);
    chain.push_ignore_hash(b0, true).unwrap();
    let err = chain.push_ignore_hash(b1, true).unwrap_err();
    assert_eq!(
        format!("{:?}", err),
        "BadTransaction(\"Transaction input refers to a transaction that does not exist in any previous block\")"
    );
}

#[test]
fn test_longest_chain_is_linked() {
    let mut chain = new_chain();
    let t0 = register("A", 1);
    let t1 = register("B", 2);
    let t2 = register("C", 3);
    let b0 = Block::new(chain.get_genesis_block().calc_hash(), t0);
    let b1 = Block::new(b0.calc_hash(), t1);
    let b2 = Block::new(b0.calc_hash(), t2);
    chain.push_ignore_hash(b0, true).unwrap();
    assert_eq!(chain.push_ignore_hash(b1, true).unwrap(), 2);
    assert_eq!(chain.push_ignore_hash(b2, true).unwrap(), 2);
    assert_eq!(chain.block_count(), 4);
    let longest = chain.get_longest_chain();
    assert_eq!(longest.len(), 3);
    assert_eq!(longest[0].calc_hash(), chain.get_genesis_block().calc_hash());
    for w in longest.windows(2) {
        assert_eq!(*w[1].get_parent_hash(), w[0].calc_hash());
    }
    assert_eq!(chain.get_last_block().get_data().get_id(), "B");
}

#[test]
fn test_could_push_agrees_with_push() {
    let mut chain = new_chain();
    let t0 = register("A", 1);
    let b0 = Block::new(chain.get_genesis_block().calc_hash(), t0);
    assert!(chain.could_push(&b0, true, true).is_ok());
    assert!(chain.could_push(&b0, true, false).is_err());
    let b_orphan = Block::new(hash::EMPTY_HASH, register("B", 2));
    assert_eq!(format!("{:?}", chain.could_push(&b_orphan, true, true)), "Err(BadParent)");
    chain.push_ignore_hash(b0, true).unwrap();
}

#[test]
fn test_transaction_parent_block_and_dot() {
    let mut chain = new_chain();
    let t0 = register("SN1337BIKE", 1);
    let t1 = transfer(&t0, 2);
    let b0 = Block::new(chain.get_genesis_block().calc_hash(), t0);
    let b1 = Block::new(b0.calc_hash(), t1);
    let h0 = hash::hash_to_str(&b0.calc_hash());
    let h1 = hash::hash_to_str(&b1.calc_hash());
    chain.push_ignore_hash(b0, true).unwrap();
    chain.push_ignore_hash(b1, true).unwrap();
    let last = chain.get_last_block();
    let p = chain.get_transaction_parent_block(last).expect("the transfer has a parent block");
    assert_eq!(hash::hash_to_str(&p.calc_hash()), h0);
    let dot = chain.dot_graph("SN1337BIKE");
    assert!(dot.starts_with("digraph Blockchain {\n"));
    assert!(dot.ends_with("}"));
    assert!(dot.contains(&format!("\t\"{}\" -> \"{}\";\n", h0, h1)));
    assert!(dot.contains(&format!("\t\"{}\" -> \"{}\" [color=blue, style=dotted];\n", h0, h1)));
    assert!(dot.contains(&format!("\t\"{}\"[label=\"{}...\\nID: SN1337BIKE\", shape=box, color=red];\n", h1, &h1[0..6])));
    let plain = chain.dot_graph("");
    assert!(plain.contains(&format!("\t\"{}\"[label=\"{}...\\nID: SN1337BIKE\", shape=box, color=black];\n", h1, &h1[0..6])));
    assert!(plain.contains(&format!("\t\"{}\"[label=\"{}...\\nID: SN1337BIKE\", shape=box, color=blue];\n", h0, &h0[0..6])));
}

#[test]
fn test_proof_of_work_finds_first_nonce() {
    let start = Block::from_parts(hash::EMPTY_HASH, 5, 9, 0, register("SN1337BIKE", 1));
    let found = proof_of_work(start).expect("some nonce works");
    assert!(hash::hash_meets_difficulty(&found.calc_hash()));
    assert_eq!(found.get_timestamp(), 5);
    assert_eq!(found.get_rand_nonce(), 9);
    for n in 0..found.get_nonce() {
        let b = Block::from_parts(hash::EMPTY_HASH, 5, 9, n, register("SN1337BIKE", 1));
        assert!(!hash::hash_meets_difficulty(&b.calc_hash()), "no smaller nonce works");
    }
    // Starting from the nonce found gives the same block back.
    let again = Block::from_parts(hash::EMPTY_HASH, 5, 9, found.get_nonce(), register("SN1337BIKE", 1));
    assert_eq!(proof_of_work(again).unwrap().get_nonce(), found.get_nonce());
}
