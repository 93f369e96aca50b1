use bikechain::blockchain::block::Block;
use bikechain::blockchain::hash;
use bikechain::blockchain::util::{make_timestamp, timestamp_or_epoch};

/// Test for the creation of a new block
#[test]
fn test_block_create() {
    let block = Block::<&str>::new(hash::EMPTY_HASH, "Hello");
    assert_eq!(block.get_nonce(), 0, "Nonce of newly created blocks must be 0");
    assert_eq!(*block.get_data(), "Hello");
}

/// Test the calculation of the hash for a block
#[test]
fn test_block_hash() {
    let block = Block::<&str>::new(hash::EMPTY_HASH, "World");
    assert_eq!(
        block.calc_hash(),
        block.calc_hash(),
        "Calculating the hash multiple times must produce the same hash value"
    );
}

/// Test timestamp
#[test]
fn test_block_timestamp() {
    let block_0 = Block::<&str>::new(hash::EMPTY_HASH, "a string");
    let block_1 = Block::<&str>::new(hash::EMPTY_HASH, "a string");
    assert!(block_0.get_timestamp() <= block_1.get_timestamp());
}

#[test]
fn test_block_parent_and_nonce() {
    let parent = Block::<&str>::new(hash::EMPTY_HASH, "parent");
    let mut child = Block::from_parent(&parent, "child");
    assert_eq!(*child.get_parent_hash(), parent.calc_hash());
    let h0 = child.calc_hash();
    child.inc_nonce();
    assert_eq!(child.get_nonce(), 1);
    assert_ne!(child.calc_hash(), h0, "the nonce is part of the hashed content");
    child.set_nonce(0);
    assert_eq!(child.calc_hash(), h0);
}

#[test]
fn test_hash_hex() {
    let mut h = hash::EMPTY_HASH;
    h[0] = 0xab;
    h[31] = 0x0f;
    let s = hash::hash_to_str(&h);
    assert_eq!(s.len(), 64);
    assert!(s.starts_with("ab00"));
    assert!(s.ends_with("0f"));
    assert!(!hash::hash_meets_difficulty(&h));
    h[31] = 0;
    h[30] = 0x30;
    assert!(hash::hash_meets_difficulty(&h));
    assert!(hash::hash_to_str(&h).ends_with("000"));
    h[30] = 0x31;
    assert!(!hash::hash_meets_difficulty(&h));
}

#[test]
fn test_obj_hash_known_value() {
    // SHA-256 of the empty string.
    let h = hash::obj_hash(&[]);
    assert_eq!(
        hash::hash_to_str(&h),
        "e3b0c44298fc1c149afbf4c8996fb92427ae41e4649b934ca495991b7852b855"
    );
}

/// Test serialization: a block written as JSON and read back is the same block
#[test]
fn test_block_serde() {
    let block = Block::<&str>::new(hash::EMPTY_HASH, "some str");

    let mut fields = serde_json::Map::new();
    let parent: Vec<serde_json::Value> =
        block.get_parent_hash().iter().map(|b| serde_json::Value::from(*b)).collect();
    fields.insert("parent".to_string(), serde_json::Value::Array(parent));
    fields.insert("timestamp".to_string(), serde_json::Value::from(block.get_timestamp()));
    fields.insert("rand_nonce".to_string(), serde_json::Value::from(block.get_rand_nonce()));
    fields.insert("nonce".to_string(), serde_json::Value::from(block.get_nonce()));
    fields.insert("data".to_string(), serde_json::Value::from(*block.get_data()));
    let ser = serde_json::to_string(&serde_json::Value::Object(fields)).unwrap();

    let v: serde_json::Value = serde_json::from_str(&ser).unwrap();
    let mut parent = hash::EMPTY_HASH;
    for (i, b) in v["parent"].as_array().unwrap().iter().enumerate() {
        parent[i] = b.as_u64().unwrap() as u8;
    }
    let de = Block::<&str>::from_parts(
        parent,
        v["timestamp"].as_u64().unwrap(),
        v["rand_nonce"].as_u64().unwrap(),
        v["nonce"].as_u64().unwrap(),
        v["data"].as_str().unwrap(),
    );
    assert_eq!(*de.get_parent_hash(), *block.get_parent_hash());
    assert_eq!(de.get_timestamp(), block.get_timestamp());
    assert_eq!(de.get_rand_nonce(), block.get_rand_nonce());
    assert_eq!(de.get_nonce(), block.get_nonce());
    assert_eq!(*de.get_data(), *block.get_data());
    assert_eq!(de.calc_hash(), block.calc_hash());
}

#[test]
fn test_timestamp_or_epoch() {
    assert_eq!(timestamp_or_epoch(Some(1_600_000_000)), 1_600_000_000);
    assert_eq!(timestamp_or_epoch(None), 0);
    let now = make_timestamp().expect("the clock reads after the epoch");
    assert!(now > 1_500_000_000);
}
