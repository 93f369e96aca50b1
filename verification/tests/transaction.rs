use bikechain::blockchain::hash::Hashable;
use bikechain::blockchain::transaction::{buf_to_str, Transaction};

fn register(id: &str, n: u8) -> Transaction {
    Transaction::from_details(format!("{}", id), 7, None, vec![n; 32], vec![n; 64])
}

fn transfer(prev: &Transaction, n: u8) -> Transaction {
    let mut t = Transaction::make_transfer(prev, vec![n; 32]);
    t.set_signature(vec![n; 64]);
    t
}

#[test]
fn test_verify_is_next() {
    // T0 - the first "register" transaction
    let t0 = register("SN1337BIKE", 1);
    assert_eq!(t0.verify(true), Ok(()));

    // T1 - the second "transfer" transaction
    let t1 = transfer(&t0, 2);
    assert_eq!(t1.verify(true), Ok(()));
    assert_eq!(t1.verify_is_next(&t0, true), true);

    // T2 - the third "transfer" transaction
    let t2 = transfer(&t1, 3);
    assert_eq!(t2.verify(true), Ok(()));
    assert_eq!(t2.verify_is_next(&t1, true), true);
    assert_eq!(t2.verify_is_next(&t0, true), false);
    assert_eq!(t2.verify_is_next(&t1, false), false);
}

#[test]
fn test_verify_errors() {
    let bad_key = Transaction::from_details(format!("X"), 0, None, vec![1; 31], vec![1; 64]);
    assert_eq!(bad_key.verify(true), Err(format!("could not create public key from input")));
    let bad_sig = Transaction::from_details(format!("X"), 0, None, vec![1; 32], vec![1; 63]);
    assert_eq!(bad_sig.verify(true), Err(format!("signature has invalid format")));
    let good = register("X", 1);
    assert_eq!(good.verify(false), Err(format!("content does not match the signature")));
    let transfer_bad_input = Transaction::from_details(format!("X"), 0, Some(vec![1; 5]), vec![1; 32], vec![1; 64]);
    assert_eq!(transfer_bad_input.verify(true), Err(format!("could not create public key from input")));
    assert_eq!(transfer_bad_input.verification_key(), &vec![1u8; 5]);
}

#[test]
fn test_content_bytes() {
    let t = Transaction::from_details(format!("AB"), 0x0102, Some(vec![9, 9]), vec![7], vec![]);
    assert_eq!(
        t.content_to_u8(),
        vec![b'A', b'B', 0x02, 0x01, 0, 0, 0, 0, 0, 0, 9, 9, 7]
    );
    let r = Transaction::from_details(format!("é"), 1, None, vec![5], vec![]);
    assert_eq!(r.content_to_u8(), vec![0xc3, 0xa9, 1, 0, 0, 0, 0, 0, 0, 0, 5]);
}

#[test]
fn test_buf_to_str() {
    assert_eq!(buf_to_str(&vec![0x00, 0x0f, 0xa0, 0xff]), "000fa0ff");
    assert_eq!(buf_to_str(&vec![]), "");
}

#[test]
fn test_transfer_and_getters() {
    let t0 = register("SN1337BIKE", 1);
    let t1 = Transaction::make_transfer(&t0, vec![2; 32]);
    assert_eq!(t1.get_id(), "SN1337BIKE");
    assert_eq!(t1.get_public_key_input(), &Some(vec![1u8; 32]));
    assert_eq!(t1.get_public_key_output(), &vec![2u8; 32]);
    assert!(t1.get_signature().is_empty());
    assert!(t1.has_input());
    assert!(!t0.has_input());
    assert_eq!(t0.get_timestamp(), 7);
    let g = Transaction::make_genesis_unsigned(vec![3; 32]);
    assert_eq!(g.get_id(), "GENESIS");
    assert_eq!(g.get_timestamp(), 0);
    let n = Transaction::new(format!("N"), None, vec![4; 32]);
    assert!(n.get_signature().is_empty());
    assert!(n.get_timestamp() > 1_500_000_000, "stamped with the current time");
}

#[test]
fn test_transaction_hash_is_signature_hash() {
    let a = register("A", 1);
    let mut b = register("B", 1);
    assert!(a.same_as(&b));
    assert_eq!(a.calc_hash(), b.calc_hash(), "the hash covers the signature only");
    b.set_signature(vec![2; 64]);
    assert!(!a.same_as(&b));
    assert_ne!(a.calc_hash(), b.calc_hash());
    let c = a.duplicate();
    assert!(c.same_as(&a));
    assert_eq!(c.get_id(), a.get_id());
}

#[test]
fn test_describe() {
    let t = Transaction::from_details(format!("SN1"), 1234567890, None, vec![0xab, 0x01], vec![0xff]);
    assert_eq!(
        t.describe(),
        "Transaction:{ id: SN1, timestamp: 1234567890, public_key_input: \"None\", \
         public_key_output: \"ab01\", signature: \"ff\" }"
    );
    let u = Transaction::from_details(format!("X"), 0, Some(vec![0x10]), vec![], vec![]);
    assert_eq!(
        u.describe(),
        "Transaction:{ id: X, timestamp: 0, public_key_input: \"10\", \
         public_key_output: \"\", signature: \"\" }"
    );
}

/// The outcome of the Ed25519 check of the signature is the input: true for
/// the signed content, false once the content was tampered with.
#[test]
fn test_sign_verify() {
    // make a transaction, sign it and verify
    let mut t = register("SN1337BIKE", 1);
    t.set_signature(vec![5; 64]);
    assert_eq!(t.verify(true), Ok(()));

    // tamper with the transaction content
    let id = format!("{}1", t.get_id());
    t.set_id(&id);
    assert_ne!(t.verify(false), Ok(()));
}
