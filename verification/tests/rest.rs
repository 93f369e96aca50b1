use bikechain::rest::server::{
    assemble_transaction, json_transaction_to_transaction, query_status, transaction_from_json,
    transaction_query,
    transaction_to_json_transaction, JsonTxFields, TxQuery,
};
use bikechain::blockchain::transaction::Transaction;

fn fields() -> JsonTxFields {
    JsonTxFields {
        id: Some(format!("SN1337BIKE")),
        timestamp: Some(42),
        public_key_input: None,
        public_key_output: Some(format!("AQID")),
        signature: Some(format!("BAUG")),
    }
}

#[test]
fn test_json_to_transaction() {
    let t = json_transaction_to_transaction(fields()).expect("well-formed fields");
    assert_eq!(t.get_id(), "SN1337BIKE");
    assert_eq!(t.get_timestamp(), 42);
    assert_eq!(t.get_public_key_output(), &vec![1u8, 2, 3]);
    assert_eq!(t.get_signature(), &vec![4u8, 5, 6]);
    assert!(!t.has_input());
}

#[test]
fn test_json_errors() {
    let mut f = fields();
    f.id = None;
    assert_eq!(json_transaction_to_transaction(f).err().unwrap(), "Could not parse id as String");
    let mut f = fields();
    f.timestamp = None;
    assert_eq!(json_transaction_to_transaction(f).err().unwrap(), "Could not parse id as u64");
    let mut f = fields();
    f.public_key_output = None;
    assert_eq!(json_transaction_to_transaction(f).err().unwrap(), "Could not parse publicKeyOutput as String");
    let mut f = fields();
    f.signature = None;
    assert_eq!(json_transaction_to_transaction(f).err().unwrap(), "Could not parse signature as String");
    let mut f = fields();
    f.public_key_input = Some(format!("!!!!"));
    let e = json_transaction_to_transaction(f).err().unwrap();
    assert!(e.starts_with("Could not decode publicKeyInput from base64 with error: "), "{}", e);
    let mut f = fields();
    f.signature = Some(format!("A"));
    let e = json_transaction_to_transaction(f).err().unwrap();
    assert!(e.starts_with("Could not decode signature from base64 with error: "), "{}", e);
}

#[test]
fn test_assemble_transaction() {
    let r = assemble_transaction(
        Some(format!("X")),
        Some(1),
        Some(Err(format!("bad"))),
        Some(Ok(vec![1])),
        Some(Ok(vec![2])),
    );
    assert_eq!(r.err().unwrap(), "Could not decode publicKeyInput from base64 with error: bad");
    let r = assemble_transaction(Some(format!("X")), Some(1), Some(Ok(vec![9])), Some(Ok(vec![1])), Some(Ok(vec![2])));
    let t = r.unwrap();
    assert_eq!(t.get_public_key_input(), &Some(vec![9u8]));
}

#[test]
fn test_transaction_to_json_fields() {
    let t = Transaction::from_details(format!("ID"), 3, Some(vec![0xff]), vec![1, 2, 3], vec![]);
    let j = transaction_to_json_transaction(&t);
    assert_eq!(j.id, "ID");
    assert_eq!(j.timestamp, 3);
    assert_eq!(j.public_key_input, Some(format!("/w==")));
    assert_eq!(j.public_key_output, "AQID");
    assert_eq!(j.signature, "");
}

#[test]
fn test_transaction_query() {
    match transaction_query(Some(format!("ID")), None, Some(3), None).unwrap() {
        TxQuery::ById { id, limit, skip } => {
            assert_eq!(id, "ID");
            assert_eq!(limit, 3);
            assert_eq!(skip, 0);
        }
        other => panic!("unexpected {:?}", other),
    }
    match transaction_query(None, Some(format!("AQID")), None, Some(2)).unwrap() {
        TxQuery::ByKey { key, limit, skip } => {
            assert_eq!(key, vec![1, 2, 3]);
            assert_eq!(limit, usize::MAX);
            assert_eq!(skip, 2);
        }
        other => panic!("unexpected {:?}", other),
    }
    let e = transaction_query(None, Some(format!("#")), None, None).unwrap_err();
    assert_eq!((e.code, e.reason), (400, "Could not decode signature from base64"));
    let e = transaction_query(Some(format!("a")), Some(format!("AQID")), None, None).unwrap_err();
    assert_eq!((e.code, e.reason), (400, "info request has both public key and id, can only have one."));
    let e = transaction_query(None, None, None, None).unwrap_err();
    assert_eq!((e.code, e.reason), (400, "info request has no public key or id, must have one"));
    let e = query_status(0).unwrap();
    assert_eq!((e.code, e.reason), (401, "No transaction found for the given information"));
    assert!(query_status(2).is_none());
}

#[test]
fn test_transaction_from_json_text() {
    let body = r#"{"id":"SN1337BIKE","timestamp":42,"publicKeyInput":null,"publicKeyOutput":"AQID","signature":"BAUG"}"#;
    let t = transaction_from_json(body).expect("well-formed text");
    assert_eq!(t.get_id(), "SN1337BIKE");
    assert_eq!(t.get_timestamp(), 42);
    assert!(!t.has_input());
    assert_eq!(t.get_public_key_output(), &vec![1u8, 2, 3]);
    assert_eq!(t.get_signature(), &vec![4u8, 5, 6]);

    let e = transaction_from_json("not json").err().unwrap();
    assert!(e.contains("line 1"), "{}", e);

    let e = transaction_from_json(r#"{"id":7,"timestamp":1}"#).err().unwrap();
    assert_eq!(e, "Could not parse id as String");
    let e = transaction_from_json(r#"{"id":"X","timestamp":"1"}"#).err().unwrap();
    assert_eq!(e, "Could not parse id as u64");
}

#[test]
fn test_json_round_trip() {
    let t = Transaction::from_details(format!("ID"), 3, Some(vec![0xff, 0]), vec![1, 2, 3, 4], vec![9; 64]);
    let j = transaction_to_json_transaction(&t);
    let f = JsonTxFields {
        id: Some(j.id),
        timestamp: Some(j.timestamp),
        public_key_input: j.public_key_input,
        public_key_output: Some(j.public_key_output),
        signature: Some(j.signature),
    };
    let u = json_transaction_to_transaction(f).unwrap();
    assert_eq!(u.get_id(), t.get_id());
    assert_eq!(u.get_timestamp(), t.get_timestamp());
    assert_eq!(u.get_public_key_input(), t.get_public_key_input());
    assert_eq!(u.get_public_key_output(), t.get_public_key_output());
    assert_eq!(u.get_signature(), t.get_signature());
}
