use protocol_store::error::ProtocolError;
use protocol_store::sqlite::SqliteProtocolStore;

#[test]
fn next_ids_follow_the_highest() {
    let store = SqliteProtocolStore::new("aci");
    assert_eq!(store.next_pre_key_id(Ok(None)), Ok(0));
    assert_eq!(store.next_pre_key_id(Ok(Some(41))), Ok(42));
    assert_eq!(store.next_signed_pre_key_id(Ok(Some(0))), Ok(1));
    assert_eq!(store.next_pre_key_id(Ok(Some(1i64 << 32))), Ok(1));
    assert_eq!(store.next_pq_pre_key_id(Ok(Some(9))), Ok(10));
    assert_eq!(store.next_pq_pre_key_id(Ok(None)), Ok(0));
    assert_eq!(
        store.next_pq_pre_key_id(Err("no such table".to_string())),
        Err(ProtocolError::Database("no such table".to_string()))
    );
}

#[test]
fn counts_and_rows() {
    let store = SqliteProtocolStore::new("pni");
    assert_eq!(store.identity_type(), "pni");
    assert_eq!(store.signed_pre_keys_count(Ok(5)), Ok(5));
    assert_eq!(store.kyber_pre_keys_count(true, Ok(2)), Ok(2));
    assert_eq!(store.kyber_pre_keys_count(false, Ok(2)), Ok(2));
    let row = store.key_row(3, b"record");
    assert_eq!((row.id, row.record.clone(), row.is_last_resort, row.identity), (3, b"record".to_vec(), false, "pni"));
    let last = store.last_resort_key_row(4, b"last");
    assert_eq!((last.id, last.is_last_resort, last.identity), (4, true, "pni"));
}

#[test]
fn query_outcomes() {
    let store = SqliteProtocolStore::new("aci");
    assert_eq!(store.record_from_query(Ok(vec![1, 2])), Ok(vec![1, 2]));
    assert_eq!(
        store.record_from_query(Err("row not found".to_string())),
        Err(ProtocolError::Database("row not found".to_string()))
    );
    assert_eq!(store.write_outcome(Ok(())), Ok(()));
    assert_eq!(
        store.write_outcome(Err("constraint".to_string())),
        Err(ProtocolError::Database("constraint".to_string()))
    );
    assert_eq!(store.last_resort_records(Ok(vec![vec![1]])), Ok(vec![vec![1]]));
}
