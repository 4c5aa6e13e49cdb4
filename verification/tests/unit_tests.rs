use eve_assets::bytes::{bytes_eq, i64_decimal, prefixed_i64};
use eve_assets::dbs::{CharacterAssetsDb, CharacterClient, CharacterManager, DynamicsDb};
use eve_assets::errors::{classify_status, should_retry_fetch, EsiError};
use eve_assets::ring::RingBuffer;
use eve_assets::table::Table;
use eve_assets::types::DynamicItem;

#[test]
fn decimal_rendering() {
    assert_eq!(i64_decimal(0), b"0".to_vec());
    assert_eq!(i64_decimal(42), b"42".to_vec());
    assert_eq!(i64_decimal(-42), b"-42".to_vec());
    assert_eq!(i64_decimal(9_007_199_254), b"9007199254".to_vec());
    assert_eq!(i64_decimal(i64::MIN), b"-9223372036854775808".to_vec());
    assert_eq!(
        prefixed_i64(b"Container_".to_vec(), 35),
        b"Container_35".to_vec()
    );
}

#[test]
fn byte_equality() {
    assert!(bytes_eq(&b"abc".to_vec(), &b"abc".to_vec()));
    assert!(!bytes_eq(&b"abc".to_vec(), &b"abd".to_vec()));
    assert!(!bytes_eq(&b"abc".to_vec(), &b"ab".to_vec()));
}

#[test]
fn ring_buffer_evicts_oldest() {
    let mut rb: RingBuffer<u32> = RingBuffer::with_capacity(3);
    rb.push(1);
    rb.push(2);
    rb.push(3);
    assert_eq!(rb.len(), 3);
    assert_eq!(rb.last(), Some(&3));
    rb.push(4);
    assert_eq!(rb.len(), 3);
    // 1 was evicted; order is oldest first
    assert_eq!(*rb.get(0), 2);
    assert_eq!(*rb.get(1), 3);
    assert_eq!(*rb.get(2), 4);
    rb.set_last(9);
    assert_eq!(rb.last(), Some(&9));
    let newest_first = rb.iter();
    assert_eq!(newest_first.len(), 3);
    assert_eq!(*newest_first[0], 9);
}

#[test]
fn table_insert_get_overwrite() {
    let mut t: Table<u32> = Table::new();
    assert_eq!(t.len(), 0);
    t.insert(5, 50);
    t.insert(6, 60);
    assert_eq!(t.get(5), Some(&50));
    assert_eq!(t.get(7), None);
    t.insert(5, 55);
    assert_eq!(t.len(), 2);
    assert_eq!(t.get(5), Some(&55));
    assert!(t.contains(6));
}

#[test]
fn error_classification_and_retry() {
    assert_eq!(classify_status(401), EsiError::AuthError);
    assert_eq!(classify_status(403), EsiError::AuthError);
    assert_eq!(classify_status(500), EsiError::ServerError);
    assert_eq!(classify_status(503), EsiError::ServerError);
    assert_eq!(classify_status(429), EsiError::ApiError { status: 429 });
    assert_eq!(classify_status(404), EsiError::ApiError { status: 404 });
    assert!(EsiError::ServerError.is_temporary());
    assert!(EsiError::ApiError { status: 429 }.is_temporary());
    assert!(EsiError::ApiError { status: 502 }.is_temporary());
    assert!(EsiError::ApiError { status: 503 }.is_temporary());
    assert!(!EsiError::ApiError { status: 404 }.is_temporary());
    assert!(!EsiError::AuthError.is_temporary());
    assert!(!EsiError::ParseError.is_temporary());
    assert!(EsiError::RequestError { timeout: true, connect: false }.is_temporary());
    assert!(!EsiError::RequestError { timeout: false, connect: false }.is_temporary());
    assert!(should_retry_fetch(&EsiError::ServerError, 0, 3));
    assert!(!should_retry_fetch(&EsiError::ServerError, 3, 3));
    assert!(!should_retry_fetch(&EsiError::ParseError, 0, 3));
}

fn tiny_dynamic() -> DynamicItem {
    DynamicItem {
        created_by: 1,
        dogma_attributes: Vec::new(),
        dogma_effects: Vec::new(),
        mutator_type_id: 200,
        source_type_id: 100,
    }
}

#[test]
fn dynamics_cache_and_store_clock() {
    let mut db = DynamicsDb::new(100);
    assert!(!db.contain((300, 1)));
    db.add((300, 1), tiny_dynamic(), 150);
    assert!(db.contain((300, 1)));
    assert_eq!(db.get((300, 1)).unwrap().source_type_id, 100);
    assert_eq!(db.len(), 1);
    // something changed since the last write: store, then nothing to do
    assert!(db.note_stored(160));
    assert!(!db.note_stored(170));
    assert_eq!(db.last_stored_at, 160);
}

#[test]
fn character_assets_db_clock() {
    let mut db = CharacterAssetsDb::new(Vec::new(), 100);
    assert!(!db.note_stored(110));
    db.mark_updated(120);
    assert!(db.note_stored(130));
    assert_eq!(db.last_stored_at, 130);
}

#[test]
fn character_manager_lookup() {
    let mut mgr = CharacterManager::new();
    assert!(mgr.get(7).is_none());
    mgr.add(CharacterClient::new(7, b"Pilot".to_vec(), b"token".to_vec()));
    let c = mgr.get(7).expect("added");
    assert_eq!(c.character_name, b"Pilot".to_vec());
    assert!(mgr.get(8).is_none());
}
