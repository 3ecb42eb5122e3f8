use shortner::idgen::ID_LEN;
use shortner::store::Store;

fn is_id_byte(b: u8) -> bool {
    b.is_ascii_alphanumeric() || b == b'_' || b == b'-'
}

#[test]
fn lookup_or_create_returns_fresh_id() {
    let mut store = Store::new();
    let id = store.lookup_or_create(b"https://example.com");
    assert_eq!(id.len(), ID_LEN);
    assert!(id.iter().all(|&b| is_id_byte(b)));
    assert_eq!(store.len(), 1);
}

#[test]
fn lookup_or_create_is_idempotent() {
    let mut store = Store::new();
    let first = store.lookup_or_create(b"https://example.com");
    let second = store.lookup_or_create(b"https://example.com");
    assert_eq!(first, second);
    assert_eq!(store.len(), 1);
}

#[test]
fn round_trip_resolves_to_original_link() {
    let mut store = Store::new();
    let id = store.lookup_or_create(b"https://example.com/some/page");
    let link = store.resolve(&id).expect("freshly issued id must resolve");
    assert_eq!(link, b"https://example.com/some/page".to_vec());
}

#[test]
fn distinct_links_get_their_own_rows() {
    let mut store = Store::new();
    let id_a = store.lookup_or_create(b"https://a.example");
    let id_b = store.lookup_or_create(b"https://b.example");
    assert_eq!(store.len(), 2);
    assert_eq!(store.resolve(&id_a).unwrap(), b"https://a.example".to_vec());
    assert_eq!(store.resolve(&id_b).unwrap(), b"https://b.example".to_vec());
}

#[test]
fn unknown_id_resolves_to_none() {
    let store = Store::new();
    assert!(store.resolve(b"doesNotExist").is_none());
}

#[test]
fn unknown_id_resolves_to_none_in_nonempty_store() {
    let mut store = Store::new();
    store.lookup_or_create(b"https://example.com");
    assert!(store.resolve(b"zzzz-not-issued").is_none());
}

#[test]
fn insert_records_a_persisted_row() {
    let mut store = Store::new();
    assert!(store.insert(b"https://example.com", b"abcd"));
    assert_eq!(store.len(), 1);
    assert_eq!(store.resolve(b"abcd").unwrap(), b"https://example.com".to_vec());
    let id = store.lookup_or_create(b"https://example.com");
    assert_eq!(id, b"abcd".to_vec());
}

#[test]
fn insert_leaves_a_known_link_untouched() {
    let mut store = Store::new();
    assert!(store.insert(b"https://example.com", b"abcd"));
    assert!(!store.insert(b"https://example.com", b"wxyz"));
    assert_eq!(store.len(), 1);
    assert_eq!(store.resolve(b"abcd").unwrap(), b"https://example.com".to_vec());
}

#[test]
fn get_row_returns_the_stored_pair() {
    let mut store = Store::new();
    let id = store.lookup_or_create(b"https://example.com");
    let (link, row_id) = store.get_row(0);
    assert_eq!(link, b"https://example.com".to_vec());
    assert_eq!(row_id, id);
}
