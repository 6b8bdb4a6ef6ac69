use pixel_rate::identity::caller_key;
use pixel_rate::store::RatingStore;
use pixel_rate::store::StoreError;

fn key(text: &str) -> Vec<u8> {
    text.as_bytes().to_vec()
}

#[test]
fn should_add_non_existing_element() {
    // The same calling identity the reference harness used: an account
    // whose ed25519 key pair is derived from thirty-two 0x07 bytes.
    let my_account: [u8; 32] = [7u8; 32];
    let secret_key = casper_types::SecretKey::ed25519_from_bytes(my_account).unwrap();
    let public_key = casper_types::PublicKey::from(&secret_key);
    let account_addr = casper_types::account::AccountHash::from(&public_key);
    let caller = caller_key(&account_addr.value().to_vec());

    let mut store = RatingStore::new();
    store.rate(&key("the-godfather"), &caller, 4).expect("rating should persist");

    let expected_output: u8 = 4;
    assert_eq!(
        store.get_rating(&key("the-godfather"), &caller),
        Some(expected_output),
        "Should have valid rating"
    );
}

#[test]
fn write_then_read_returns_written_rating() {
    let mut store = RatingStore::new();
    let caller = key("x-fingerprint");
    store.rate(&key("the-godfather"), &caller, 4).unwrap();
    assert_eq!(store.get_rating(&key("the-godfather"), &caller), Some(4));
}

#[test]
fn overwrite_keeps_only_second_rating() {
    let mut store = RatingStore::new();
    let caller = key("x-fingerprint");
    store.rate(&key("the-godfather"), &caller, 4).unwrap();
    store.rate(&key("the-godfather"), &caller, 9).unwrap();
    assert_eq!(store.get_rating(&key("the-godfather"), &caller), Some(9));
}

#[test]
fn distinct_callers_persist_independently() {
    let mut store = RatingStore::new();
    let x = key("caller-x");
    let y = key("caller-y");
    store.rate(&key("alien"), &x, 5).unwrap();
    store.rate(&key("alien"), &y, 1).unwrap();
    assert_eq!(store.get_rating(&key("alien"), &x), Some(5));
    assert_eq!(store.get_rating(&key("alien"), &y), Some(1));
}

#[test]
fn rating_one_entity_leaves_others_untouched() {
    let mut store = RatingStore::new();
    let caller = key("caller-x");
    store.rate(&key("alien"), &caller, 5).unwrap();
    store.rate(&key("aliens"), &caller, 2).unwrap();
    assert_eq!(store.get_rating(&key("alien"), &caller), Some(5));
    assert_eq!(store.get_rating(&key("aliens"), &caller), Some(2));
    assert_eq!(store.get_rating(&key("alien3"), &caller), None);
}

#[test]
fn entity_names_are_case_sensitive() {
    let mut store = RatingStore::new();
    let caller = key("caller-x");
    store.rate(&key("Alien"), &caller, 5).unwrap();
    assert_eq!(store.get_rating(&key("alien"), &caller), None);
    assert_eq!(store.get_rating(&key("Alien"), &caller), Some(5));
}

#[test]
fn first_write_binds_name_to_a_map() {
    let mut store = RatingStore::new();
    let caller = key("caller-x");
    assert_eq!(store.get_rating(&key("vertigo"), &caller), None);
    store.rate(&key("vertigo"), &caller, 7).unwrap();
    // The name now resolves to a per-caller map, not to a shared scalar.
    assert_eq!(store.get_shared_rating(&key("vertigo")), None);
    assert_eq!(store.get_rating(&key("vertigo"), &caller), Some(7));
    // Resolving again keeps the existing map.
    store.resolve_or_create(&key("vertigo")).unwrap();
    assert_eq!(store.get_rating(&key("vertigo"), &caller), Some(7));
}

#[test]
fn rate_aborts_where_name_is_bound_to_shared_slot() {
    let mut store = RatingStore::new();
    let caller = key("caller-x");
    store.rate_shared(&key("heat"), 3).unwrap();
    assert_eq!(
        store.rate(&key("heat"), &caller, 8),
        Err(StoreError::NamespaceTypeMismatch)
    );
    // The abort left no partial write.
    assert_eq!(store.get_shared_rating(&key("heat")), Some(3));
    assert_eq!(store.get_rating(&key("heat"), &caller), None);
}

#[test]
fn shared_rating_aborts_where_name_is_bound_to_map() {
    let mut store = RatingStore::new();
    let caller = key("caller-x");
    store.rate(&key("heat"), &caller, 8).unwrap();
    assert_eq!(store.rate_shared(&key("heat"), 3), Err(StoreError::NamespaceTypeMismatch));
    assert_eq!(store.get_rating(&key("heat"), &caller), Some(8));
    assert_eq!(store.get_shared_rating(&key("heat")), None);
}

#[test]
fn resolve_aborts_on_kind_mismatch() {
    let mut store = RatingStore::new();
    store.rate_shared(&key("heat"), 3).unwrap();
    assert_eq!(
        store.resolve_or_create(&key("heat")),
        Err(StoreError::NamespaceTypeMismatch)
    );
}

#[test]
fn shared_slot_keeps_last_write_globally() {
    let mut store = RatingStore::new();
    store.rate_shared(&key("heat"), 3).unwrap();
    store.rate_shared(&key("heat"), 250).unwrap();
    assert_eq!(store.get_shared_rating(&key("heat")), Some(250));
}

#[test]
fn ratings_span_the_whole_byte_domain() {
    let mut store = RatingStore::new();
    let caller = key("caller-x");
    store.rate(&key("m"), &caller, 0).unwrap();
    assert_eq!(store.get_rating(&key("m"), &caller), Some(0));
    store.rate(&key("m"), &caller, 255).unwrap();
    assert_eq!(store.get_rating(&key("m"), &caller), Some(255));
}

#[test]
fn caller_key_is_lower_hex_of_account_bytes() {
    assert_eq!(caller_key(&vec![0x00, 0x7f, 0xa5]), b"007fa5".to_vec());
    assert_eq!(caller_key(&vec![7u8; 4]), b"07070707".to_vec());
    assert_eq!(caller_key(&Vec::new()), Vec::<u8>::new());
}

#[test]
fn caller_keys_from_distinct_accounts_store_apart() {
    let mut store = RatingStore::new();
    let x = caller_key(&vec![0x01, 0x02]);
    let y = caller_key(&vec![0x01, 0x03]);
    store.rate(&key("alien"), &x, 5).unwrap();
    store.rate(&key("alien"), &y, 1).unwrap();
    assert_eq!(store.get_rating(&key("alien"), &x), Some(5));
    assert_eq!(store.get_rating(&key("alien"), &y), Some(1));
}

#[test]
fn rate_by_account_stores_under_hex_fingerprint() {
    let mut store = RatingStore::new();
    let account = vec![7u8; 4];
    store.rate_by_account(&key("the-godfather"), &account, 4).unwrap();
    // The rating sits under the account's lower-hex fingerprint, not under
    // the raw account bytes.
    assert_eq!(store.get_rating(&key("the-godfather"), &b"07070707".to_vec()), Some(4));
    assert_eq!(store.get_rating(&key("the-godfather"), &account), None);
}
