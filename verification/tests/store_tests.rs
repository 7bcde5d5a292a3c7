use pagestore::gate::AuthError;
use pagestore::is_expired;
use pagestore::service::handle_upload;
use pagestore::service::Config;
use pagestore::service::UploadOutcome;
use pagestore::service::DEFAULT_PAYLOAD_CAP_BYTES;
use pagestore::service::DEFAULT_RETENTION_WINDOW_SECS;
use pagestore::service::DEFAULT_SWEEP_INTERVAL_SECS;
use pagestore::store::ObjectStore;
use pagestore::store::StoreError;

const T: u64 = 1700000000;

#[test]
fn upload_then_get_round_trip() {
    let mut store = ObjectStore::new();
    let body = b"<p>hi</p>".to_vec();
    let r = handle_upload(&mut store, "hello", Some("hello"), Some("alice"), body.clone(), T);
    match r {
        UploadOutcome::Stored(key) => {
            assert_eq!(key, "1700000000_alice.html");
            let got = store.get(&key).unwrap();
            assert_eq!(*got, body);
        }
        _ => panic!("upload was refused"),
    }
}

#[test]
fn missing_secret_writes_nothing() {
    let mut store = ObjectStore::new();
    let r = handle_upload(&mut store, "hello", None, Some("alice"), b"x".to_vec(), T);
    assert!(matches!(r, UploadOutcome::Rejected(AuthError::MissingSecret)));
    assert!(store.list().is_empty());
}

#[test]
fn wrong_secret_writes_nothing() {
    let mut store = ObjectStore::new();
    let r = handle_upload(&mut store, "hello", Some("nope"), Some("alice"), b"x".to_vec(), T);
    assert!(matches!(r, UploadOutcome::Rejected(AuthError::WrongSecret)));
    assert!(store.list().is_empty());
}

#[test]
fn missing_caller_id_writes_nothing() {
    let mut store = ObjectStore::new();
    let r = handle_upload(&mut store, "hello", Some("hello"), None, b"x".to_vec(), T);
    assert!(matches!(r, UploadOutcome::Rejected(AuthError::MissingCallerId)));
    assert!(store.list().is_empty());
}

#[test]
fn traversal_caller_id_writes_nothing() {
    let mut store = ObjectStore::new();
    let r = handle_upload(&mut store, "hello", Some("hello"), Some("../evil"), b"x".to_vec(), T);
    assert!(matches!(r, UploadOutcome::InvalidKey));
    assert!(store.list().is_empty());
}

#[test]
fn get_never_written_is_not_found() {
    let store = ObjectStore::new();
    assert_eq!(store.get("1_alice.html"), Err(StoreError::NotFound));
    assert_eq!(store.get("../../etc/passwd"), Err(StoreError::NotFound));
    assert_eq!(store.get(".."), Err(StoreError::NotFound));
}

#[test]
fn put_traversal_key_rejected() {
    let mut store = ObjectStore::new();
    let r = store.put("../x.html", b"x".to_vec(), T);
    assert_eq!(r, Err(StoreError::InvalidKey));
    assert!(store.list().is_empty());
}

#[test]
fn same_second_upload_overwrites() {
    let mut store = ObjectStore::new();
    let first = handle_upload(&mut store, "hello", Some("hello"), Some("bob"), b"one".to_vec(), T);
    let second = handle_upload(&mut store, "hello", Some("hello"), Some("bob"), b"two".to_vec(), T);
    assert!(matches!(first, UploadOutcome::Stored(_)));
    match second {
        UploadOutcome::Stored(key) => {
            assert_eq!(key, "1700000000_bob.html");
            assert_eq!(*store.get(&key).unwrap(), b"two".to_vec());
        }
        _ => panic!("second upload was refused"),
    }
    assert_eq!(store.list().len(), 1);
}

#[test]
fn sweep_removes_object_past_window() {
    let mut store = ObjectStore::new();
    store.put("1700000000_a.html", b"x".to_vec(), T).unwrap();
    store.sweep(T + DEFAULT_RETENTION_WINDOW_SECS + 1, DEFAULT_RETENTION_WINDOW_SECS);
    assert_eq!(store.get("1700000000_a.html"), Err(StoreError::NotFound));
    assert!(store.list().is_empty());
}

#[test]
fn sweep_retains_object_within_window() {
    let mut store = ObjectStore::new();
    store.put("1700000000_a.html", b"x".to_vec(), T).unwrap();
    store.sweep(T + DEFAULT_RETENTION_WINDOW_SECS - 1, DEFAULT_RETENTION_WINDOW_SECS);
    store.sweep(T + DEFAULT_RETENTION_WINDOW_SECS, DEFAULT_RETENTION_WINDOW_SECS);
    assert_eq!(*store.get("1700000000_a.html").unwrap(), b"x".to_vec());
}

#[test]
fn sweep_keeps_young_among_old() {
    let mut store = ObjectStore::new();
    store.put("1_old.html", b"old".to_vec(), T).unwrap();
    store.put("2_new.html", b"new".to_vec(), T + 500000).unwrap();
    store.sweep(T + 500001, 259200);
    assert_eq!(store.get("1_old.html"), Err(StoreError::NotFound));
    assert_eq!(*store.get("2_new.html").unwrap(), b"new".to_vec());
    assert_eq!(store.list().len(), 1);
}

#[test]
fn sweep_empty_store_is_noop() {
    let mut store = ObjectStore::new();
    store.sweep(T, DEFAULT_RETENTION_WINDOW_SECS);
    assert!(store.list().is_empty());
    store.sweep(T + 10, DEFAULT_RETENTION_WINDOW_SECS);
    store.sweep(T + 20, DEFAULT_RETENTION_WINDOW_SECS);
    assert!(store.list().is_empty());
}

#[test]
fn repeated_sweep_of_clean_store_never_errors() {
    let mut store = ObjectStore::new();
    store.put("1700000000_a.html", b"x".to_vec(), T).unwrap();
    store.sweep(T + DEFAULT_RETENTION_WINDOW_SECS + 1, DEFAULT_RETENTION_WINDOW_SECS);
    store.sweep(T + DEFAULT_RETENTION_WINDOW_SECS + 2, DEFAULT_RETENTION_WINDOW_SECS);
    store.sweep(T + DEFAULT_RETENTION_WINDOW_SECS + 3, DEFAULT_RETENTION_WINDOW_SECS);
    assert!(store.list().is_empty());
}

#[test]
fn delete_absent_key_is_not_found() {
    let mut store = ObjectStore::new();
    assert_eq!(store.delete("1_a.html"), Err(StoreError::NotFound));
    store.put("1_a.html", b"x".to_vec(), T).unwrap();
    assert_eq!(store.delete("1_a.html"), Ok(()));
    assert_eq!(store.delete("1_a.html"), Err(StoreError::NotFound));
}

#[test]
fn list_reports_keys_and_creation_times() {
    let mut store = ObjectStore::new();
    store.put("1_a.html", b"x".to_vec(), 1).unwrap();
    store.put("2_b.html", b"y".to_vec(), 2).unwrap();
    let mut listing = store.list();
    listing.sort();
    assert_eq!(listing, vec![("1_a.html".to_string(), 1), ("2_b.html".to_string(), 2)]);
}

#[test]
fn expiry_is_strict_age_comparison() {
    assert!(!is_expired(T, T + 259200, 259200));
    assert!(is_expired(T, T + 259201, 259200));
    assert!(!is_expired(T + 100, T, 259200));
}

#[test]
fn config_holds_startup_choices() {
    let c = Config::new("hello".to_string(), 259200, 10, 500000);
    assert_eq!(c.secret, "hello");
    assert_eq!(c.retention_window_secs, DEFAULT_RETENTION_WINDOW_SECS);
    assert_eq!(c.sweep_interval_secs, DEFAULT_SWEEP_INTERVAL_SECS);
    assert_eq!(c.payload_cap_bytes, DEFAULT_PAYLOAD_CAP_BYTES);
    assert!(c.payload_within_cap(500000));
    assert!(!c.payload_within_cap(500001));
}
