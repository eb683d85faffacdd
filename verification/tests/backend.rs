use docsync::errors::{retry_decision, RetryAction, StoreError};
use docsync::kv::{MemStore, SyncKv};
use docsync::s3::{
    classify_get_response, classify_head_response, classify_write_response, prefixed_key,
    s3_config_from_parts, store_kind, BucketProbe, ConfigError, S3Store, StoreKind,
};

#[test]
fn mem_store_get_set_remove_contains() {
    let mut s = MemStore::new();
    let k = b"doc1/data".to_vec();
    assert!(s.get(&k).is_none());
    assert!(!s.contains(&k));
    s.set(&k, &b"v1".to_vec());
    assert_eq!(s.get(&k), Some(b"v1".to_vec()));
    assert!(s.contains(&k));
    s.set(&k, &b"v2".to_vec());
    assert_eq!(s.get(&k), Some(b"v2".to_vec()));
    s.remove(&k);
    assert!(s.get(&k).is_none());
}

#[test]
fn persist_is_idempotent_without_mutations() {
    let mut kv = SyncKv::new();
    let mut store = MemStore::new();
    let k = b"data".to_vec();
    kv.put(&k, &b"abc".to_vec());

    let first = kv.persist_to(&mut store);
    assert_eq!(first, 1);
    assert_eq!(store.get(&k), Some(b"abc".to_vec()));

    // no mutation in between: the second persist performs zero writes
    let snapshot = store.entries.clone();
    let second = kv.persist_to(&mut store);
    assert_eq!(second, 0);
    assert_eq!(store.entries, snapshot);
}

#[test]
fn persist_carries_deletions_to_the_store() {
    let mut kv = SyncKv::new();
    let mut store = MemStore::new();
    let k = b"data".to_vec();
    kv.put(&k, &b"abc".to_vec());
    kv.persist_to(&mut store);
    assert!(store.contains(&k));

    kv.delete(&k);
    kv.persist_to(&mut store);
    assert!(!store.contains(&k));
}

#[test]
fn redirtying_between_persists_writes_again() {
    let mut kv = SyncKv::new();
    let mut store = MemStore::new();
    let k = b"data".to_vec();
    kv.put(&k, &b"v1".to_vec());
    kv.persist_to(&mut store);
    kv.put(&k, &b"v2".to_vec());
    let writes = kv.persist_to(&mut store);
    assert_eq!(writes, 1);
    assert_eq!(store.get(&k), Some(b"v2".to_vec()));
}

#[test]
fn response_classification_maps_each_status() {
    assert_eq!(classify_get_response(200, b"v".to_vec()), Ok(Some(b"v".to_vec())));
    assert_eq!(classify_get_response(404, Vec::new()), Ok(None));
    assert_eq!(classify_get_response(500, Vec::new()), Err(StoreError::Transient));
    assert_eq!(classify_get_response(429, Vec::new()), Err(StoreError::Transient));
    assert_eq!(classify_get_response(403, Vec::new()), Err(StoreError::Permanent));
    assert_eq!(classify_write_response(204), Ok(()));
    assert_eq!(classify_write_response(503), Err(StoreError::Transient));
    assert_eq!(classify_write_response(401), Err(StoreError::Permanent));
    assert_eq!(classify_head_response(200), Ok(true));
    assert_eq!(classify_head_response(404), Ok(false));
    assert_eq!(classify_head_response(502), Err(StoreError::Transient));
}

#[test]
fn bucket_probe_is_single_flight() {
    let mut probe = BucketProbe::new();
    let mut granted = 0;
    for _ in 0..50 {
        if probe.begin() {
            granted += 1;
        }
    }
    assert_eq!(granted, 1);

    probe.complete(200).unwrap();
    for _ in 0..50 {
        assert!(!probe.begin());
    }
}

#[test]
fn failed_probe_reopens_the_latch() {
    let mut probe = BucketProbe::new();
    assert!(probe.begin());
    assert_eq!(probe.complete(500), Err(StoreError::Transient));
    assert!(probe.begin());
    assert_eq!(probe.complete(404), Err(StoreError::Permanent));
    assert!(probe.begin());
}

#[test]
fn s3_store_presigns_prefixed_urls() {
    let config = s3_config_from_parts(
        None,
        None,
        Some(b"testkey".to_vec()),
        Some(b"testsecret".to_vec()),
        Some(b"mybucket".to_vec()),
        None,
        Some(b"ns".to_vec()),
        None,
    )
    .unwrap();
    assert_eq!(config.region, b"us-east-1".to_vec());
    assert_eq!(
        config.endpoint,
        b"https://s3.dualstack.us-east-1.amazonaws.com".to_vec()
    );

    let mut store = S3Store::new(config).unwrap();
    let url = store.get_url(&b"data".to_vec()).unwrap();
    assert!(url.starts_with("https://"));
    assert!(url.contains("mybucket"));
    assert!(url.contains("ns/data"));
    assert!(url.contains("X-Amz-Signature"));
    assert!(store.probe_url().contains("mybucket"));

    let mut granted = 0;
    for _ in 0..50 {
        if store.begin_probe() {
            granted += 1;
        }
    }
    assert_eq!(granted, 1);
}

#[test]
fn s3_config_reports_each_missing_setting() {
    let r = s3_config_from_parts(None, None, None, None, None, None, None, None);
    assert_eq!(r.err(), Some(ConfigError::MissingKey));
    let r = s3_config_from_parts(None, None, Some(b"k".to_vec()), None, None, None, None, None);
    assert_eq!(r.err(), Some(ConfigError::MissingSecret));
    let r = s3_config_from_parts(
        None,
        None,
        Some(b"k".to_vec()),
        Some(b"s".to_vec()),
        None,
        None,
        None,
        None,
    );
    assert_eq!(r.err(), Some(ConfigError::MissingBucket));
}

#[test]
fn store_paths_choose_their_backend() {
    assert_eq!(store_kind(&b"s3://bucket/prefix".to_vec()), StoreKind::S3);
    assert_eq!(store_kind(&b"/var/data".to_vec()), StoreKind::Filesystem);
    assert_eq!(store_kind(&b"s3:/".to_vec()), StoreKind::Filesystem);
}

#[test]
fn prefixed_keys_join_with_a_slash() {
    assert_eq!(
        prefixed_key(&Some(b"ns".to_vec()), &b"data".to_vec()),
        b"ns/data".to_vec()
    );
    assert_eq!(prefixed_key(&None, &b"data".to_vec()), b"data".to_vec());
}

#[test]
fn key_bounds_are_enforced() {
    assert!(docsync::key_ok(&b"doc1/data".to_vec()));
    assert!(!docsync::key_ok(&Vec::new()));
    assert!(docsync::key_ok(&vec![b'k'; 1024]));
    assert!(!docsync::key_ok(&vec![b'k'; 1025]));
}

#[test]
fn transient_failures_are_retried_with_backoff_then_surfaced() {
    match retry_decision(StoreError::Transient, 1) {
        RetryAction::RetryAfterMs(ms) => assert_eq!(ms, 100),
        RetryAction::GiveUp => panic!("first transient failure must be retried"),
    }
    match retry_decision(StoreError::Transient, 4) {
        RetryAction::RetryAfterMs(ms) => assert_eq!(ms, 800),
        RetryAction::GiveUp => panic!("fourth transient failure must be retried"),
    }
    assert!(matches!(retry_decision(StoreError::Transient, 5), RetryAction::GiveUp));
    assert!(matches!(retry_decision(StoreError::Permanent, 1), RetryAction::GiveUp));
    assert!(matches!(retry_decision(StoreError::Corrupt, 1), RetryAction::GiveUp));
}

#[test]
fn s3_store_rejects_unusable_settings() {
    let base = || s3_config_from_parts(
        None,
        None,
        Some(b"testkey".to_vec()),
        Some(b"testsecret".to_vec()),
        Some(b"mybucket".to_vec()),
        None,
        None,
        None,
    )
    .unwrap();

    let mut bad_endpoint = base();
    bad_endpoint.endpoint = b"not a url".to_vec();
    assert!(S3Store::new(bad_endpoint).is_none());

    let mut bad_prefix = base();
    bad_prefix.prefix = Some(b"/ns".to_vec());
    assert!(S3Store::new(bad_prefix).is_none());

    let mut empty_prefix = base();
    empty_prefix.prefix = Some(Vec::new());
    assert!(S3Store::new(empty_prefix).is_none());

    assert!(S3Store::new(base()).is_some());
}

#[test]
fn urls_are_refused_for_keys_that_are_not_text() {
    let config = s3_config_from_parts(
        None,
        None,
        Some(b"testkey".to_vec()),
        Some(b"testsecret".to_vec()),
        Some(b"mybucket".to_vec()),
        None,
        None,
        None,
    )
    .unwrap();
    let store = S3Store::new(config).unwrap();
    // not valid UTF-8: no URL comes back
    assert!(store.get_url(&vec![0xffu8, 0xfe]).is_none());
    assert!(store.set_url(&vec![0xffu8]).is_none());
    // a plain text key always presigns
    assert!(store.get_url(&b"doc1/data.bin".to_vec()).is_some());
}
