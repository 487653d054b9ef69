use thumper::api::{Method, StorageZoneClient};
use thumper::error::SyncError;
use thumper::lock::{acquire, claim_lock, lock_request, remove_lock, sentinel_of, take_lock};

const LOCK: &str = ".bunnysync.lock";

fn client() -> StorageZoneClient {
    StorageZoneClient::new("secret".to_string(), "storage.example.com".to_string(), "zone".to_string())
}

#[test]
fn sentinel_exists_where_the_read_succeeds() {
    assert_eq!(sentinel_of(Some(200), "then".to_string()), Ok(Some("then".to_string())));
    assert_eq!(sentinel_of(Some(204), String::new()), Ok(Some(String::new())));
    assert_eq!(sentinel_of(Some(299), "then".to_string()), Ok(Some("then".to_string())));
}

#[test]
fn sentinel_is_absent_where_the_store_misses_it() {
    assert_eq!(sentinel_of(Some(404), "not found".to_string()), Ok(None));
    assert_eq!(sentinel_of(Some(404), String::new()), Ok(None));
}

#[test]
fn failed_read_of_the_sentinel_is_a_failure() {
    assert_eq!(
        sentinel_of(Some(500), "then".to_string()),
        Err(SyncError::Network { status: 500 })
    );
    assert_eq!(sentinel_of(Some(503), String::new()), Err(SyncError::Network { status: 503 }));
    assert_eq!(sentinel_of(Some(401), String::new()), Err(SyncError::Network { status: 401 }));
    assert_eq!(sentinel_of(Some(403), String::new()), Err(SyncError::Network { status: 403 }));
    assert_eq!(sentinel_of(Some(410), String::new()), Err(SyncError::Network { status: 410 }));
    assert_eq!(sentinel_of(Some(301), String::new()), Err(SyncError::Network { status: 301 }));
    assert_eq!(sentinel_of(Some(199), String::new()), Err(SyncError::Network { status: 199 }));
    assert_eq!(sentinel_of(None, "then".to_string()), Err(SyncError::Unreachable));
}

#[test]
fn failed_read_takes_no_lock() {
    // Without an answer on the sentinel nothing is claimed, forced or not.
    for force in [false, true] {
        let claimed = sentinel_of(Some(500), String::new())
            .and_then(|sentinel| take_lock(&client(), LOCK, force, sentinel));
        assert_eq!(claimed.err(), Some(SyncError::Network { status: 500 }));
        let claimed = sentinel_of(None, String::new())
            .and_then(|sentinel| take_lock(&client(), LOCK, force, sentinel));
        assert_eq!(claimed.err(), Some(SyncError::Unreachable));
    }
}

#[test]
fn missing_sentinel_lets_the_session_take_the_lock() {
    let claimed = sentinel_of(Some(404), String::new())
        .and_then(|sentinel| take_lock(&client(), LOCK, false, sentinel));
    assert!(claimed.is_ok());
}

#[test]
fn free_lock_is_taken() {
    let claim = take_lock(&client(), LOCK, false, None).unwrap();
    assert_eq!(claim.overridden, None);
    assert_eq!(claim.request.method, Method::Put);
    assert_eq!(claim.request.url, "https://storage.example.com/zone/.bunnysync.lock");
    assert_eq!(claim.request.access_key, "secret");
    assert_eq!(claim.request.content_type.as_deref(), Some("text/plain"));
}

#[test]
fn held_lock_stops_the_session() {
    let outcome = take_lock(&client(), LOCK, false, Some("2025-04-15T16:52:33+02:00".to_string()));
    assert_eq!(outcome.err(), Some(SyncError::LockHeld));
}

#[test]
fn held_lock_is_overridden_by_force() {
    let since = "2025-04-15T16:52:33+02:00".to_string();
    let claim = take_lock(&client(), LOCK, true, Some(since.clone())).unwrap();
    assert_eq!(claim.overridden, Some(since));
    assert_eq!(claim.request.method, Method::Put);
    assert_eq!(claim.request.url, "https://storage.example.com/zone/.bunnysync.lock");
}

#[test]
fn force_changes_nothing_for_a_free_lock() {
    let claim = take_lock(&client(), LOCK, true, None).unwrap();
    assert_eq!(claim.overridden, None);
    assert_eq!(claim.request.method, Method::Put);
}

#[test]
fn claim_writes_the_stamp_it_is_given() {
    let stamp = "1996-12-19T16:39:57-08:00".to_string();
    let claim = claim_lock(&client(), LOCK, false, None, stamp.clone()).unwrap();
    assert_eq!(claim.stamp, stamp);
    assert_eq!(claim.request.body, stamp.into_bytes());
    assert_eq!(claim.request.method, Method::Put);
    assert_eq!(claim.request.url, "https://storage.example.com/zone/.bunnysync.lock");
    assert_eq!(claim.request.content_type.as_deref(), Some("text/plain"));
    assert_eq!(claim.overridden, None);
}

#[test]
fn claim_is_refused_like_the_lock() {
    let stamp = "1996-12-19T16:39:57-08:00".to_string();
    let held = Some("earlier".to_string());
    assert_eq!(
        claim_lock(&client(), LOCK, false, held.clone(), stamp.clone()).err(),
        Some(SyncError::LockHeld)
    );
    let claim = claim_lock(&client(), LOCK, true, held.clone(), stamp).unwrap();
    assert_eq!(claim.overridden, held);
}

#[test]
fn sentinel_holds_the_time_of_its_writing() {
    let claim = take_lock(&client(), LOCK, false, None).unwrap();
    assert_eq!(claim.request.body, claim.stamp.clone().into_bytes());
    assert!(claim.stamp.is_ascii());
    assert!(claim.stamp.len() >= 25);
    let stamp = String::from_utf8(claim.request.body).unwrap();
    // Such as 1996-12-19T16:39:57.123456-08:00.
    assert!(stamp.len() >= 20);
    assert_eq!(&stamp[4..5], "-");
    assert_eq!(&stamp[7..8], "-");
    assert_eq!(&stamp[10..11], "T");
    assert!(stamp[..4].chars().all(|c| c.is_ascii_digit()));
}

#[test]
fn lock_request_carries_the_stamp() {
    let request = lock_request(&client(), LOCK, "1996-12-19T16:39:57-08:00");
    assert_eq!(request.method, Method::Put);
    assert_eq!(request.url, "https://storage.example.com/zone/.bunnysync.lock");
    assert_eq!(request.content_type.as_deref(), Some("text/plain"));
    assert_eq!(request.body, b"1996-12-19T16:39:57-08:00".to_vec());
}

#[test]
fn release_deletes_the_sentinel() {
    let request = remove_lock(&client(), LOCK);
    assert_eq!(request.method, Method::Delete);
    assert_eq!(request.url, "https://storage.example.com/zone/.bunnysync.lock");
    assert_eq!(request.access_key, "secret");
    assert!(request.body.is_empty());
}

#[test]
fn acquire_fails_on_a_failed_read() {
    for force in [false, true] {
        assert_eq!(
            acquire(&client(), LOCK, force, Some(500), String::new()).err(),
            Some(SyncError::Network { status: 500 })
        );
        assert_eq!(
            acquire(&client(), LOCK, force, Some(403), String::new()).err(),
            Some(SyncError::Network { status: 403 })
        );
        assert_eq!(
            acquire(&client(), LOCK, force, None, String::new()).err(),
            Some(SyncError::Unreachable)
        );
    }
}

#[test]
fn acquire_respects_a_lock_that_is_held() {
    let outcome = acquire(&client(), LOCK, false, Some(200), "earlier".to_string());
    assert_eq!(outcome.err(), Some(SyncError::LockHeld));
    let claim = acquire(&client(), LOCK, true, Some(200), "earlier".to_string()).unwrap();
    assert_eq!(claim.overridden, Some("earlier".to_string()));
    assert_eq!(claim.request.method, Method::Put);
    assert_eq!(claim.request.body, claim.stamp.clone().into_bytes());
}

#[test]
fn acquire_takes_a_lock_that_is_free() {
    let claim = acquire(&client(), LOCK, false, Some(404), "not found".to_string()).unwrap();
    assert_eq!(claim.overridden, None);
    assert_eq!(claim.request.method, Method::Put);
    assert_eq!(claim.request.url, "https://storage.example.com/zone/.bunnysync.lock");
    assert!(claim.stamp.len() >= 25);
}
