use camellia_nexus_desktop::license_session::{
    PendingAuthorizationError, PendingAuthorizationStore, AUTHORIZATION_SESSION_CAPACITY,
    AUTHORIZATION_SESSION_TTL_MS,
};

const MINUTE_MS: u64 = 60_000;

fn pkce_code(value: &str) -> String {
    value.repeat(32)
}

#[test]
fn completion_is_single_flight_and_can_retry_after_failure() {
    let mut store = PendingAuthorizationStore::new(2, MINUTE_MS);
    store.insert("state".into(), pkce_code("v"), "http://127.0.0.1/callback".into(), 0);

    assert!(store.begin_completion("state", 1).is_ok());
    assert!(matches!(
        store.begin_completion("state", 1),
        Err(PendingAuthorizationError::CompletionInProgress)
    ));
    store.finish_completion("state", false, 2);
    assert!(store.begin_completion("state", 2).is_ok());
    store.finish_completion("state", true, 3);
    assert!(matches!(store.begin_completion("state", 3), Err(PendingAuthorizationError::Missing)));
}

#[test]
fn capacity_evicts_oldest_session() {
    let mut store = PendingAuthorizationStore::new(2, MINUTE_MS);
    store.insert("first".into(), pkce_code("a"), "one".into(), 0);
    store.insert("second".into(), pkce_code("b"), "two".into(), 0);
    let removed = store.insert("third".into(), pkce_code("c"), "three".into(), 0);

    assert_eq!(removed, vec!["first"]);
    assert!(!store.contains_active("first", 0));
    assert!(store.contains_active("second", 0));
    assert!(store.contains_active("third", 0));
    assert!(store.cancel("second"));
    assert!(!store.contains_active("second", 0));
}

#[test]
fn expired_session_cannot_complete() {
    let mut store = PendingAuthorizationStore::new(1, 0);
    store.insert("state".into(), pkce_code("v"), "redirect".into(), 5);
    assert!(matches!(store.begin_completion("state", 5), Err(PendingAuthorizationError::Expired)));
}

#[test]
fn cancellation_during_completion_cannot_resurrect_the_session() {
    let mut store = PendingAuthorizationStore::new(1, MINUTE_MS);
    store.insert("state".into(), pkce_code("v"), "redirect".into(), 0);
    assert!(store.begin_completion("state", 0).is_ok());
    assert!(store.cancel("state"));

    store.finish_completion("state", false, 0);
    assert!(matches!(store.begin_completion("state", 0), Err(PendingAuthorizationError::Missing)));
}

#[test]
fn clearing_store_invalidates_every_pending_session() {
    let mut store = PendingAuthorizationStore::new(2, MINUTE_MS);
    store.insert("first".into(), pkce_code("a"), "one".into(), 0);
    store.insert("second".into(), pkce_code("b"), "two".into(), 0);

    assert_eq!(store.clear(), vec!["first", "second"]);
    assert!(!store.contains_active("first", 0));
    assert!(!store.contains_active("second", 0));
}

#[test]
fn expired_sessions_are_purged_first_and_reinserted_states_replace_the_old_one() {
    let mut store = PendingAuthorizationStore::new(3, 10);
    store.insert("old".into(), pkce_code("a"), "one".into(), 0);
    store.insert("kept".into(), pkce_code("b"), "two".into(), 5);
    let removed = store.insert("kept".into(), pkce_code("c"), "three".into(), 12);
    assert_eq!(removed, vec!["old", "kept"]);
    assert!(store.contains_active("kept", 21));
    assert!(!store.contains_active("kept", 22));
}

#[test]
fn completion_results_carry_the_stored_credentials() {
    let mut store = PendingAuthorizationStore::new(
        AUTHORIZATION_SESSION_CAPACITY,
        AUTHORIZATION_SESSION_TTL_MS,
    );
    store.insert("state".into(), pkce_code("v"), "http://127.0.0.1/callback".into(), 0);
    let credentials = store.begin_completion("state", AUTHORIZATION_SESSION_TTL_MS - 1).ok().expect("pending");
    assert_eq!(credentials.pkce_verifier, pkce_code("v"));
    assert_eq!(credentials.redirect_uri, "http://127.0.0.1/callback");
    store.finish_completion("state", false, AUTHORIZATION_SESSION_TTL_MS);
    assert!(matches!(store.begin_completion("state", 0), Err(PendingAuthorizationError::Missing)));
    assert_eq!(
        PendingAuthorizationError::Expired.details(),
        "The device activation session expired. Start activation again."
    );
}
