//! Tests for the bounded TTL cache: freshness, forced refresh, singleflight
//! coordination, LRU eviction, stale-serving, and the wire payload.

use secrets_cache::cache::SecretValue;
use secrets_cache::error::RawFailure;
use secrets_cache::manager::CacheManager;
use secrets_cache::manager::FetchAction;

fn value(version: &str, secret: &str) -> SecretValue {
    SecretValue {
        version_id: version.to_string(),
        version_stage: "AWSCURRENT".to_string(),
        secret_string: secret.to_string(),
    }
}

fn serve_payload(action: FetchAction) -> String {
    match action {
        FetchAction::Serve(s) => s,
        FetchAction::StartUpstream => panic!("expected a cached payload, got StartUpstream"),
        FetchAction::AwaitUpstream => panic!("expected a cached payload, got AwaitUpstream"),
    }
}

#[test]
fn end_to_end_scenario() {
    // TTL 60, capacity 10: a miss, a hit within the TTL, a refetch after it.
    let mut m = CacheManager::new(10, 60, false);
    let first = m.fetch_begin("S1", None, None, false, 0);
    assert!(matches!(first, FetchAction::StartUpstream));
    let first_payload = m.fetch_success("S1", None, None, value("v1", "first-secret"), 0);

    let second = m.fetch_begin("S1", None, None, false, 59);
    let served = serve_payload(second);
    assert_eq!(served, first_payload);
    assert!(served.contains("\"SecretString\":\"first-secret\""));

    let third = m.fetch_begin("S1", None, None, false, 61);
    assert!(matches!(third, FetchAction::StartUpstream));
    let second_payload = m.fetch_success("S1", None, None, value("v2", "second-secret"), 61);
    assert!(second_payload.contains("\"SecretString\":\"second-secret\""));
    assert_ne!(first_payload, second_payload);
}

#[test]
fn fresh_entry_served_without_upstream() {
    let mut m = CacheManager::new(4, 100, false);
    assert!(matches!(m.fetch_begin("k", None, None, false, 10), FetchAction::StartUpstream));
    m.fetch_success("k", None, None, value("v", "s"), 10);
    // Fresh until 10 + 100.
    assert!(matches!(m.fetch_begin("k", None, None, false, 109), FetchAction::Serve(_)));
    // Stale from then on.
    assert!(matches!(m.fetch_begin("k", None, None, false, 110), FetchAction::StartUpstream));
}

#[test]
fn forced_refresh_always_goes_upstream() {
    let mut m = CacheManager::new(4, 100, false);
    assert!(matches!(m.fetch_begin("k", None, None, false, 0), FetchAction::StartUpstream));
    m.fetch_success("k", None, None, value("v", "s"), 0);
    // The entry is fresh, but the refresh is forced.
    assert!(matches!(m.fetch_begin("k", None, None, true, 1), FetchAction::StartUpstream));
    // A forced refresh still joins an in-flight fetch.
    assert!(matches!(m.fetch_begin("k", None, None, true, 1), FetchAction::AwaitUpstream));
}

#[test]
fn singleflight_second_caller_awaits() {
    let mut m = CacheManager::new(4, 100, false);
    assert!(matches!(m.fetch_begin("k", None, None, false, 0), FetchAction::StartUpstream));
    // Further callers for the same uncached key join the in-flight fetch.
    assert!(matches!(m.fetch_begin("k", None, None, false, 0), FetchAction::AwaitUpstream));
    assert!(matches!(m.fetch_begin("k", None, None, false, 0), FetchAction::AwaitUpstream));
    // A different key proceeds independently.
    assert!(matches!(m.fetch_begin("other", None, None, false, 0), FetchAction::StartUpstream));
    // Once the fetch lands, everyone is served from the cache.
    m.fetch_success("k", None, None, value("v", "s"), 0);
    assert!(matches!(m.fetch_begin("k", None, None, false, 1), FetchAction::Serve(_)));
}

#[test]
fn failed_fetch_clears_the_flight() {
    let mut m = CacheManager::new(4, 100, false);
    assert!(matches!(m.fetch_begin("k", None, None, false, 0), FetchAction::StartUpstream));
    let r = m.fetch_failure("k", None, None, &RawFailure::Timeout, 0);
    assert!(r.is_err());
    // The failed flight is cleared: the next request starts a new fetch.
    assert!(matches!(m.fetch_begin("k", None, None, false, 0), FetchAction::StartUpstream));
}

#[test]
fn eviction_drops_least_recently_used() {
    let mut m = CacheManager::new(2, 1000, false);
    m.fetch_begin("a", None, None, false, 0);
    m.fetch_success("a", None, None, value("v", "A"), 0);
    m.fetch_begin("b", None, None, false, 1);
    m.fetch_success("b", None, None, value("v", "B"), 1);
    // Touch "a": "b" becomes the least recently used.
    serve_payload(m.fetch_begin("a", None, None, false, 2));
    // A third distinct key evicts "b".
    m.fetch_begin("c", None, None, false, 3);
    m.fetch_success("c", None, None, value("v", "C"), 3);
    // The evicted key is a miss; the others are still resident.
    assert!(matches!(m.fetch_begin("b", None, None, false, 4), FetchAction::StartUpstream));
    assert!(matches!(m.fetch_begin("a", None, None, false, 4), FetchAction::Serve(_)));
    assert!(matches!(m.fetch_begin("c", None, None, false, 4), FetchAction::Serve(_)));
}

#[test]
fn stale_serve_on_transient_failure() {
    let mut m = CacheManager::new(4, 10, true);
    m.fetch_begin("k", None, None, false, 0);
    let stored = m.fetch_success("k", None, None, value("v", "old-value"), 0);
    // Entry stale at 10; upstream fails with a transient error.
    assert!(matches!(m.fetch_begin("k", None, None, false, 20), FetchAction::StartUpstream));
    let served = m.fetch_failure("k", None, None, &RawFailure::Timeout, 20).unwrap();
    assert_eq!(served, stored);
    // Repeated transient failures keep serving the same stale payload.
    assert!(matches!(m.fetch_begin("k", None, None, false, 21), FetchAction::StartUpstream));
    let served2 = m
        .fetch_failure(
            "k",
            None,
            None,
            &RawFailure::Dispatch { timeout: false, io: true },
            21,
        )
        .unwrap();
    assert_eq!(served2, stored);
    // A permanent failure is not tolerated.
    m.fetch_begin("k", None, None, false, 22);
    let err = m.fetch_failure("k", None, None, &RawFailure::Other, 22).unwrap_err();
    assert_eq!(err.status(), 500);
    // A later success replaces the stale entry.
    m.fetch_begin("k", None, None, false, 23);
    let fresh = m.fetch_success("k", None, None, value("v2", "new-value"), 23);
    let served3 = serve_payload(m.fetch_begin("k", None, None, false, 24));
    assert_eq!(served3, fresh);
}

#[test]
fn transient_failure_without_stale_entry_fails() {
    let mut m = CacheManager::new(4, 10, true);
    m.fetch_begin("k", None, None, false, 0);
    let err = m.fetch_failure("k", None, None, &RawFailure::Timeout, 0).unwrap_err();
    assert_eq!(err.status(), 504);
    assert_eq!(err.1, "{\"__type\":\"TimeoutError\", \"message\":\"Timeout\"}");
}

#[test]
fn transient_failure_with_fresh_entry_fails_on_forced_refresh() {
    // The stale-serve policy covers stale entries only: a forced refresh of
    // a still-fresh entry that fails transiently surfaces the error.
    let mut m = CacheManager::new(4, 100, true);
    m.fetch_begin("k", None, None, false, 0);
    m.fetch_success("k", None, None, value("v", "s"), 0);
    m.fetch_begin("k", None, None, true, 1);
    let r = m.fetch_failure("k", None, None, &RawFailure::Timeout, 1);
    assert!(r.is_err());
}

#[test]
fn stale_serve_disabled_fails() {
    let mut m = CacheManager::new(4, 10, false);
    m.fetch_begin("k", None, None, false, 0);
    m.fetch_success("k", None, None, value("v", "s"), 0);
    m.fetch_begin("k", None, None, false, 20);
    let err = m.fetch_failure("k", None, None, &RawFailure::Timeout, 20).unwrap_err();
    assert_eq!(err.status(), 504);
}

#[test]
fn version_and_label_select_distinct_entries() {
    let mut m = CacheManager::new(8, 100, false);
    m.fetch_begin("S1", None, None, false, 0);
    m.fetch_success("S1", None, None, value("v1", "current"), 0);
    // The same secret under a version selector is a different key.
    assert!(matches!(
        m.fetch_begin("S1", Some("v0"), None, false, 1),
        FetchAction::StartUpstream
    ));
    m.fetch_success("S1", Some("v0"), None, value("v0", "pinned"), 1);
    // And under a label selector, a third key.
    assert!(matches!(
        m.fetch_begin("S1", None, Some("AWSPREVIOUS"), false, 2),
        FetchAction::StartUpstream
    ));
    m.fetch_success("S1", None, Some("AWSPREVIOUS"), value("v0", "previous"), 2);
    let current = serve_payload(m.fetch_begin("S1", None, None, false, 3));
    let pinned = serve_payload(m.fetch_begin("S1", Some("v0"), None, false, 3));
    let previous = serve_payload(m.fetch_begin("S1", None, Some("AWSPREVIOUS"), false, 3));
    assert!(current.contains("\"SecretString\":\"current\""));
    assert!(pinned.contains("\"SecretString\":\"pinned\""));
    assert!(previous.contains("\"SecretString\":\"previous\""));
}

#[test]
fn wire_payload_is_exact_json() {
    let mut m = CacheManager::new(2, 100, false);
    m.fetch_begin("S1", None, None, false, 0);
    let p = m.fetch_success("S1", None, None, value("ver-1", "hunter2"), 0);
    assert_eq!(
        p,
        "{\"Name\":\"S1\",\"VersionId\":\"ver-1\",\"VersionStage\":\"AWSCURRENT\",\"SecretString\":\"hunter2\"}"
    );
}

#[test]
fn wire_payload_escapes_specials() {
    let mut m = CacheManager::new(2, 100, false);
    m.fetch_begin("S1", None, None, false, 0);
    let p = m.fetch_success(
        "S1",
        None,
        None,
        value("v", "a\"b\\c\nd\te\r\u{8}\u{c}\u{1}f"),
        0,
    );
    assert_eq!(
        p,
        "{\"Name\":\"S1\",\"VersionId\":\"v\",\"VersionStage\":\"AWSCURRENT\",\"SecretString\":\"a\\\"b\\\\c\\nd\\te\\r\\b\\f\\u0001f\"}"
    );
    // The payload parses back to the original secret.
    let parsed: serde_json::Value = serde_json::from_str(&p).unwrap();
    assert_eq!(
        parsed["SecretString"].as_str().unwrap(),
        "a\"b\\c\nd\te\r\u{8}\u{c}\u{1}f"
    );
}
