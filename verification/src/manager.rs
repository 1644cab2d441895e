//! The fetch orchestrator.
//!
//! [`CacheManager`] is the public entry point: it drives the bounded TTL
//! cache, and serializes served secrets to their wire representation.  The
//! upstream call itself is the caller's: a request first goes through
//! [`CacheManager::fetch_begin`]; when that asks for an upstream fetch, the
//! caller performs it and hands the outcome back through
//! [`CacheManager::fetch_success`] or [`CacheManager::fetch_failure`].

use vstd::prelude::*;
use crate::cache::CacheEntry;
use crate::cache::CacheKey;
use crate::cache::KeyView;
use crate::cache::SecretCache;
use crate::cache::SecretValue;
use crate::cache::expiry_of;
use crate::cache::opt_str_view;
use crate::error::HttpError;
use crate::error::RawFailure;
use crate::error::classify;
use crate::error::spec_code;
use crate::error::spec_message;
use crate::error::spec_status;
use crate::error::wire_body;
use crate::wire::serialize_secret;
use crate::wire::wire_value;

verus! {

/// The key a request with these parameters selects.
pub open spec fn key_of(secret_id: &str, version: Option<&str>, label: Option<&str>) -> KeyView {
    KeyView { id: secret_id@, version: opt_str_view(version), label: opt_str_view(label) }
}

/// The wire representation of a cache entry's payload.
pub open spec fn entry_wire(e: CacheEntry) -> Seq<char> {
    wire_value(
        e.key.secret_id@,
        e.value.version_id@,
        e.value.version_stage@,
        e.value.secret_string@,
    )
}

/// What a request must do next.
pub enum FetchAction {
    /// The serialized payload, served from the cache.
    Serve(String),
    /// No usable entry and no fetch in flight: this caller must perform the
    /// upstream call and hand its outcome back.
    StartUpstream,
    /// A fetch for this key is already in flight: await its outcome rather
    /// than issuing a second upstream call.
    AwaitUpstream,
}

/// The public entry point: owns the bounded TTL cache and serializes what
/// it serves.
pub struct CacheManager {
    pub cache: SecretCache,
}

impl CacheManager {
    /// The orchestrator's invariant.
    pub open spec fn well_formed(self) -> bool {
        self.cache.well_formed()
    }

    /// A new orchestrator around an empty cache with this configuration.
    pub fn new(cache_size: usize, ttl: u64, ignore_transient_errors: bool) -> (r: Self)
        requires
            1 <= cache_size,
        ensures
            r.well_formed(),
            r.cache.entries@.len() == 0,
            r.cache.in_flight@.len() == 0,
            r.cache.cache_size == cache_size,
            r.cache.ttl == ttl,
            r.cache.ignore_transient_errors == ignore_transient_errors,
    {
        CacheManager { cache: SecretCache::new(cache_size, ttl, ignore_transient_errors) }
    }

    /// Begin a fetch.  A fresh entry is served at once unless the refresh is
    /// forced; otherwise the request joins the in-flight fetch for its key,
    /// or starts one.
    pub fn fetch_begin(
        &mut self,
        secret_id: &str,
        version: Option<&str>,
        label: Option<&str>,
        refresh_now: bool,
        now: u64,
    ) -> (r: FetchAction)
        requires
            old(self).well_formed(),
            secret_id@.len() > 0,
        ensures
            final(self).well_formed(),
            final(self).cache.same_config(old(self).cache),
            ({
                let k = key_of(secret_id, version, label);
                &&& (r is Serve <==> !old(self).cache.needs_fetch(k, refresh_now, now))
                &&& (r is Serve ==> r->Serve_0@ == entry_wire(old(self).cache.entry(k)) && final(self).cache.in_flight@ == old(self).cache.in_flight@)
                &&& (r is AwaitUpstream <==> old(self).cache.needs_fetch(k, refresh_now, now)
                    && old(self).cache.in_flight_has(k))
                &&& (r is AwaitUpstream ==> final(self).cache.entries@ == old(self).cache.entries@
                    && final(self).cache.in_flight@ == old(self).cache.in_flight@)
                &&& (r is StartUpstream <==> old(self).cache.starts_fetch(k, refresh_now, now))
                &&& (r is StartUpstream ==> final(self).cache.entries@ == old(self).cache.entries@ && final(self).cache.in_flight_has(k))
                &&& (forall|k2: KeyView| #[trigger]
                    final(self).cache.in_flight_has(k2) == (old(self).cache.in_flight_has(k2) || (
                    !(r is Serve) && k2 == k)))
            }),
            forall|k2: KeyView| #[trigger]
                final(self).cache.has_entry(k2) == old(self).cache.has_entry(k2),
            forall|k2: KeyView|
                old(self).cache.has_entry(k2) ==> #[trigger] final(self).cache.entry(k2) == old(self).cache.entry(k2),
    {
        let key = CacheKey::new(secret_id, version, label);
        if !refresh_now && self.cache.touch_fresh(&key, now) {
            let n = self.cache.entries.len();
            let e = &self.cache.entries[n - 1];
            let s = serialize_secret(
                e.key.secret_id.as_str(),
                e.value.version_id.as_str(),
                e.value.version_stage.as_str(),
                e.value.secret_string.as_str(),
            );
            FetchAction::Serve(s)
        } else if self.cache.note_in_flight(&key) {
            FetchAction::AwaitUpstream
        } else {
            FetchAction::StartUpstream
        }
    }

    /// Admit a successful upstream fetch: the new entry replaces any entry
    /// under the same key, evicting the least recently used entry when a new
    /// key would exceed capacity, and the serialized payload is returned.
    pub fn fetch_success(
        &mut self,
        secret_id: &str,
        version: Option<&str>,
        label: Option<&str>,
        value: SecretValue,
        now: u64,
    ) -> (r: String)
        requires
            old(self).well_formed(),
        ensures
            final(self).well_formed(),
            final(self).cache.same_config(old(self).cache),
            r@ == wire_value(secret_id@, value.version_id@, value.version_stage@, value.secret_string@),
            ({
                let k = key_of(secret_id, version, label);
                &&& final(self).cache.has_entry(k)
                &&& final(self).cache.entry(k).key@ == k
                &&& final(self).cache.entry(k).value == value
                &&& final(self).cache.entry(k).fetched_at == now
                &&& final(self).cache.entry(k).expires_at == expiry_of(now, old(self).cache.ttl)
                &&& r@ == entry_wire(final(self).cache.entry(k))
                &&& (forall|k2: KeyView| #[trigger]
                    final(self).cache.in_flight_has(k2) == (old(self).cache.in_flight_has(k2) && k2
                        != k))
                &&& (!old(self).cache.has_entry(k) && old(self).cache.entries@.len() == old(self).cache.cache_size ==> !final(self).cache.has_entry(
                    old(self).cache.entries@[0].key@,
                ))
                &&& (!old(self).cache.has_entry(k) && old(self).cache.entries@.len() < old(self).cache.cache_size ==> forall|k2: KeyView|
                    old(self).cache.has_entry(k2) ==> #[trigger] final(self).cache.has_entry(k2))
            }),
    {
        let key = CacheKey::new(secret_id, version, label);
        let s = serialize_secret(
            secret_id,
            value.version_id.as_str(),
            value.version_stage.as_str(),
            value.secret_string.as_str(),
        );
        self.cache.store(&key, value, now);
        proof {
            let k = key_of(secret_id, version, label);
            assert(self.cache.entry(k).key@ == k);
            if !old(self).cache.has_entry(k) && old(self).cache.entries@.len() < old(self).cache.cache_size {
                assert forall|k2: KeyView|
                    old(self).cache.has_entry(k2) implies #[trigger] self.cache.has_entry(k2) by {
                    let s0 = old(self).cache.entries@;
                    let x = choose|x: int|
                        0 <= x < s0.len() && (#[trigger] s0[x]).key@ == k2;
                    assert(self.cache.entries@[x] == s0[x]);
                }
            }
        }
        s
    }

    /// Handle a failed upstream fetch: when stale-serving is configured, the
    /// failure is transient and a stale entry is resident, that entry's
    /// payload is served; otherwise the classified error surfaces unchanged.
    /// The entry table is never modified on failure.
    pub fn fetch_failure(
        &mut self,
        secret_id: &str,
        version: Option<&str>,
        label: Option<&str>,
        failure: &RawFailure,
        now: u64,
    ) -> (r: Result<String, HttpError>)
        requires
            old(self).well_formed(),
        ensures
            final(self).well_formed(),
            final(self).cache.same_config(old(self).cache),
            final(self).cache.entries@ == old(self).cache.entries@,
            ({
                let k = key_of(secret_id, version, label);
                &&& (forall|k2: KeyView| #[trigger]
                    final(self).cache.in_flight_has(k2) == (old(self).cache.in_flight_has(k2) && k2
                        != k))
                &&& match r {
                    Ok(s) => old(self).cache.serves_stale(k, *failure, now) && s@ == entry_wire(
                        old(self).cache.entry(k),
                    ),
                    Err(e) => !old(self).cache.serves_stale(k, *failure, now) && e.0 as int
                        == spec_status(*failure) && e.1@ == wire_body(
                        spec_code(*failure),
                        spec_message(*failure),
                    ),
                }
            }),
    {
        let key = CacheKey::new(secret_id, version, label);
        let found = self.cache.on_fetch_failure(&key, failure, now);
        match found {
            Some(i) => {
                let e = &self.cache.entries[i];
                let s = serialize_secret(
                    e.key.secret_id.as_str(),
                    e.value.version_id.as_str(),
                    e.value.version_stage.as_str(),
                    e.value.secret_string.as_str(),
                );
                Ok(s)
            },
            None => {
                let c = classify(failure);
                Err(c.to_http())
            },
        }
    }
}

} // verus!
