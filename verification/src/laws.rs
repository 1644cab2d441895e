//! The cache's governing laws, stated over the same spec functions that the
//! operations' contracts use.

use vstd::prelude::*;
use crate::cache::KeyView;
use crate::cache::SecretCache;
use crate::error::RawFailure;
use crate::error::spec_transient;

verus! {

/// Singleflight: while a fetch for a key is in flight, no request for that
/// key starts a second upstream call, forced or not.  Together with
/// [`SecretCache::note_in_flight`]'s contract — the first request for an
/// uncached key records the key as in flight — any number of concurrent
/// requests for one key start exactly one upstream fetch.
pub proof fn lemma_singleflight(c: SecretCache, k: KeyView, refresh_now: bool, now: u64)
    requires
        c.in_flight_has(k),
    ensures
        !c.starts_fetch(k, refresh_now, now),
{
}

/// Freshness: a request before the entry's TTL elapses, without a forced
/// refresh, needs no upstream call; a request after it elapses always does.
pub proof fn lemma_freshness(c: SecretCache, k: KeyView, refresh_now: bool, now: u64)
    ensures
        c.has_fresh(k, now) ==> !c.needs_fetch(k, false, now),
        !c.has_fresh(k, now) ==> c.needs_fetch(k, refresh_now, now),
{
}

/// Forced refresh: a request with `refresh_now` set needs an upstream call
/// even when a fresh entry is resident.
pub proof fn lemma_forced_refresh(c: SecretCache, k: KeyView, now: u64)
    ensures
        c.needs_fetch(k, true, now),
{
}

/// A key with no resident entry is a miss: the request must go upstream.
/// In particular a key just evicted by [`SecretCache::store`] — which
/// reports the evicted key absent — is a miss on its next request.
pub proof fn lemma_miss_needs_fetch(c: SecretCache, k: KeyView, refresh_now: bool, now: u64)
    requires
        !c.has_entry(k),
    ensures
        c.needs_fetch(k, refresh_now, now),
{
}

/// Stale-serve idempotence: once a stale entry has answered one transient
/// failure, it answers every later transient failure with the same payload,
/// for as long as the entry table is unchanged — that is, until a
/// successful fetch replaces the entry.
pub proof fn lemma_stale_serve_idempotent(
    c1: SecretCache,
    c2: SecretCache,
    k: KeyView,
    f1: RawFailure,
    f2: RawFailure,
    now1: u64,
    now2: u64,
)
    requires
        c1.serves_stale(k, f1, now1),
        c2.entries@ == c1.entries@,
        c2.ignore_transient_errors == c1.ignore_transient_errors,
        spec_transient(f2),
        now1 <= now2,
    ensures
        c2.serves_stale(k, f2, now2),
        c2.entry(k) == c1.entry(k),
{
}

} // verus!
