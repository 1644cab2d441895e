//! The bounded TTL secret cache.
//!
//! The cache owns the entry table (most recently used last), the set of
//! in-flight fetches, and the configuration it was constructed with.  It
//! decides, for each request, whether a cached entry can be served, whether
//! an upstream fetch must be started, or whether one is already in flight
//! and should be joined; the upstream call itself happens outside and its
//! outcome is handed back through [`SecretCache::store`] and
//! [`SecretCache::on_fetch_failure`].

use vstd::prelude::*;
use crate::error::RawFailure;
use crate::error::is_transient_error;
use crate::error::spec_transient;
use crate::error::str_eq;

verus! {

/// What a cache entry is stored under: the requested secret identifier and
/// the optional version and staging-label selectors.  An absent selector is
/// a wildcard selecting the current version.
pub struct CacheKey {
    pub secret_id: String,
    pub version: Option<String>,
    pub label: Option<String>,
}

/// The mathematical model of a key.
pub ghost struct KeyView {
    pub id: Seq<char>,
    pub version: Option<Seq<char>>,
    pub label: Option<Seq<char>>,
}

impl View for CacheKey {
    type V = KeyView;

    open spec fn view(&self) -> KeyView {
        KeyView { id: self.secret_id@, version: opt_view(self.version), label: opt_view(self.label) }
    }
}

/// The view of an optional borrowed selector.
pub open spec fn opt_str_view(o: Option<&str>) -> Option<Seq<char>> {
    match o {
        Some(s) => Some(s@),
        None => None,
    }
}

impl CacheKey {
    /// Build the key a request selects: the secret identifier and the
    /// optional version and label selectors.
    pub fn new(secret_id: &str, version: Option<&str>, label: Option<&str>) -> (r: Self)
        ensures
            r@ == (KeyView {
                id: secret_id@,
                version: opt_str_view(version),
                label: opt_str_view(label),
            }),
    {
        CacheKey {
            secret_id: String::from_str(secret_id),
            version: match version {
                Some(v) => Some(String::from_str(v)),
                None => None,
            },
            label: match label {
                Some(l) => Some(String::from_str(l)),
                None => None,
            },
        }
    }
}

impl Clone for CacheKey {
    fn clone(&self) -> (r: Self)
        ensures
            r@ == self@,
    {
        CacheKey {
            secret_id: self.secret_id.clone(),
            version: match &self.version {
                Some(v) => Some(v.clone()),
                None => None,
            },
            label: match &self.label {
                Some(l) => Some(l.clone()),
                None => None,
            },
        }
    }
}

/// The view of an optional selector.
pub open spec fn opt_view(o: Option<String>) -> Option<Seq<char>> {
    match o {
        Some(s) => Some(s@),
        None => None,
    }
}

/// Equality of optional selectors, reflected into the views.
fn opt_str_eq(a: &Option<String>, b: &Option<String>) -> (r: bool)
    ensures
        r == (opt_view(*a) == opt_view(*b)),
{
    match (a, b) {
        (Some(x), Some(y)) => {
            let e = *x == *y;
            proof {
                assert(opt_view(*a) == Some(x@));
                assert(opt_view(*b) == Some(y@));
                assert(e == (opt_view(*a) == opt_view(*b)));
            }
            e
        },
        (None, None) => {
            proof {
                assert(opt_view(*a) is None);
                assert(opt_view(*b) is None);
            }
            true
        },
        (Some(x), None) => {
            proof {
                assert(opt_view(*a) == Some(x@));
            }
            false
        },
        (None, Some(y)) => {
            proof {
                assert(opt_view(*b) == Some(y@));
            }
            false
        },
    }
}

/// Key equality, reflected into the views.
pub fn key_eq(a: &CacheKey, b: &CacheKey) -> (r: bool)
    ensures
        r == (a@ == b@),
{
    let ids = str_eq(a.secret_id.as_str(), b.secret_id.as_str());
    let versions = opt_str_eq(&a.version, &b.version);
    let labels = opt_str_eq(&a.label, &b.label);
    proof {
        assert(a@.version == opt_view(a.version));
        assert(b@.version == opt_view(b.version));
        assert(a@.label == opt_view(a.label));
        assert(b@.label == opt_view(b.label));
        if ids && versions && labels {
            assert(a@ == b@);
        }
    }
    ids && versions && labels
}

/// A secret payload as the upstream source resolved it: the version that was
/// selected, the staging label it carries, and the secret string itself.
pub struct SecretValue {
    pub version_id: String,
    pub version_stage: String,
    pub secret_string: String,
}

/// One cache entry: immutable once created; a refresh replaces it.
pub struct CacheEntry {
    pub key: CacheKey,
    pub value: SecretValue,
    pub fetched_at: u64,
    pub expires_at: u64,
}

/// When an entry fetched at `fetched_at` stops being fresh.
pub open spec fn expiry_of(fetched_at: u64, ttl: u64) -> u64 {
    if fetched_at + ttl <= u64::MAX {
        (fetched_at + ttl) as u64
    } else {
        u64::MAX
    }
}

/// Some entry in `s` is stored under `k`.
pub open spec fn has_key(s: Seq<CacheEntry>, k: KeyView) -> bool {
    exists|i: int| 0 <= i < s.len() && (#[trigger] s[i]).key@ == k
}

/// The index of the entry stored under `k`; meaningful when `has_key` holds
/// and the keys are distinct.
pub open spec fn key_index(s: Seq<CacheEntry>, k: KeyView) -> int {
    choose|i: int| 0 <= i < s.len() && (#[trigger] s[i]).key@ == k
}

/// The entry stored under `k`.
pub open spec fn entry_for(s: Seq<CacheEntry>, k: KeyView) -> CacheEntry {
    s[key_index(s, k)]
}

/// No two entries share a key.
pub open spec fn keys_distinct(s: Seq<CacheEntry>) -> bool {
    forall|i: int, j: int|
        0 <= i < j < s.len() ==> (#[trigger] s[i]).key@ != (#[trigger] s[j]).key@
}

/// Some in-flight record in `s` is for `k`.
pub open spec fn flight_has(s: Seq<CacheKey>, k: KeyView) -> bool {
    exists|i: int| 0 <= i < s.len() && (#[trigger] s[i])@ == k
}

/// No two in-flight records are for the same key.
pub open spec fn flights_distinct(s: Seq<CacheKey>) -> bool {
    forall|i: int, j: int| 0 <= i < j < s.len() ==> (#[trigger] s[i])@ != (#[trigger] s[j])@
}

/// In a table with distinct keys, an entry's index is the key's index.
proof fn lemma_key_index_is(s: Seq<CacheEntry>, k: KeyView, i: int)
    requires
        keys_distinct(s),
        0 <= i < s.len(),
        s[i].key@ == k,
    ensures
        key_index(s, k) == i,
        has_key(s, k),
        entry_for(s, k) == s[i],
{
    assert(has_key(s, k));
    let j = key_index(s, k);
    assert(0 <= j < s.len() && s[j].key@ == k);
    if i < j {
        assert(s[i].key@ != s[j].key@);
    } else if j < i {
        assert(s[j].key@ != s[i].key@);
    }
}

/// The bounded TTL secret cache.
pub struct SecretCache {
    /// Resident entries, least recently used first.
    pub entries: Vec<CacheEntry>,
    /// Keys with an upstream fetch currently in flight.
    pub in_flight: Vec<CacheKey>,
    /// Maximum number of resident entries.
    pub cache_size: usize,
    /// How long a fetched entry stays fresh.
    pub ttl: u64,
    /// Whether a transient upstream failure may be answered from a stale
    /// entry instead of failing.
    pub ignore_transient_errors: bool,
}

impl SecretCache {
    /// The cache's internal invariant: within capacity, one entry per key,
    /// one in-flight record per key.
    pub open spec fn well_formed(self) -> bool {
        &&& 1 <= self.cache_size
        &&& self.entries@.len() <= self.cache_size
        &&& keys_distinct(self.entries@)
        &&& flights_distinct(self.in_flight@)
    }

    /// The configuration is unchanged.
    pub open spec fn same_config(self, o: Self) -> bool {
        &&& self.cache_size == o.cache_size
        &&& self.ttl == o.ttl
        &&& self.ignore_transient_errors == o.ignore_transient_errors
    }

    /// An entry is resident under `k`.
    pub open spec fn has_entry(self, k: KeyView) -> bool {
        has_key(self.entries@, k)
    }

    /// The entry resident under `k`.
    pub open spec fn entry(self, k: KeyView) -> CacheEntry {
        entry_for(self.entries@, k)
    }

    /// A fresh entry is resident under `k`: its TTL has not elapsed.
    pub open spec fn has_fresh(self, k: KeyView, now: u64) -> bool {
        self.has_entry(k) && now < self.entry(k).expires_at
    }

    /// An upstream fetch for `k` is in flight.
    pub open spec fn in_flight_has(self, k: KeyView) -> bool {
        flight_has(self.in_flight@, k)
    }

    /// A request must reach upstream: it is forced, or no fresh entry is
    /// resident.
    pub open spec fn needs_fetch(self, k: KeyView, refresh_now: bool, now: u64) -> bool {
        refresh_now || !self.has_fresh(k, now)
    }

    /// A request for `k` starts a new upstream fetch: one is needed and
    /// none is in flight.
    pub open spec fn starts_fetch(self, k: KeyView, refresh_now: bool, now: u64) -> bool {
        self.needs_fetch(k, refresh_now, now) && !self.in_flight_has(k)
    }

    /// A failed fetch for `k` is answered from the cache: stale-serving is
    /// configured, the failure is transient, and a stale entry is resident.
    pub open spec fn serves_stale(self, k: KeyView, f: RawFailure, now: u64) -> bool {
        &&& self.ignore_transient_errors
        &&& spec_transient(f)
        &&& self.has_entry(k)
        &&& self.entry(k).expires_at <= now
    }

    /// An empty cache with the given configuration.
    pub fn new(cache_size: usize, ttl: u64, ignore_transient_errors: bool) -> (r: Self)
        requires
            1 <= cache_size,
        ensures
            r.well_formed(),
            r.entries@.len() == 0,
            r.in_flight@.len() == 0,
            r.cache_size == cache_size,
            r.ttl == ttl,
            r.ignore_transient_errors == ignore_transient_errors,
    {
        SecretCache {
            entries: Vec::new(),
            in_flight: Vec::new(),
            cache_size,
            ttl,
            ignore_transient_errors,
        }
    }

    /// If a fresh entry is resident under `key`, mark it most recently used
    /// and report it; otherwise change nothing.
    pub fn touch_fresh(&mut self, key: &CacheKey, now: u64) -> (r: bool)
        requires
            old(self).well_formed(),
        ensures
            final(self).well_formed(),
            final(self).same_config(*old(self)),
            final(self).in_flight@ == old(self).in_flight@,
            r == old(self).has_fresh(key@, now),
            !r ==> final(self).entries@ == old(self).entries@,
            r ==> final(self).entries@ == old(self).entries@.remove(
                key_index(old(self).entries@, key@),
            ).push(entry_for(old(self).entries@, key@)),
            r ==> final(self).entries@.len() == old(self).entries@.len() && final(self).entries@.last() == entry_for(old(self).entries@, key@),
            forall|k2: KeyView| #[trigger]
                final(self).has_entry(k2) == old(self).has_entry(k2),
            forall|k2: KeyView|
                old(self).has_entry(k2) ==> #[trigger] final(self).entry(k2) == old(self).entry(
                    k2,
                ),
    {
        let found = find_entry(&self.entries, key);
        match found {
            None => false,
            Some(i) => {
                proof {
                    lemma_key_index_is(self.entries@, key@, i as int);
                }
                if now < self.entries[i].expires_at {
                    let ghost s0 = self.entries@;
                    let e = self.entries.remove(i);
                    self.entries.push(e);
                    proof {
                        lemma_moved_to_back(s0, i as int);
                    }
                    true
                } else {
                    false
                }
            },
        }
    }

    /// Record that this caller fetches `key` upstream unless a fetch for it
    /// is already in flight; reports whether one was.
    pub fn note_in_flight(&mut self, key: &CacheKey) -> (r: bool)
        requires
            old(self).well_formed(),
        ensures
            final(self).well_formed(),
            final(self).same_config(*old(self)),
            final(self).entries@ == old(self).entries@,
            r == old(self).in_flight_has(key@),
            r ==> final(self).in_flight@ == old(self).in_flight@,
            !r ==> final(self).in_flight@.len() == old(self).in_flight@.len() + 1 && final(self).in_flight@.subrange(0, old(self).in_flight@.len() as int) == old(self).in_flight@
                && final(self).in_flight@.last()@ == key@,
            final(self).in_flight_has(key@),
            forall|k2: KeyView| #[trigger]
                final(self).in_flight_has(k2) == (old(self).in_flight_has(k2) || k2 == key@),
    {
        let found = find_flight(&self.in_flight, key);
        match found {
            Some(j) => {
                proof {
                    assert(flight_has(self.in_flight@, key@));
                }
                true
            },
            None => {
                let ghost s0 = self.in_flight@;
                self.in_flight.push(key.clone());
                proof {
                    assert(self.in_flight@[s0.len() as int]@ == key@);
                    assert forall|k2: KeyView| #[trigger]
                        flight_has(self.in_flight@, k2) == (flight_has(s0, k2)
                            || k2 == key@) by {
                        if flight_has(self.in_flight@, k2) {
                            let t = choose|t: int|
                                0 <= t < self.in_flight@.len() && (#[trigger] self.in_flight@[t])@
                                    == k2;
                            if t < s0.len() {
                                assert(s0[t]@ == k2);
                            }
                        }
                        if flight_has(s0, k2) {
                            let t = choose|t: int|
                                0 <= t < s0.len() && (#[trigger] s0[t])@ == k2;
                            assert(self.in_flight@[t]@ == k2);
                        }
                        if k2 == key@ {
                            assert(self.in_flight@[s0.len() as int]@ == k2);
                        }
                    }
                }
                false
            },
        }
    }

    /// Drop the in-flight record for `key`, if any.
    fn clear_in_flight(&mut self, key: &CacheKey)
        requires
            old(self).well_formed(),
        ensures
            final(self).well_formed(),
            final(self).same_config(*old(self)),
            final(self).entries@ == old(self).entries@,
            forall|k2: KeyView| #[trigger]
                final(self).in_flight_has(k2) == (old(self).in_flight_has(k2) && k2 != key@),
    {
        let found = find_flight(&self.in_flight, key);
        match found {
            None => {
                proof {
                    assert forall|k2: KeyView| #[trigger]
                        flight_has(self.in_flight@, k2) == (flight_has(self.in_flight@, k2) && k2
                            != key@) by {
                        if flight_has(self.in_flight@, k2) && k2 == key@ {
                            assert(flight_has(self.in_flight@, key@));
                        }
                    }
                }
            },
            Some(j) => {
                let ghost s0 = self.in_flight@;
                self.in_flight.remove(j);
                proof {
                    s0.remove_ensures(j as int);
                    assert forall|k2: KeyView| #[trigger]
                        flight_has(self.in_flight@, k2) == (flight_has(s0, k2) && k2
                            != key@) by {
                        if flight_has(self.in_flight@, k2) {
                            let t = choose|t: int|
                                0 <= t < self.in_flight@.len() && (#[trigger] self.in_flight@[t])@
                                    == k2;
                            if t < j {
                                assert(s0[t]@ == k2);
                                assert(t != j as int);
                            } else {
                                assert(s0[t + 1]@ == k2);
                                assert(t + 1 != j as int);
                            }
                            assert(k2 != key@);
                        }
                        if flight_has(s0, k2) && k2 != key@ {
                            let t = choose|t: int| 0 <= t < s0.len() && (#[trigger] s0[t])@ == k2;
                            assert(t != j as int);
                            if t < j {
                                assert(self.in_flight@[t]@ == k2);
                            } else {
                                assert(self.in_flight@[t - 1]@ == k2);
                            }
                        }
                    }
                    assert(flights_distinct(self.in_flight@)) by {
                        assert forall|a: int, b: int|
                            0 <= a < b < self.in_flight@.len() implies (
                        #[trigger] self.in_flight@[a])@ != (#[trigger] self.in_flight@[b])@ by {
                            let a0: int = if a < j { a } else { a + 1 };
                            let b0: int = if b < j { b } else { b + 1 };
                            assert(self.in_flight@[a] == s0[a0]);
                            assert(self.in_flight@[b] == s0[b0]);
                        }
                    }
                }
            },
        }
    }

    /// Admit the outcome of a successful upstream fetch for `key`: clear its
    /// in-flight record and install the new entry, replacing an entry under
    /// the same key, and evicting the least recently used entry when a new
    /// key would exceed capacity.
    pub fn store(&mut self, key: &CacheKey, value: SecretValue, now: u64)
        requires
            old(self).well_formed(),
        ensures
            final(self).well_formed(),
            final(self).same_config(*old(self)),
            forall|k2: KeyView| #[trigger]
                final(self).in_flight_has(k2) == (old(self).in_flight_has(k2) && k2 != key@),
            final(self).has_entry(key@),
            final(self).entry(key@) == final(self).entries@.last(),
            final(self).entry(key@).key@ == key@,
            final(self).entry(key@).value == value,
            final(self).entry(key@).fetched_at == now,
            final(self).entry(key@).expires_at == expiry_of(now, old(self).ttl),
            old(self).has_entry(key@) ==> final(self).entries@ == old(self).entries@.remove(
                key_index(old(self).entries@, key@),
            ).push(final(self).entries@.last()),
            !old(self).has_entry(key@) && old(self).entries@.len() < old(self).cache_size ==> final(self).entries@ == old(self).entries@.push(final(self).entries@.last()),
            !old(self).has_entry(key@) && old(self).entries@.len() == old(self).cache_size ==> {
                &&& final(self).entries@ == old(self).entries@.remove(0).push(
                    final(self).entries@.last(),
                )
                &&& !final(self).has_entry(old(self).entries@[0].key@)
            },
    {
        self.clear_in_flight(key);
        let ghost mid = *self;
        let expires_at = if now <= u64::MAX - self.ttl {
            now + self.ttl
        } else {
            u64::MAX
        };
        let entry = CacheEntry { key: key.clone(), value, fetched_at: now, expires_at };
        let ghost e = entry;
        let found = find_entry(&self.entries, key);
        let ghost s0 = self.entries@;
        match found {
            Some(i) => {
                proof {
                    lemma_key_index_is(s0, key@, i as int);
                }
                self.entries.remove(i);
                self.entries.push(entry);
                proof {
                    lemma_replaced_at_back(s0, i as int, e);
                    lemma_key_index_is(self.entries@, key@, self.entries@.len() - 1);
                }
            },
            None => {
                if self.entries.len() == self.cache_size {
                    self.entries.remove(0);
                    self.entries.push(entry);
                    proof {
                        assert(!has_key(s0, key@));
                        lemma_replaced_at_back(s0, 0, e);
                        lemma_key_index_is(self.entries@, key@, self.entries@.len() - 1);
                        assert(!has_key(self.entries@, s0[0].key@)) by {
                            s0.remove_ensures(0);
                            if has_key(self.entries@, s0[0].key@) {
                                let t = choose|t: int|
                                    0 <= t < self.entries@.len() && (#[trigger] self.entries@[t]).key@
                                        == s0[0].key@;
                                if t < self.entries@.len() - 1 {
                                    assert(self.entries@[t] == s0[t + 1]);
                                    assert(s0[0].key@ != s0[t + 1].key@);
                                } else {
                                    assert(self.entries@[t] == e);
                                    assert(has_key(s0, key@));
                                }
                            }
                        }
                    }
                } else {
                    self.entries.push(entry);
                    proof {
                        lemma_key_index_is(self.entries@, key@, self.entries@.len() - 1);
                        assert(keys_distinct(self.entries@)) by {
                            assert forall|a: int, b: int|
                                0 <= a < b < self.entries@.len() implies (
                            #[trigger] self.entries@[a]).key@ != (
                            #[trigger] self.entries@[b]).key@ by {
                                if b == self.entries@.len() - 1 {
                                    assert(self.entries@[a] == s0[a]);
                                    if self.entries@[a].key@ == key@ {
                                        assert(has_key(s0, key@));
                                    }
                                } else {
                                    assert(self.entries@[a] == s0[a]);
                                    assert(self.entries@[b] == s0[b]);
                                }
                            }
                        }
                    }
                }
            },
        }
        proof {
            assert forall|k2: KeyView| #[trigger]
                self.in_flight_has(k2) == (old(self).in_flight_has(k2) && k2 != key@) by {
                assert(mid.in_flight_has(k2) == (old(self).in_flight_has(k2) && k2 != key@));
                assert(self.in_flight@ == mid.in_flight@);
            }
        }
    }

    /// Handle a failed upstream fetch for `key`: clear its in-flight record,
    /// and report the index of the stale entry to serve when the stale-serve
    /// policy applies; the entry table itself never changes.
    pub fn on_fetch_failure(&mut self, key: &CacheKey, failure: &RawFailure, now: u64) -> (r:
        Option<usize>)
        requires
            old(self).well_formed(),
        ensures
            final(self).well_formed(),
            final(self).same_config(*old(self)),
            final(self).entries@ == old(self).entries@,
            forall|k2: KeyView| #[trigger]
                final(self).in_flight_has(k2) == (old(self).in_flight_has(k2) && k2 != key@),
            match r {
                Some(i) => old(self).serves_stale(key@, *failure, now) && i
                    < final(self).entries@.len() && final(self).entries@[i as int] == entry_for(
                    old(self).entries@,
                    key@,
                ),
                None => !old(self).serves_stale(key@, *failure, now),
            },
    {
        self.clear_in_flight(key);
        if self.ignore_transient_errors && is_transient_error(failure) {
            let found = find_entry(&self.entries, key);
            match found {
                Some(i) => {
                    proof {
                        lemma_key_index_is(self.entries@, key@, i as int);
                    }
                    if self.entries[i].expires_at <= now {
                        Some(i)
                    } else {
                        None
                    }
                },
                None => None,
            }
        } else {
            None
        }
    }
}

/// The index of the entry stored under `key`, if any.
fn find_entry(entries: &Vec<CacheEntry>, key: &CacheKey) -> (r: Option<usize>)
    ensures
        match r {
            Some(i) => i < entries@.len() && entries@[i as int].key@ == key@,
            None => !has_key(entries@, key@),
        },
{
    let n = entries.len();
    let mut i: usize = 0;
    while i < n
        invariant
            n == entries@.len(),
            i <= n,
            forall|j: int| 0 <= j < i ==> (#[trigger] entries@[j]).key@ != key@,
        decreases n - i,
    {
        if key_eq(&entries[i].key, key) {
            return Some(i);
        }
        i += 1;
    }
    None
}

/// The index of the in-flight record for `key`, if any.
fn find_flight(flights: &Vec<CacheKey>, key: &CacheKey) -> (r: Option<usize>)
    ensures
        match r {
            Some(i) => i < flights@.len() && flights@[i as int]@ == key@,
            None => !flight_has(flights@, key@),
        },
{
    let n = flights.len();
    let mut i: usize = 0;
    while i < n
        invariant
            n == flights@.len(),
            i <= n,
            forall|j: int| 0 <= j < i ==> (#[trigger] flights@[j])@ != key@,
        decreases n - i,
    {
        if key_eq(&flights[i], key) {
            return Some(i);
        }
        i += 1;
    }
    None
}

/// Removing the entry at `i` and appending `e` keeps every other entry, in
/// order, and keeps the keys distinct when `e`'s key matches the removed
/// entry's key or is absent from `s`.
proof fn lemma_replaced_at_back(s: Seq<CacheEntry>, i: int, e: CacheEntry)
    requires
        keys_distinct(s),
        0 <= i < s.len(),
        s[i].key@ == e.key@ || !has_key(s, e.key@),
    ensures
        keys_distinct(s.remove(i).push(e)),
        s.remove(i).push(e).len() == s.len(),
        s.remove(i).push(e).last() == e,
        forall|k2: KeyView| #[trigger]
            has_key(s.remove(i).push(e), k2) == (has_key(s, k2) && k2 != s[i].key@ || k2 == e.key@),
{
    let t = s.remove(i).push(e);
    s.remove_ensures(i);
    assert forall|a: int, b: int| 0 <= a < b < t.len() implies (#[trigger] t[a]).key@ != (
    #[trigger] t[b]).key@ by {
        if b == t.len() - 1 {
            let a0: int = if a < i {
                a
            } else {
                a + 1
            };
            assert(t[a] == s[a0]);
            assert(t[b] == e);
            if s[a0].key@ == e.key@ {
                if s[i].key@ == e.key@ {
                    assert(a0 != i);
                    assert(s[a0].key@ != s[i].key@);
                } else {
                    assert(has_key(s, e.key@));
                }
            }
        } else {
            let a0: int = if a < i {
                a
            } else {
                a + 1
            };
            let b0: int = if b < i {
                b
            } else {
                b + 1
            };
            assert(t[a] == s[a0]);
            assert(t[b] == s[b0]);
        }
    }
    assert forall|k2: KeyView| #[trigger]
        has_key(t, k2) == (has_key(s, k2) && k2 != s[i].key@ || k2 == e.key@) by {
        if has_key(t, k2) {
            let x = choose|x: int| 0 <= x < t.len() && (#[trigger] t[x]).key@ == k2;
            if x == t.len() - 1 {
                assert(t[x] == e);
            } else {
                let x0: int = if x < i {
                    x
                } else {
                    x + 1
                };
                assert(t[x] == s[x0]);
                assert(x0 != i);
                assert(s[x0].key@ != s[i].key@) by {
                    if x0 < i {
                        assert(s[x0].key@ != s[i].key@);
                    } else {
                        assert(s[i].key@ != s[x0].key@);
                    }
                }
            }
        }
        if has_key(s, k2) && k2 != s[i].key@ {
            let x = choose|x: int| 0 <= x < s.len() && (#[trigger] s[x]).key@ == k2;
            assert(x != i);
            if x < i {
                assert(t[x] == s[x]);
            } else {
                assert(t[x - 1] == s[x]);
            }
        }
        if k2 == e.key@ {
            assert(t[t.len() - 1] == e);
        }
    }
}

/// Moving the entry at `i` to the back keeps the table's contents: the same
/// keys remain resident, under the same entries.
proof fn lemma_moved_to_back(s: Seq<CacheEntry>, i: int)
    requires
        keys_distinct(s),
        0 <= i < s.len(),
    ensures
        keys_distinct(s.remove(i).push(s[i])),
        s.remove(i).push(s[i]).len() == s.len(),
        s.remove(i).push(s[i]).last() == s[i],
        forall|k2: KeyView| #[trigger]
            has_key(s.remove(i).push(s[i]), k2) == has_key(s, k2),
        forall|k2: KeyView|
            has_key(s, k2) ==> #[trigger] entry_for(s.remove(i).push(s[i]), k2) == entry_for(
                s,
                k2,
            ),
{
    let e = s[i];
    let t = s.remove(i).push(e);
    lemma_replaced_at_back(s, i, e);
    assert forall|k2: KeyView| #[trigger] has_key(t, k2) == has_key(s, k2) by {
        if k2 == e.key@ {
            assert(has_key(s, k2));
        }
    }
    assert forall|k2: KeyView| has_key(s, k2) implies #[trigger] entry_for(t, k2) == entry_for(
        s,
        k2,
    ) by {
        s.remove_ensures(i);
        let x = key_index(s, k2);
        assert(0 <= x < s.len() && s[x].key@ == k2);
        if x == i {
            lemma_key_index_is(t, k2, t.len() - 1);
            assert(t[t.len() - 1] == s[i]);
        } else if x < i {
            assert(t[x] == s[x]);
            lemma_key_index_is(t, k2, x);
        } else {
            assert(t[x - 1] == s[x]);
            lemma_key_index_is(t, k2, x - 1);
        }
    }
}

} // verus!
