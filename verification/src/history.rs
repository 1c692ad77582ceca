use crate::digest::fingerprint;
use crate::digest::spec_fingerprint;
use r_cache::cache::Cache;
use vstd::prelude::*;

verus! {

/// How long a delivery is remembered: 72 hours, in seconds.
pub const DEDUPE_TTL_SECS: u64 = 259_200;

/// The longest lifetime, in seconds, that a cache is made with: an entry's
/// end of life has to be a time that the clock can still show.
pub const MAX_TTL_SECS: u64 = 4_294_967_295;

#[verifier::external_type_specification]
#[verifier::external_body]
#[verifier::reject_recursive_types(T)]
#[verifier::reject_recursive_types(V)]
pub struct ExCache<T, V>(Cache<T, V>);

/// The keys that a cache holds, whether their entries have expired or not.
pub uninterp spec fn cache_keys(c: Cache<u128, ()>) -> Set<u128>;

/// The lifetime, in seconds, that a cache gives to an entry.
pub uninterp spec fn cache_ttl_secs(c: Cache<u128, ()>) -> u64;

/// Calls `Cache::new` with a lifetime of `ttl_secs` seconds for its entries.
/// Trusted: the new cache holds no key and gives its entries that lifetime.
#[verifier::external_body]
fn cache_new(ttl_secs: u64) -> (c: Cache<u128, ()>)
    requires
        ttl_secs <= MAX_TTL_SECS,
    ensures
        cache_keys(c) == Set::<u128>::empty(),
        cache_ttl_secs(c) == ttl_secs,
{
    Cache::new(Some(std::time::Duration::from_secs(ttl_secs)))
}

/// Calls `Cache::get`. Trusted: a key that the cache does not hold is not
/// found. A key that it holds is found or not, as its entry has expired or
/// not by the clock.
#[verifier::external_body]
fn cache_get(c: &Cache<u128, ()>, key: u128) -> (hit: bool)
    ensures
        hit ==> cache_keys(*c).contains(key),
{
    c.get(&key).is_some()
}

/// Calls `Cache::set` with the cache's own lifetime. Trusted: the cache holds
/// the key afterwards, and beyond that the keys it held. The call adds the
/// lifetime to the present instant, which fails where the sum is no time
/// that can be shown; so the lifetime is bounded.
#[verifier::external_body]
fn cache_set(c: &mut Cache<u128, ()>, key: u128)
    requires
        cache_ttl_secs(*old(c)) <= MAX_TTL_SECS,
    ensures
        cache_keys(*final(c)) == cache_keys(*old(c)).insert(key),
        cache_ttl_secs(*final(c)) == cache_ttl_secs(*old(c)),
{
    c.set(key, (), None);
}

/// Calls `Cache::remove_expired`. Trusted: the cache gains no key. Which keys
/// leave is for the clock to say.
#[verifier::external_body]
fn cache_remove_expired(c: &mut Cache<u128, ()>)
    ensures
        cache_keys(*final(c)).subset_of(cache_keys(*old(c))),
        cache_ttl_secs(*final(c)) == cache_ttl_secs(*old(c)),
{
    c.remove_expired();
}

/// The record of what was delivered to whom, kept for the dedupe window.
pub struct ForwardHistory {
    cache: Cache<u128, ()>,
}

/// The fingerprints of the deliveries of `url` to the first `n` of `tenants`.
pub open spec fn fingerprints(tenants: Seq<i64>, url: Seq<char>, n: int) -> Set<u128> {
    Set::new(|k: u128| exists|i: int| 0 <= i < n && k == #[trigger] spec_fingerprint(tenants[i], url))
}

impl ForwardHistory {
    /// The fingerprints on record, whether they have expired or not.
    pub closed spec fn keys(&self) -> Set<u128> {
        cache_keys(self.cache)
    }

    /// The lifetime of a record, in seconds.
    pub closed spec fn ttl_secs(&self) -> u64 {
        cache_ttl_secs(self.cache)
    }

    /// The history is well formed: the lifetime of its records is one that
    /// the clock can add to the present.
    pub open spec fn wf(&self) -> bool {
        self.ttl_secs() <= MAX_TTL_SECS
    }

    /// An empty record whose entries live for the dedupe window.
    pub fn new() -> (h: ForwardHistory)
        ensures
            h.wf(),
            h.keys() == Set::<u128>::empty(),
            h.ttl_secs() == DEDUPE_TTL_SECS,
    {
        ForwardHistory { cache: cache_new(DEDUPE_TTL_SECS) }
    }

    /// Whether a delivery with this fingerprint is on record and still
    /// within its lifetime. One that is not on record is never reported.
    pub fn get(&self, key: u128) -> (hit: bool)
        ensures
            hit ==> self.keys().contains(key),
    {
        cache_get(&self.cache, key)
    }

    /// Puts a delivery on record.
    pub fn set(&mut self, key: u128)
        requires
            old(self).wf(),
        ensures
            final(self).wf(),
            final(self).keys() == old(self).keys().insert(key),
            final(self).ttl_secs() == old(self).ttl_secs(),
    {
        cache_set(&mut self.cache, key);
    }

    /// Drops the records whose lifetime is over. No record is added.
    pub fn remove_expired(&mut self)
        ensures
            old(self).wf() ==> final(self).wf(),
            final(self).keys().subset_of(old(self).keys()),
            final(self).ttl_secs() == old(self).ttl_secs(),
    {
        cache_remove_expired(&mut self.cache);
    }

    /// Looks up the delivery of `url` to each of `tenants` in turn, and puts
    /// on record each one that was not found. The answer says for each
    /// tenant whether its delivery was found.
    pub fn screen(&mut self, tenants: &Vec<i64>, url: &str) -> (hits: Vec<bool>)
        requires
            old(self).wf(),
        ensures
            final(self).wf(),
            hits.len() == tenants.len(),
            final(self).ttl_secs() == old(self).ttl_secs(),
            final(self).keys() == old(self).keys().union(
                fingerprints(tenants@, url@, tenants.len() as int),
            ),
            forall|i: int|
                0 <= i < hits.len() && #[trigger] hits[i] ==> old(self).keys().union(
                    fingerprints(tenants@, url@, i),
                ).contains(spec_fingerprint(tenants[i], url@)),
    {
        let mut hits: Vec<bool> = Vec::new();
        let mut i: usize = 0;
        proof {
            assert(self.keys() =~= old(self).keys().union(fingerprints(tenants@, url@, 0)));
        }
        while i < tenants.len()
            invariant
                i <= tenants.len(),
                hits.len() == i,
                self.wf(),
                self.ttl_secs() == old(self).ttl_secs(),
                self.keys() == old(self).keys().union(fingerprints(tenants@, url@, i as int)),
                forall|j: int|
                    0 <= j < i && #[trigger] hits[j] ==> old(self).keys().union(
                        fingerprints(tenants@, url@, j),
                    ).contains(spec_fingerprint(tenants[j], url@)),
            decreases tenants.len() - i,
        {
            let key = fingerprint(tenants[i], url);
            let hit = self.get(key);
            if !hit {
                self.set(key);
            }
            hits.push(hit);
            proof {
                let grown = old(self).keys().union(fingerprints(tenants@, url@, i + 1));
                assert forall|k: u128| self.keys().contains(k) <==> grown.contains(k) by {
                    if fingerprints(tenants@, url@, i + 1).contains(k) {
                        let j = choose|j: int|
                            0 <= j < i + 1 && k == #[trigger] spec_fingerprint(tenants@[j], url@);
                        if j < i {
                            assert(fingerprints(tenants@, url@, i as int).contains(k));
                        }
                    }
                    if fingerprints(tenants@, url@, i as int).contains(k) {
                        let j = choose|j: int|
                            0 <= j < i && k == #[trigger] spec_fingerprint(tenants@[j], url@);
                        assert(fingerprints(tenants@, url@, i + 1).contains(k));
                    }
                    assert(key == spec_fingerprint(tenants@[i as int], url@));
                }
                assert(self.keys() =~= grown);
            }
            i += 1;
        }
        hits
    }
}

} // verus!
