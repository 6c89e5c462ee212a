//! The cache of recently expired peers, kept in a bounded LRU cache from the
//! `lru` crate: it maps a peer to the time (in seconds) it was expired.

use vstd::prelude::*;

verus! {

#[verifier::external_type_specification]
#[verifier::external_body]
#[verifier::reject_recursive_types(K)]
#[verifier::reject_recursive_types(V)]
#[verifier::reject_recursive_types(S)]
pub struct ExLruCache<K, V, S>(lru::LruCache<K, V, S>);

#[verifier::external_type_specification]
#[verifier::external_body]
pub struct ExLruHasher(lru::DefaultHasher);

/// The LRU cache of expired peers: peer to expiry time
pub type ExpiryLru = lru::LruCache<u64, u64>;

/// The entries an LRU cache holds
pub uninterp spec fn lru_entries(c: ExpiryLru) -> Map<u64, u64>;

/// The number of entries an LRU cache was created to hold
pub uninterp spec fn lru_capacity(c: ExpiryLru) -> nat;

/// Relies on `lru::LruCache::new`: an empty cache holding at most `cap`
/// entries (`cap` is nonzero).
#[verifier::external_body]
pub(crate) fn lru_new(cap: usize) -> (r: ExpiryLru)
    requires
        cap > 0,
    ensures
        lru_entries(r).dom().is_empty(),
        lru_capacity(r) == cap,
{
    lru::LruCache::new(std::num::NonZeroUsize::new(cap).unwrap())
}

/// Relies on `lru::LruCache::get`: the value under the key, if any; the
/// lookup only reorders the entries.
#[verifier::external_body]
pub(crate) fn lru_get(c: &mut ExpiryLru, k: u64) -> (r: Option<u64>)
    ensures
        lru_entries(*final(c)) == lru_entries(*old(c)),
        lru_capacity(*final(c)) == lru_capacity(*old(c)),
        r == (if lru_entries(*old(c)).contains_key(k) {
            Some(lru_entries(*old(c))[k])
        } else {
            None
        }),
{
    c.get(&k).copied()
}

/// Relies on `lru::LruCache::put`: the key now maps to the value; when the
/// key was absent and the cache full, the least recently used entry is
/// evicted, and no other entry is touched.
#[verifier::external_body]
pub(crate) fn lru_put(c: &mut ExpiryLru, k: u64, v: u64)
    ensures
        lru_capacity(*final(c)) == lru_capacity(*old(c)),
        lru_entries(*final(c)).contains_key(k),
        lru_entries(*final(c))[k] == v,
        forall|j: u64| #[trigger] lru_entries(*final(c)).contains_key(j) && j != k ==> lru_entries(*old(c)).contains_key(j)
            && lru_entries(*final(c))[j] == lru_entries(*old(c))[j],
        lru_entries(*old(c)).contains_key(k) || lru_entries(*old(c)).dom().len() < lru_capacity(*old(c)) ==> forall|j: u64|
            #[trigger] lru_entries(*old(c)).contains_key(j) && j != k ==> lru_entries(*final(c)).contains_key(j),
{
    c.put(k, v);
}

/// Relies on `lru::LruCache::pop_entry`: the key's entry is removed.
#[verifier::external_body]
pub(crate) fn lru_pop(c: &mut ExpiryLru, k: u64)
    ensures
        lru_capacity(*final(c)) == lru_capacity(*old(c)),
        lru_entries(*final(c)) == lru_entries(*old(c)).remove(k),
{
    c.pop_entry(&k);
}

/// The number of peers whose expiry is remembered
pub const EXPIRY_CACHE_SIZE: usize = 100;

/// The peers expired recently, with the time (in seconds) each was expired
pub struct PeerExpiryCache {
    cache: ExpiryLru,
}

impl PeerExpiryCache {
    /// The remembered expiries, by peer
    pub closed spec fn entries(&self) -> Map<u64, u64> {
        lru_entries(self.cache)
    }

    /// The number of peers the cache remembers at most
    pub closed spec fn capacity(&self) -> nat {
        lru_capacity(self.cache)
    }

    /// An empty cache
    pub fn new() -> (r: PeerExpiryCache)
        ensures
            r.entries().dom().is_empty(),
            r.capacity() == EXPIRY_CACHE_SIZE,
    {
        PeerExpiryCache { cache: lru_new(EXPIRY_CACHE_SIZE) }
    }

    /// When the peer was expired, if that is remembered
    pub fn get(&mut self, peer: u64) -> (r: Option<u64>)
        ensures
            final(self).entries() == old(self).entries(),
            final(self).capacity() == old(self).capacity(),
            r == (if old(self).entries().contains_key(peer) {
                Some(old(self).entries()[peer])
            } else {
                None
            }),
    {
        lru_get(&mut self.cache, peer)
    }

    /// Remembers that the peer was expired at `at`; the entry of the least
    /// recently used other peer may be forgotten to make room
    pub fn put(&mut self, peer: u64, at: u64)
        ensures
            final(self).entries().contains_key(peer),
            final(self).entries()[peer] == at,
            forall|j: u64| #[trigger] final(self).entries().contains_key(j) && j != peer ==> old(self).entries().contains_key(j)
                && final(self).entries()[j] == old(self).entries()[j],
            old(self).entries().contains_key(peer) || old(self).entries().dom().len() < old(self).capacity() ==> forall|j: u64|
                #[trigger] old(self).entries().contains_key(j) && j != peer ==> final(self).entries().contains_key(j),
            final(self).capacity() == old(self).capacity(),
    {
        lru_put(&mut self.cache, peer, at);
    }

    /// Forgets the peer's expiry
    pub fn pop(&mut self, peer: u64)
        ensures
            final(self).entries() == old(self).entries().remove(peer),
            final(self).capacity() == old(self).capacity(),
    {
        lru_pop(&mut self.cache, peer);
    }
}

} // verus!
