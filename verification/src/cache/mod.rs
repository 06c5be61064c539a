//! Caches for the results of static predicates, the fetcher that goes
//! through a cache, and the statistics of its hits and misses.

pub mod gdsf_cache;

use vstd::prelude::*;
use core::hash::{BuildHasher, Hasher};
use core::marker::PhantomData;
use vstd::laws_eq::obeys_concrete_eq;
use self::gdsf_cache::{GDSFCache, HasCost, HasSize, key_index, law_insert_then_lookup, law_read_keeps_values, touched, value_of, law_rejected_forgets, law_remove_forgets, priority_fits, touch_fits};

verus! {

/// A cache of values by key.
pub trait Cache: Sized {
    type K;
    type V;

    /// The invariant of the cache.
    spec fn inv(&self) -> bool;

    /// The value cached under a key, if any.
    spec fn cached(&self, k: Self::K) -> Option<Self::V>;

    /// Whether storing `v` under `k` stays within the cache's arithmetic.
    spec fn can_store(&self, k: Self::K, v: Self::V) -> bool;

    /// Whether reading `k` stays within the cache's arithmetic.
    spec fn can_fetch(&self, k: Self::K) -> bool;

    /// Whether storing `v` under `k` stays within the cache's arithmetic.
    fn can_keep(&self, k: &Self::K, v: &Self::V) -> (r: bool)
        requires
            self.inv(),
        ensures
            r == self.can_store(*k, *v),
    ;

    /// Stores a value under a key: a reference to the stored value, or the
    /// value itself when the cache does not keep it.
    fn store(&mut self, k: Self::K, v: Self::V) -> (r: Result<&Self::V, Self::V>)
        requires
            old(self).inv(),
            old(self).can_store(k, v),
        ensures
            final(self).inv(),
            match r {
                Ok(x) => *x == v && final(self).cached(k) == Some(v),
                Err(x) => x == v && final(self).cached(k) is None,
            },
    ;

    /// The value cached under a key, if any; reading changes no value the
    /// cache holds.
    fn fetch(&mut self, k: &Self::K) -> (r: Option<&Self::V>)
        requires
            old(self).inv(),
            old(self).can_fetch(*k),
        ensures
            final(self).inv(),
            forall|k2: Self::K| #[trigger] final(self).cached(k2) == old(self).cached(k2),
            match r {
                Some(x) => old(self).cached(*k) == Some(*x),
                None => old(self).cached(*k) is None,
            },
    ;

    /// Whether a value is cached under a key; the cache does not change.
    fn contains(&mut self, k: &Self::K) -> (r: bool)
        requires
            old(self).inv(),
        ensures
            *final(self) == *old(self),
            r == old(self).cached(*k) is Some,
    ;

    /// Removes the value cached under a key and gives it back.
    fn remove(&mut self, k: &Self::K) -> (r: Option<Self::V>)
        requires
            old(self).inv(),
        ensures
            final(self).inv(),
            r == old(self).cached(*k),
            final(self).cached(*k) is None,
    ;
}

/// What computes the value of a key when the cache does not hold it.
pub trait Fetcher<K, V> {
    fn fetch(&self, key: &K) -> V;
}

/// A fetched value: a reference into the cache, or a value the cache did
/// not keep.
#[derive(Debug)]
pub enum FetchedValue<'a, V> {
    Cached(&'a V),
    Uncached(V),
}

/// The number of hits and misses of a fetcher and the time they took.
#[derive(Debug)]
pub struct HitMissCounter {
    hit: usize,
    ind_hit: usize,
    miss: usize,
    last: usize,
    hit_time: usize,
    miss_time: usize,
}

impl HitMissCounter {
    /// The number of hits.
    pub closed spec fn hits(&self) -> usize {
        self.hit
    }

    /// The number of hits on a key other than the one before.
    pub closed spec fn independent_hits(&self) -> usize {
        self.ind_hit
    }

    /// The number of misses.
    pub closed spec fn misses(&self) -> usize {
        self.miss
    }

    /// The hash of the last key looked up, as a `usize`.
    pub closed spec fn last_key(&self) -> usize {
        self.last
    }

    /// The total time of the hits, in nanoseconds.
    pub closed spec fn hits_time(&self) -> usize {
        self.hit_time
    }

    /// The total time of the misses, in nanoseconds.
    pub closed spec fn misses_time(&self) -> usize {
        self.miss_time
    }

    /// A counter with everything at zero.
    pub fn new() -> (r: Self)
        ensures
            r.hits() == 0 && r.independent_hits() == 0 && r.misses() == 0,
            r.last_key() == 0 && r.hits_time() == 0 && r.misses_time() == 0,
    {
        HitMissCounter { hit: 0, ind_hit: 0, miss: 0, last: 0, hit_time: 0, miss_time: 0 }
    }

    /// Counts a hit on the key of hash `hash` that took `time` nanoseconds;
    /// the counters wrap around.
    pub fn hit(&mut self, hash: u64, time: i64)
        ensures
            final(self).independent_hits() == (if hash as usize != old(self).last_key() {
                old(self).independent_hits().wrapping_add(1)
            } else {
                old(self).independent_hits()
            }),
            final(self).hits() == old(self).hits().wrapping_add(1),
            final(self).hits_time() == old(self).hits_time().wrapping_add(time as usize),
            final(self).last_key() == hash as usize,
            final(self).misses() == old(self).misses(),
            final(self).misses_time() == old(self).misses_time(),
    {
        if hash as usize != self.last {
            self.ind_hit = self.ind_hit.wrapping_add(1);
        }
        self.hit = self.hit.wrapping_add(1);
        self.hit_time = self.hit_time.wrapping_add(time as usize);
        self.last = hash as usize;
    }

    /// Counts a miss on the key of hash `hash` that took `time` nanoseconds;
    /// the counters wrap around.
    pub fn miss(&mut self, hash: u64, time: i64)
        ensures
            final(self).misses() == old(self).misses().wrapping_add(1),
            final(self).misses_time() == old(self).misses_time().wrapping_add(time as usize),
            final(self).last_key() == hash as usize,
            final(self).hits() == old(self).hits(),
            final(self).independent_hits() == old(self).independent_hits(),
            final(self).hits_time() == old(self).hits_time(),
    {
        self.miss = self.miss.wrapping_add(1);
        self.miss_time = self.miss_time.wrapping_add(time as usize);
        self.last = hash as usize;
    }

    /// The counters: hits, independent hits, misses, and the total times of
    /// hits and misses.
    pub fn counts(&self) -> (r: (usize, usize, usize, usize, usize))
        ensures
            r == (self.hits(), self.independent_hits(), self.misses(), self.hits_time(), self.misses_time()),
    {
        (self.hit, self.ind_hit, self.miss, self.hit_time, self.miss_time)
    }
}

impl Default for HitMissCounter {
    fn default() -> (r: Self)
        ensures
            r.hits() == 0 && r.independent_hits() == 0 && r.misses() == 0,
            r.last_key() == 0 && r.hits_time() == 0 && r.misses_time() == 0,
    {
        HitMissCounter::new()
    }
}

/// The current time in nanoseconds since the epoch, as `chrono::Utc::now`
/// reads it, or `None` for a clock before the epoch or beyond what
/// nanoseconds in an `i64` can hold. The system time goes through chrono's
/// `DateTime::from_timestamp` and `timestamp_nanos_opt`, which give `None`
/// out of range, where `Utc::now` would panic on a clock before the epoch.
/// Nothing is claimed of the value: it depends on the clock.
#[verifier::external_body]
fn now_nanos() -> (r: Option<i64>) {
    match std::time::SystemTime::now().duration_since(std::time::UNIX_EPOCH) {
        Ok(d) => match i64::try_from(d.as_secs()) {
            Ok(secs) => chrono::DateTime::<chrono::Utc>::from_timestamp(secs, d.subsec_nanos())
                .and_then(|t| t.timestamp_nanos_opt()),
            Err(_) => None,
        },
        Err(_) => None,
    }
}

/// The nanoseconds between two readings of the clock; zero when a reading
/// failed or the difference does not fit.
fn elapsed(start: Option<i64>, end: Option<i64>) -> (r: i64)
    ensures
        match (start, end) {
            (Some(a), Some(b)) => if i64::MIN <= b - a <= i64::MAX { r == b - a } else { r == 0 },
            _ => r == 0,
        },
{
    match (start, end) {
        (Some(a), Some(b)) => match b.checked_sub(a) {
            Some(d) => d,
            None => 0,
        },
        _ => 0,
    }
}

/// A fetcher that goes through a cache: it counts a hit when the cache holds
/// the key, and otherwise fetches the value and stores it.
#[derive(Debug)]
pub struct CachedFetcher<C, F> {
    pub cache: C,
    pub fetcher: F,
    stat: HitMissCounter,
}

impl<C: Cache, F: Fetcher<C::K, C::V>> CachedFetcher<C, F> {
    /// The statistics of the fetcher.
    pub closed spec fn stats(&self) -> HitMissCounter {
        self.stat
    }

    /// The cache the fetcher goes through.
    pub closed spec fn cache_state(&self) -> C {
        self.cache
    }

    /// What fetches the values the cache does not hold.
    pub closed spec fn fetcher_state(&self) -> F {
        self.fetcher
    }

    /// A fetcher with a fresh cache, which holds no key.
    pub fn new(fetcher: F, stat: HitMissCounter) -> (r: Self)
        where
            C: FreshCache,
        ensures
            r.fetcher_state() == fetcher,
            r.stats() == stat,
            r.cache_state().inv(),
            forall|k: C::K| #[trigger] r.cache_state().cached(k) is None,
    {
        CachedFetcher { cache: C::fresh(), fetcher, stat }
    }

    /// Settles a value fetched on a miss: stored in the cache when the cache
    /// keeps it and can rank it, and given back either way.
    pub fn settle(&mut self, key: C::K, value: C::V) -> (r: FetchedValue<'_, C::V>)
        requires
            old(self).cache_state().inv(),
            old(self).cache_state().cached(key) is None,
        ensures
            final(self).cache_state().inv(),
            final(self).fetcher_state() == old(self).fetcher_state(),
            final(self).stats() == old(self).stats(),
            match r {
                FetchedValue::Cached(v) => *v == value && final(self).cache_state().cached(key) == Some(value),
                FetchedValue::Uncached(v) => v == value && final(self).cache_state().cached(key) is None,
            },
    {
        if self.cache.can_keep(&key, &value) {
            match self.cache.store(key, value) {
                Ok(v) => FetchedValue::Cached(v),
                Err(v) => FetchedValue::Uncached(v),
            }
        } else {
            FetchedValue::Uncached(value)
        }
    }

    /// A fetcher that goes through the given cache.
    pub fn with_cache(cache: C, fetcher: F, stat: HitMissCounter) -> (r: Self)
        ensures
            r.cache_state() == cache,
            r.fetcher_state() == fetcher,
            r.stats() == stat,
    {
        CachedFetcher { cache, fetcher, stat }
    }

    /// The value of a key, whose hash is `key_hash`: from the cache when it
    /// holds the key (a hit), else fetched and stored in the cache when the
    /// cache keeps it (a miss); a value the cache cannot rank without
    /// overflow is handed back without being stored.
    pub fn fetch(&mut self, key: C::K, key_hash: u64) -> (r: FetchedValue<'_, C::V>)
        requires
            old(self).cache_state().inv(),
            old(self).cache_state().can_fetch(key),
        ensures
            final(self).cache_state().inv(),
            final(self).fetcher_state() == old(self).fetcher_state(),
            match old(self).cache_state().cached(key) {
                Some(v) => r == FetchedValue::Cached(&v)
                    && (forall|k2: C::K| #[trigger] final(self).cache_state().cached(k2) == old(self).cache_state().cached(k2))
                    && final(self).stats().hits() == old(self).stats().hits().wrapping_add(1)
                    && final(self).stats().misses() == old(self).stats().misses(),
                None => final(self).stats().misses() == old(self).stats().misses().wrapping_add(1)
                    && final(self).stats().hits() == old(self).stats().hits()
                    && match r {
                        FetchedValue::Cached(v) => final(self).cache_state().cached(key) == Some(*v),
                        FetchedValue::Uncached(v) => final(self).cache_state().cached(key) is None,
                    },
            },
    {
        let start = now_nanos();
        if self.cache.contains(&key) {
            let end = now_nanos();
            self.stat.hit(key_hash, elapsed(start, end));
            match self.cache.fetch(&key) {
                Some(v) => FetchedValue::Cached(v),
                None => {
                    proof {
                        assert(false);
                    }
                    FetchedValue::Uncached(self.fetcher.fetch(&key))
                },
            }
        } else {
            let value = self.fetcher.fetch(&key);
            let end = now_nanos();
            self.stat.miss(key_hash, elapsed(start, end));
            self.settle(key, value)
        }
    }
}

/// A cache that can be made empty.
pub trait FreshCache: Cache {
    /// A cache that holds no key.
    fn fresh() -> (r: Self)
        ensures
            r.inv(),
            forall|k: Self::K| #[trigger] r.cached(k) is None,
    ;
}

/// A cache that keeps nothing.
#[derive(Debug)]
pub struct DummyCache<K, V>(PhantomData<K>, PhantomData<V>);

impl<K, V> Clone for DummyCache<K, V> {
    fn clone(&self) -> (r: Self)
        ensures
            forall|k: K| r.cached(k) is None,
    {
        DummyCache::new()
    }
}

impl<K, V> DummyCache<K, V> {
    pub fn new() -> (r: Self)
        ensures
            forall|k: K| r.cached(k) is None,
    {
        DummyCache(PhantomData, PhantomData)
    }
}

impl<K, V> FreshCache for DummyCache<K, V> {
    fn fresh() -> (r: Self) {
        DummyCache::new()
    }
}

impl<K, V> Default for DummyCache<K, V> {
    fn default() -> (r: Self)
        ensures
            forall|k: K| r.cached(k) is None,
    {
        DummyCache::new()
    }
}

impl<K, V> Cache for DummyCache<K, V> {
    type K = K;
    type V = V;

    open spec fn inv(&self) -> bool {
        true
    }

    open spec fn cached(&self, k: K) -> Option<V> {
        None
    }

    open spec fn can_store(&self, k: K, v: V) -> bool {
        true
    }

    open spec fn can_fetch(&self, k: K) -> bool {
        true
    }

    fn can_keep(&self, k: &K, v: &V) -> (r: bool) {
        true
    }

    fn store(&mut self, k: K, v: V) -> (r: Result<&V, V>) {
        Err(v)
    }

    fn fetch(&mut self, k: &K) -> (r: Option<&V>) {
        None
    }

    fn contains(&mut self, k: &K) -> (r: bool) {
        false
    }

    fn remove(&mut self, k: &K) -> (r: Option<V>) {
        None
    }
}

impl<K: Eq, V: HasSize + HasCost> Cache for GDSFCache<K, V> {
    type K = K;
    type V = V;

    open spec fn inv(&self) -> bool {
        self.wf() && obeys_concrete_eq::<K>()
    }

    open spec fn cached(&self, k: K) -> Option<V> {
        value_of(self.slots(), k)
    }

    open spec fn can_store(&self, k: K, v: V) -> bool {
        priority_fits(self.spec_clock() as int, 1, v.spec_cost() as int, v.spec_size() as int)
    }

    open spec fn can_fetch(&self, k: K) -> bool {
        key_index(self.slots(), k) matches Some(i) ==> touch_fits(self.slots(), i, self.spec_clock() as int)
    }

    fn can_keep(&self, k: &K, v: &V) -> (r: bool) {
        self.fits(v)
    }

    fn store(&mut self, k: K, v: V) -> (r: Result<&V, V>) {
        proof {
            self.lemma_wf_unique_keys();
            law_insert_then_lookup(
                self.spec_capacity() as int,
                self.spec_used() as int,
                self.spec_clock() as int,
                self.slots(),
                k,
                v,
            );
            law_rejected_forgets(
                self.spec_capacity() as int,
                self.spec_used() as int,
                self.spec_clock() as int,
                self.slots(),
                k,
                v,
            );
        }
        self.insert(k, v)
    }

    fn fetch(&mut self, k: &K) -> (r: Option<&V>) {
        let ghost s = self.slots();
        let ghost c = self.spec_clock() as int;
        proof {
            self.lemma_wf_unique_keys();
            if let Some(i) = key_index(s, *k) {
                assert forall|k2: K| #[trigger] value_of(touched(s, i, c), k2) == value_of(s, k2) by {
                    law_read_keeps_values(s, i, c, k2);
                }
            }
        }
        self.get(k)
    }

    fn contains(&mut self, k: &K) -> (r: bool) {
        self.contains_key(k)
    }

    fn remove(&mut self, k: &K) -> (r: Option<V>) {
        proof {
            self.lemma_wf_unique_keys();
            law_remove_forgets(self.slots(), *k);
        }
        GDSFCache::remove(self, k)
    }
}


/// `Hasher::finish` of the wrapped hasher. Nothing is claimed of the hash:
/// hashers may be seeded per process.
#[verifier::external_body]
fn inner_finish<H: Hasher>(hasher: &H) -> u64 {
    hasher.finish()
}

/// `Hasher::write` on the wrapped hasher.
#[verifier::external_body]
fn inner_write<H: Hasher>(hasher: &mut H, bytes: &[u8]) {
    hasher.write(bytes)
}

/// `BuildHasher::build_hasher` of the wrapped builder.
#[verifier::external_body]
fn inner_build<S: BuildHasher>(builder: &S) -> S::Hasher {
    builder.build_hasher()
}

/// A hasher whose hashes are those of another hasher modulo `modulus`, so
/// that keys collide on purpose in a table of `modulus` buckets.
pub struct ModHasher<H> {
    hasher: H,
    modulus: u64,
    written: Ghost<Seq<u8>>,
}

impl<H> ModHasher<H> {
    /// The number of distinct hashes.
    pub closed spec fn spec_modulus(&self) -> u64 {
        self.modulus
    }

    /// The bytes fed to the wrapped hasher so far, in order.
    pub closed spec fn written(&self) -> Seq<u8> {
        self.written@
    }
}

impl<H: Hasher> Hasher for ModHasher<H> {
    /// The inner hash modulo the modulus (a builder never makes a hasher
    /// whose modulus is zero).
    fn finish(&self) -> (r: u64)
        ensures
            self.spec_modulus() > 0 ==> r < self.spec_modulus(),
    {
        let h = inner_finish(&self.hasher);
        if self.modulus > 0 {
            h % self.modulus
        } else {
            h
        }
    }

    /// Feeds the bytes to the wrapped hasher.
    fn write(&mut self, bytes: &[u8])
        ensures
            final(self).written() == old(self).written() + bytes@,
            final(self).spec_modulus() == old(self).spec_modulus(),
    {
        inner_write(&mut self.hasher, bytes);
        self.written = Ghost(self.written@ + bytes@);
    }
}

/// A builder of [`ModHasher`]s around the hashers of another builder.
#[derive(Debug)]
pub struct ModBuildHasher<S> {
    hash_builder: S,
    modulus: u64,
}

impl<S> ModBuildHasher<S> {
    /// The modulus is never zero.
    #[verifier::type_invariant]
    spec fn modulus_positive(self) -> bool {
        self.modulus > 0
    }

    /// The number of distinct hashes.
    pub closed spec fn spec_modulus(&self) -> u64 {
        self.modulus
    }

    /// The builder around a default builder of type `S`.
    pub fn new(modulus: u64) -> (r: Self)
        where
            S: Default,
        requires
            modulus > 0,
        ensures
            r.spec_modulus() == modulus,
    {
        ModBuildHasher { hash_builder: S::default(), modulus }
    }

    /// The builder around the given builder.
    pub fn with_modulus_and_hasher(modulus: u64, hash_builder: S) -> (r: Self)
        requires
            modulus > 0,
        ensures
            r.spec_modulus() == modulus,
    {
        ModBuildHasher { hash_builder, modulus }
    }
}

impl<S: BuildHasher> BuildHasher for ModBuildHasher<S> {
    type Hasher = ModHasher<S::Hasher>;

    fn build_hasher(&self) -> (r: ModHasher<S::Hasher>)
        ensures
            r.spec_modulus() == self.spec_modulus(),
            r.written() == Seq::<u8>::empty(),
    {
        proof {
            use_type_invariant(self);
        }
        ModHasher { hasher: inner_build(&self.hash_builder), modulus: self.modulus, written: Ghost(Seq::empty()) }
    }
}

/// A value that can be turned into an owned `T`.
pub trait Ownable<T>: Sized {
    /// Whether `r` is what turning this value into an owned `T` gives.
    spec fn owned_as(&self, r: T) -> bool;

    fn into_owned(self) -> (r: T)
        ensures
            self.owned_as(r),
    ;
}

impl<T> Ownable<T> for T {
    /// The value itself.
    open spec fn owned_as(&self, r: T) -> bool {
        r == *self
    }

    fn into_owned(self) -> (r: T) {
        self
    }
}

impl<'a, T: Clone> Ownable<T> for &'a T {
    /// A clone of the referenced value.
    open spec fn owned_as(&self, r: T) -> bool {
        cloned::<T>(**self, r)
    }

    fn into_owned(self) -> (r: T) {
        self.clone()
    }
}

impl<T> Ownable<T> for Box<T> {
    /// The boxed value, moved out of the box.
    open spec fn owned_as(&self, r: T) -> bool {
        r == **self
    }

    fn into_owned(self) -> (r: T) {
        *self
    }
}

} // verus!
