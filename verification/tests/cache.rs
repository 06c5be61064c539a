use std::collections::HashMap;
use std::hash::{BuildHasher, Hasher};
use trex::cache::gdsf_cache::GDSFCache;
use trex::cache::{Cache, CachedFetcher, DummyCache, FetchedValue, Fetcher, HitMissCounter, ModBuildHasher, Ownable};
use trex::expressions::Value;
use trex::sqlite::{CacheEntry, CacheEntryValue};

struct Doubler;

impl Fetcher<usize, CacheEntry> for Doubler {
    fn fetch(&self, key: &usize) -> CacheEntry {
        CacheEntry::new(key * 2, CacheEntryValue::Count(*key))
    }
}

fn count_of(v: &FetchedValue<CacheEntry>) -> (bool, usize) {
    match v {
        FetchedValue::Cached(e) => (true, match e.value() {
            CacheEntryValue::Count(n) => *n,
            _ => usize::MAX,
        }),
        FetchedValue::Uncached(e) => (false, match e.value() {
            CacheEntryValue::Count(n) => *n,
            _ => usize::MAX,
        }),
    }
}

#[test]
fn dummy_cache_keeps_nothing() {
    let mut cache: DummyCache<usize, usize> = DummyCache::new();
    assert_eq!(cache.store(1, 10), Err(10));
    assert!(!cache.contains(&1));
    assert_eq!(cache.fetch(&1), None);
    assert_eq!(cache.remove(&1), None);
}

#[test]
fn gdsf_cache_as_a_cache() {
    let mut cache = GDSFCache::<usize, CacheEntry>::new(10);
    assert!(cache.store(1, CacheEntry::new(4, CacheEntryValue::Count(7))).is_ok());
    assert!(cache.contains(&1));
    assert!(matches!(cache.fetch(&1).map(|e| e.value()), Some(CacheEntryValue::Count(7))));
    assert!(Cache::remove(&mut cache, &1).is_some());
    assert!(!cache.contains(&1));
}

#[test]
fn fetcher_counts_hits_and_misses() {
    let mut fetcher = CachedFetcher::with_cache(GDSFCache::<usize, CacheEntry>::new(10), Doubler, HitMissCounter::new());
    assert_eq!(count_of(&fetcher.fetch(3, 3)), (true, 3));
    assert_eq!(count_of(&fetcher.fetch(3, 3)), (true, 3));
    assert_eq!(count_of(&fetcher.fetch(4, 4)), (true, 4));
    let mut dummy: CachedFetcher<DummyCache<usize, CacheEntry>, Doubler> = CachedFetcher::new(Doubler, HitMissCounter::new());
    assert_eq!(count_of(&dummy.fetch(5, 5)), (false, 5));
}

#[test]
fn hit_miss_counter_counts() {
    let mut c = HitMissCounter::new();
    c.hit(7, 100);
    c.hit(7, 50);
    c.hit(8, 10);
    c.miss(9, 1000);
    assert_eq!(c.counts(), (3, 2, 1, 160, 1000));
}

#[test]
fn mod_hasher_hashes_modulo() {
    let builder: ModBuildHasher<std::collections::hash_map::RandomState> = ModBuildHasher::new(4);
    for k in 0..20u64 {
        let mut h = builder.build_hasher();
        h.write_u64(k);
        assert!(h.finish() < 4);
    }
    let mut map = HashMap::with_hasher(ModBuildHasher::with_modulus_and_hasher(2, std::collections::hash_map::RandomState::new()));
    for k in 0..10 {
        map.insert(k, k * k);
    }
    assert_eq!(map.get(&3), Some(&9));
    assert_eq!(map.len(), 10);
}

#[test]
fn ownable_values() {
    let v = Value::Int(3);
    let owned: Value = (&v).into_owned();
    assert!(matches!(owned, Value::Int(3)));
    let b: Box<i32> = Box::new(5);
    let x: i32 = b.into_owned();
    assert_eq!(x, 5);
}

#[test]
fn settling_a_fetched_value() {
    let mut fetcher = CachedFetcher::with_cache(GDSFCache::<usize, CacheEntry>::new(10), Doubler, HitMissCounter::new());
    assert_eq!(count_of(&fetcher.settle(6, CacheEntry::new(1, CacheEntryValue::Count(60)))), (true, 60));
    // the settled value is what a later fetch finds
    assert_eq!(count_of(&fetcher.fetch(6, 6)), (true, 60));
    // a value larger than the cache is handed back
    let big = CacheEntry::new(1, CacheEntryValue::Values(1, vec![Value::Int(0); 20]));
    assert!(matches!(fetcher.settle(7, big), FetchedValue::Uncached(_)));
    let mut dummy: CachedFetcher<DummyCache<usize, CacheEntry>, Doubler> = CachedFetcher::new(Doubler, HitMissCounter::new());
    assert_eq!(count_of(&dummy.settle(8, CacheEntry::new(1, CacheEntryValue::Count(80)))), (false, 80));
}
