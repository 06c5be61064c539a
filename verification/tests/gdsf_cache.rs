use trex::cache::gdsf_cache::{GDSFCache, HasCost, HasSize, StorageEntry};
use trex::expressions::{same_value, Value};
use trex::sqlite::{CacheEntry, CacheEntryValue};

/// A cache entry of the given cost and size: `size - 1` values plus one
/// unit, or a count for size one; `id` tells entries apart.
fn test_struct(id: usize, cost: usize, size: usize) -> CacheEntry {
    let value = if size == 1 {
        CacheEntryValue::Count(id)
    } else {
        CacheEntryValue::Values(1, (1..size).map(|_| Value::Int(id as i64)).collect())
    };
    CacheEntry::new(cost, value)
}

fn same_entry(a: &CacheEntry, b: &CacheEntry) -> bool {
    let same_value_part = match (a.value(), b.value()) {
        (CacheEntryValue::Values(n, x), CacheEntryValue::Values(m, y)) => {
            n == m && x.len() == y.len() && x.iter().zip(y.iter()).all(|(p, q)| same_value(p, q))
        }
        (CacheEntryValue::Aggr(x), CacheEntryValue::Aggr(y)) => same_value(x, y),
        (CacheEntryValue::Count(x), CacheEntryValue::Count(y)) => x == y,
        (CacheEntryValue::Exists(x), CacheEntryValue::Exists(y)) => x == y,
        _ => false,
    };
    same_value_part && a.cost() == b.cost() && a.size() == b.size()
}

#[test]
fn simple_priority() {
    let key = Box::new(1);
    let value = test_struct(1, 1, 1);
    let mut entry = StorageEntry::new(key.as_ref(), value, 0);
    // The priority is simply: cost * frequency / size + clock
    assert_eq!(entry.priority(), 1);
    // Updates the clock and increases the frequency
    assert_eq!(entry.update(1), 3);
    // The value returned by update is the new priority
    assert_eq!(entry.priority(), 3);
}

#[test]
fn complex_priority() {
    let key = Box::new(1);
    let value = test_struct(1, 13000, 150);
    let mut entry = StorageEntry::new(key.as_ref(), value, 0);
    // priority calculation uses integer division (so floor rounding)
    assert_eq!(entry.priority(), 86);
    // update both clock and frequency
    assert_eq!(entry.update(256), 429);
    // same clock, update only frequency
    assert_eq!(entry.update(256), 516);
}

#[test]
fn successful_insertion() {
    let mut cache = GDSFCache::<usize, CacheEntry>::new(100);
    let value = test_struct(1, 1, 100);
    {
        let result = cache.insert(1, test_struct(1, 1, 100));
        assert!(matches!(result, Ok(v) if same_entry(v, &value)));
    }
    {
        let result = cache.get(&1);
        assert!(matches!(result, Some(v) if same_entry(v, &value)));
    }
}

#[test]
fn unsuccessful_insertion() {
    let mut cache = GDSFCache::<usize, CacheEntry>::new(100);
    let value = test_struct(1, 1, 101);
    {
        let result = cache.insert(1, test_struct(1, 1, 101));
        assert!(matches!(result, Err(v) if same_entry(&v, &value)));
    }
    {
        let result = cache.get(&1);
        assert!(result.is_none());
    }
}

#[test]
fn single_eviction() {
    let mut cache = GDSFCache::<usize, CacheEntry>::new(3);
    for i in 1..4 {
        let _ = cache.insert(i, test_struct(i, i, 1));
    }
    assert!(cache.priorities().into_iter().eq(1..4));
    let _ = cache.insert(4, test_struct(4, 4, 1));
    assert!(cache.priorities().into_iter().eq(2..5));
}

#[test]
fn multiple_eviction() {
    let mut cache = GDSFCache::<usize, CacheEntry>::new(3);
    for i in 1..4 {
        let _ = cache.insert(i, test_struct(i, i, 1));
    }
    assert!(cache.priorities().into_iter().eq(1..4));
    let _ = cache.insert(4, test_struct(4, 8, 2));
    assert!(cache.priorities().into_iter().eq(3..5));
}

#[test]
fn removal_frees_space_and_forgets_key() {
    let mut cache = GDSFCache::<usize, CacheEntry>::new(10);
    let value = test_struct(7, 5, 4);
    assert!(cache.insert(7, test_struct(7, 5, 4)).is_ok());
    assert!(cache.contains_key(&7));
    assert!(matches!(cache.remove(&7), Some(v) if same_entry(&v, &value)));
    assert!(!cache.contains_key(&7));
    assert!(cache.remove(&7).is_none());
    assert!(cache.get(&7).is_none());
}

#[test]
fn read_raises_priority() {
    let mut cache = GDSFCache::<usize, CacheEntry>::new(10);
    let _ = cache.insert(1, test_struct(1, 10, 1));
    let _ = cache.insert(2, test_struct(2, 12, 1));
    // priorities 10 and 12; reading 1 makes it 0 + 2 * 10 / 1 = 20
    assert!(cache.priorities().into_iter().eq(vec![10, 12]));
    assert!(cache.get(&1).is_some());
    assert!(cache.priorities().into_iter().eq(vec![12, 20]));
}

#[test]
fn oversized_entry_of_values_rejected() {
    let mut cache = GDSFCache::<usize, CacheEntry>::new(2);
    // three values plus one unit: size four
    let entry = CacheEntry::new(9, CacheEntryValue::Values(1, vec![Value::Int(1), Value::Int(2), Value::Int(3)]));
    assert_eq!(entry.size(), 4);
    assert!(cache.insert(5, entry).is_err());
    assert!(!cache.contains_key(&5));
}
