//! The evaluation of static predicates against an SQLite database: the
//! cache entries of query results, the configuration of the provider, and
//! the translation of predicates into SQL.

pub mod query_builder;
pub mod driver;

use vstd::prelude::*;
use crate::cache::Cache;
use crate::cache::gdsf_cache::{HasCost, HasSize};
use crate::expressions::Value;

verus! {

/// The key a query result is cached under: the statement and the values of
/// the parameters it reads.
#[derive(Debug)]
pub struct CacheKey {
    pub statement: String,
    pub input_params: Vec<Value>,
}

/// The result of the query of a static predicate: the rows of its
/// parameters (`chunk` values per row), an aggregate, a number of rows, or
/// whether any row exists.
#[derive(Debug)]
pub enum CacheEntryValue {
    Values(usize, Vec<Value>),
    Aggr(Value),
    Count(usize),
    Exists(bool),
}

/// A cached query result and the time it took to compute, its cost.
#[derive(Debug)]
pub struct CacheEntry {
    cost: usize,
    value: CacheEntryValue,
}

impl CacheEntry {
    /// The query result.
    pub closed spec fn spec_value(&self) -> CacheEntryValue {
        self.value
    }

    pub fn new(cost: usize, value: CacheEntryValue) -> (r: Self)
        ensures
            r.spec_cost() == cost,
            r.spec_value() == value,
    {
        CacheEntry { cost, value }
    }

    /// The query result.
    pub fn value(&self) -> (r: &CacheEntryValue)
        ensures
            *r == self.spec_value(),
    {
        &self.value
    }
}

impl HasCost for CacheEntry {
    closed spec fn spec_cost(&self) -> nat {
        self.cost as nat
    }

    fn cost(&self) -> (r: usize) {
        self.cost
    }
}

impl HasSize for CacheEntry {
    /// One unit per value held plus one, one unit for any other result.
    closed spec fn spec_size(&self) -> nat {
        match self.value {
            CacheEntryValue::Values(_, v) => if v@.len() < usize::MAX {
                (v@.len() + 1) as nat
            } else {
                usize::MAX as nat
            },
            _ => 1,
        }
    }

    fn size(&self) -> (r: usize) {
        match &self.value {
            CacheEntryValue::Values(_, v) => if v.len() < usize::MAX {
                v.len() + 1
            } else {
                usize::MAX
            },
            _ => 1,
        }
    }
}

/// A cache of query results.
pub trait SqlCache: Cache<K = CacheKey, V = CacheEntry> {}

impl<T: Cache<K = CacheKey, V = CacheEntry>> SqlCache for T {}

/// Whether the predicates share one cache or each has its own.
#[derive(Debug, Copy, Clone)]
pub enum CacheOwnership {
    Shared,
    PerPredicate,
}

/// The kind of cache of query results.
#[derive(Debug, Copy, Clone)]
pub enum CacheType {
    Dummy,
    Collision,
    Lru,
    LruSize,
    Gdfs,
    Gdf1,
    Perfect,
}

/// The configuration of the SQLite provider: the database file, the size of
/// the pool of connections, and the size, ownership and kind of the cache.
#[derive(Debug)]
pub struct SqliteConfig {
    pub db_file: String,
    pub pool_size: u32,
    pub cache_size: usize,
    pub cache_ownership: CacheOwnership,
    pub cache_type: CacheType,
}

} // verus!
