use vstd::prelude::*;

verus! {

/// `moka::sync::Cache`, a concurrent cache with a bounded number of entries,
/// carried through as an opaque value.
#[verifier::external_type_specification]
#[verifier::external_body]
#[verifier::reject_recursive_types(K)]
#[verifier::reject_recursive_types(V)]
#[verifier::reject_recursive_types(S)]
pub struct ExMokaCache<K, V, S>(moka::sync::Cache<K, V, S>);

/// The number of entries that a cache was built to hold at most.
pub uninterp spec fn max_entries(c: moka::sync::Cache<String, Vec<u8>>) -> nat;

/// Relies on `moka::sync::Cache::new`: a cache that holds at most
/// `capacity` entries, evicting by its own policy beyond that.
#[verifier::external_body]
fn moka_new(capacity: u64) -> (r: moka::sync::Cache<String, Vec<u8>>)
    ensures
        max_entries(r) == capacity,
{
    moka::sync::Cache::new(capacity)
}

/// Relies on `moka::sync::Cache::get`: a clone of the value stored for `key`,
/// if the cache still holds one. Other handles may change the entries at any
/// time, so nothing more is promised of the result.
#[verifier::external_body]
fn moka_get(c: &moka::sync::Cache<String, Vec<u8>>, key: &str) -> (r: Option<Vec<u8>>) {
    c.get(key)
}

/// Relies on `moka::sync::Cache::insert`: stores `value` under `key`,
/// replacing what was there.
#[verifier::external_body]
fn moka_insert(c: &moka::sync::Cache<String, Vec<u8>>, key: String, value: Vec<u8>) {
    c.insert(key, value)
}

/// A bounded map from request paths to whole file contents, shared by all
/// requests. Eviction beyond the capacity is left to the underlying cache.
pub struct SmallFileCache {
    inner: moka::sync::Cache<String, Vec<u8>>,
}

impl SmallFileCache {
    pub closed spec fn capacity(&self) -> nat {
        max_entries(self.inner)
    }

    /// A cache that holds at most `capacity` files.
    pub fn new(capacity: u64) -> (r: Self)
        ensures
            r.capacity() == capacity,
    {
        SmallFileCache { inner: moka_new(capacity) }
    }

    /// The content stored for `key`, if it is still there.
    pub fn get(&self, key: &str) -> Option<Vec<u8>> {
        moka_get(&self.inner, key)
    }

    /// Stores `content` under `key`; the last write for a key wins.
    pub fn put(&self, key: &str, content: Vec<u8>) {
        moka_insert(&self.inner, key.to_owned(), content)
    }
}

} // verus!
