//! The kind-specific setting stores, each backed by an unbounded
//! `lru::LruCache`. Every constructor here builds an unbounded cache, so
//! no eviction ever occurs and each store behaves as a map from setting
//! keys to values; the recency bookkeeping the cache performs on reads
//! is invisible to the contents.

use vstd::prelude::*;

verus! {

/// Boolean settings in an `lru::LruCache<String, bool>`.
#[verifier::external_body]
pub struct BoolStore {
    inner: lru::LruCache<String, bool>,
}

/// The key-value contents of a boolean store.
pub uninterp spec fn bool_store_map(s: BoolStore) -> Map<Seq<char>, bool>;

/// The empty boolean-settings map.
pub open spec fn empty_bool_map() -> Map<Seq<char>, bool> {
    Map::empty()
}

/// Relies on `lru::LruCache::unbounded`: a fresh cache with no entries
/// and no capacity bound.
#[verifier::external_body]
pub fn bool_store_new() -> (store: BoolStore)
    ensures
        bool_store_map(store) == empty_bool_map(),
{
    BoolStore { inner: lru::LruCache::unbounded() }
}

/// Relies on `lru::LruCache::push`: on an unbounded cache, binds the key
/// and returns the key's previous value, if any (no eviction can occur).
#[verifier::external_body]
pub fn bool_store_push(s: &mut BoolStore, key: &str, value: bool) -> (old_value: Option<bool>)
    ensures
        bool_store_map(*final(s)) == bool_store_map(*old(s)).insert(key@, value),
        old_value == (if bool_store_map(*old(s)).dom().contains(key@) {
            Some(bool_store_map(*old(s))[key@])
        } else {
            None::<bool>
        }),
{
    s.inner.push(key.to_owned(), value).map(|p| p.1)
}

/// Relies on `lru::LruCache::get`: returns the key's value and only
/// refreshes its recency, leaving the contents unchanged.
#[verifier::external_body]
pub fn bool_store_get(s: &mut BoolStore, key: &str) -> (r: Option<bool>)
    ensures
        bool_store_map(*final(s)) == bool_store_map(*old(s)),
        r == (if bool_store_map(*old(s)).dom().contains(key@) {
            Some(bool_store_map(*old(s))[key@])
        } else {
            None::<bool>
        }),
{
    s.inner.get(&key.to_owned()).copied()
}

/// Integer settings in an `lru::LruCache<String, i32>`.
#[verifier::external_body]
pub struct IntStore {
    inner: lru::LruCache<String, i32>,
}

/// The key-value contents of an integer store.
pub uninterp spec fn int_store_map(s: IntStore) -> Map<Seq<char>, i32>;

/// The empty integer-settings map.
pub open spec fn empty_int_map() -> Map<Seq<char>, i32> {
    Map::empty()
}

/// Relies on `lru::LruCache::unbounded`: a fresh cache with no entries
/// and no capacity bound.
#[verifier::external_body]
pub fn int_store_new() -> (store: IntStore)
    ensures
        int_store_map(store) == empty_int_map(),
{
    IntStore { inner: lru::LruCache::unbounded() }
}

/// Relies on `lru::LruCache::push`: on an unbounded cache, binds the key
/// and returns the key's previous value, if any (no eviction can occur).
#[verifier::external_body]
pub fn int_store_push(s: &mut IntStore, key: &str, value: i32) -> (old_value: Option<i32>)
    ensures
        int_store_map(*final(s)) == int_store_map(*old(s)).insert(key@, value),
        old_value == (if int_store_map(*old(s)).dom().contains(key@) {
            Some(int_store_map(*old(s))[key@])
        } else {
            None::<i32>
        }),
{
    s.inner.push(key.to_owned(), value).map(|p| p.1)
}

/// Relies on `lru::LruCache::get`: returns the key's value and only
/// refreshes its recency, leaving the contents unchanged.
#[verifier::external_body]
pub fn int_store_get(s: &mut IntStore, key: &str) -> (r: Option<i32>)
    ensures
        int_store_map(*final(s)) == int_store_map(*old(s)),
        r == (if int_store_map(*old(s)).dom().contains(key@) {
            Some(int_store_map(*old(s))[key@])
        } else {
            None::<i32>
        }),
{
    s.inner.get(&key.to_owned()).copied()
}

/// String settings in an `lru::LruCache<String, String>`.
#[verifier::external_body]
pub struct StringStore {
    inner: lru::LruCache<String, String>,
}

/// The key-value contents of a string store, values by view.
pub uninterp spec fn string_store_map(s: StringStore) -> Map<Seq<char>, Seq<char>>;

/// The empty string-settings map.
pub open spec fn empty_string_map() -> Map<Seq<char>, Seq<char>> {
    Map::empty()
}

/// Relies on `lru::LruCache::unbounded`: a fresh cache with no entries
/// and no capacity bound.
#[verifier::external_body]
pub fn string_store_new() -> (store: StringStore)
    ensures
        string_store_map(store) == empty_string_map(),
{
    StringStore { inner: lru::LruCache::unbounded() }
}

/// Relies on `lru::LruCache::push`: on an unbounded cache, binds the key
/// and returns whether the key was already bound (no eviction can
/// occur).
#[verifier::external_body]
pub fn string_store_push(s: &mut StringStore, key: &str, value: String) -> (had_key: bool)
    ensures
        string_store_map(*final(s)) == string_store_map(*old(s)).insert(key@, value@),
        had_key == string_store_map(*old(s)).dom().contains(key@),
{
    s.inner.push(key.to_owned(), value).is_some()
}

/// Relies on `lru::LruCache::get`: returns a copy of the key's value and
/// only refreshes its recency, leaving the contents unchanged.
#[verifier::external_body]
pub fn string_store_get(s: &mut StringStore, key: &str) -> (r: Option<String>)
    ensures
        string_store_map(*final(s)) == string_store_map(*old(s)),
        match r {
            Some(v) => string_store_map(*old(s)).dom().contains(key@) && v@ == string_store_map(
                *old(s),
            )[key@],
            None => !string_store_map(*old(s)).dom().contains(key@),
        },
{
    s.inner.get(&key.to_owned()).cloned()
}

} // verus!
