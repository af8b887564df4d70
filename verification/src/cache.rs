//! The cache of a file's extracted pages: the key it is stored under, what an entry
//! records, and when a stored entry is still served.
use vstd::prelude::*;
use crate::text::owned;

verus! {

/// The cache key of a path: its canonical form where the file system gave one, else the
/// path as written.
pub fn key_for(path: &str, canonical: Option<String>) -> (r: String)
    ensures
        r@ == match canonical {
            Some(c) => c@,
            None => path@,
        },
{
    match canonical {
        Some(c) => c,
        None => owned(path),
    }
}

/// Whether a cached entry still describes the file: the file's size and modification
/// time (in milliseconds) could be read and both equal what was stored.
pub fn cache_fresh(stored_size: u64, stored_mtime_ms: u64, size: Option<u64>, mtime_ms: Option<u64>) -> (r: bool)
    ensures
        r == (size == Some(stored_size) && mtime_ms == Some(stored_mtime_ms)),
{
    match (size, mtime_ms) {
        (Some(s), Some(m)) => s == stored_size && m == stored_mtime_ms,
        _ => false,
    }
}

/// A cached entry: the file's size and modification time (milliseconds) when it was
/// stored, and its pages.
pub struct CacheEntry<P> {
    pub size: u64,
    pub mtime_ms: u64,
    pub pages: P,
}

/// The entry to store for a file whose size and modification time read as `size` and
/// `mtime_ms`: none when either could not be read.
pub open spec fn entry_spec<P>(size: Option<u64>, mtime_ms: Option<u64>, pages: P) -> Option<CacheEntry<P>> {
    match (size, mtime_ms) {
        (Some(s), Some(m)) => Some(CacheEntry { size: s, mtime_ms: m, pages }),
        _ => None,
    }
}

/// What a lookup serves from the stored entry (if any) for a file whose size and
/// modification time now read as `size` and `mtime_ms`: the pages, when both read and
/// equal what was stored; nothing otherwise.
pub open spec fn lookup_spec<P>(entry: Option<CacheEntry<P>>, size: Option<u64>, mtime_ms: Option<u64>) -> Option<P> {
    match entry {
        Some(e) => if size == Some(e.size) && mtime_ms == Some(e.mtime_ms) {
            Some(e.pages)
        } else {
            None
        },
        None => None,
    }
}

/// The entry to store for a file, from its size and modification time as read now.
pub fn cache_entry<P>(size: Option<u64>, mtime_ms: Option<u64>, pages: P) -> (r: Option<CacheEntry<P>>)
    ensures
        r == entry_spec(size, mtime_ms, pages),
{
    match (size, mtime_ms) {
        (Some(s), Some(m)) => Some(CacheEntry { size: s, mtime_ms: m, pages }),
        _ => None,
    }
}

/// The pages served from the stored entry (if any) for a file whose size and modification
/// time now read as `size` and `mtime_ms`.
pub fn cache_lookup<P>(entry: Option<CacheEntry<P>>, size: Option<u64>, mtime_ms: Option<u64>) -> (r: Option<P>)
    ensures
        r == lookup_spec(entry, size, mtime_ms),
{
    match entry {
        Some(e) => {
            if cache_fresh(e.size, e.mtime_ms, size, mtime_ms) {
                Some(e.pages)
            } else {
                None
            }
        },
        None => None,
    }
}

/// The cache after storing `pages` under `key` for a file read as `size`, `mtime_ms`.
pub open spec fn put_spec<P>(
    m: Map<Seq<char>, CacheEntry<P>>,
    key: Seq<char>,
    size: Option<u64>,
    mtime_ms: Option<u64>,
    pages: P,
) -> Map<Seq<char>, CacheEntry<P>> {
    match entry_spec(size, mtime_ms, pages) {
        Some(e) => m.insert(key, e),
        None => m,
    }
}

/// What a read of `key` serves for a file now read as `size`, `mtime_ms`.
pub open spec fn get_spec<P>(m: Map<Seq<char>, CacheEntry<P>>, key: Seq<char>, size: Option<u64>, mtime_ms: Option<u64>) -> Option<P> {
    lookup_spec(if m.dom().contains(key) { Some(m[key]) } else { None }, size, mtime_ms)
}

/// A read gives back what was stored. After `pages` are stored under `key` for a file
/// whose size and modification time could be read, a read of `key` serves exactly those
/// pages while the file's size and time are unchanged, and nothing once either differs
/// or can no longer be read; reads of other keys are unaffected; and a store for a file
/// whose metadata could not be read changes nothing.
pub proof fn law_cache_round_trip<P>(
    m: Map<Seq<char>, CacheEntry<P>>,
    key: Seq<char>,
    size: Option<u64>,
    mtime_ms: Option<u64>,
    pages: P,
    later_size: Option<u64>,
    later_mtime_ms: Option<u64>,
    other: Seq<char>,
)
    ensures
        size is Some && mtime_ms is Some ==> get_spec(put_spec(m, key, size, mtime_ms, pages), key, later_size, later_mtime_ms)
            == if later_size == size && later_mtime_ms == mtime_ms {
            Some(pages)
        } else {
            None
        },
        other != key ==> get_spec(put_spec(m, key, size, mtime_ms, pages), other, later_size, later_mtime_ms)
            == get_spec(m, other, later_size, later_mtime_ms),
        !(size is Some && mtime_ms is Some) ==> put_spec(m, key, size, mtime_ms, pages) == m,
{
}

} // verus!
