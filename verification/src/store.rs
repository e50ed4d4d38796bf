//! Cached entries, and the concurrent map that holds them.
use crate::json::{Json, JsonValue};
use crate::key::{Call, CallId};
use dashmap::DashMap;
use std::collections::hash_map::RandomState;
use vstd::prelude::*;

verus! {

/// Nanoseconds in a millisecond.
pub const NANOS_PER_MILLI: u128 = 1_000_000;

/// A cached result. Times are nanoseconds on the clock of the cache.
pub struct CacheEntry {
    /// The call that the result answers.
    pub call: Call,
    pub result: JsonValue,
    pub stored_at: u128,
    pub ttl_ms: u64,
}

/// The model of a cached result.
#[verifier::ext_equal]
pub struct Entry {
    pub call: CallId,
    pub result: Json,
    pub stored_at: u128,
    pub ttl_ms: u64,
}

impl View for CacheEntry {
    type V = Entry;

    open spec fn view(&self) -> Entry {
        Entry {
            call: self.call@,
            result: self.result@,
            stored_at: self.stored_at,
            ttl_ms: self.ttl_ms,
        }
    }
}

impl Entry {
    /// The time since the entry was stored: none, on a clock that stands before that.
    pub open spec fn age(self, now: u128) -> int {
        if self.stored_at <= now {
            now - self.stored_at
        } else {
            0
        }
    }

    /// An entry expires once it is as old as its time to live.
    pub open spec fn expired(self, now: u128) -> bool {
        self.age(now) >= self.ttl_ms * NANOS_PER_MILLI
    }
}

impl CacheEntry {
    /// Whether the entry has reached its time to live.
    pub fn is_expired(&self, now: u128) -> (expired: bool)
        ensures
            expired == self@.expired(now),
    {
        let age: u128 = if self.stored_at <= now {
            now - self.stored_at
        } else {
            0
        };
        age >= self.ttl_ms as u128 * NANOS_PER_MILLI
    }

    /// Whether the entry has not reached its time to live.
    pub fn is_live(&self, now: u128) -> (live: bool)
        ensures
            live == !self@.expired(now),
    {
        !self.is_expired(now)
    }
}

impl Clone for CacheEntry {
    fn clone(&self) -> (copy: Self)
        ensures
            copy@ == self@,
    {
        CacheEntry {
            call: self.call.clone(),
            result: self.result.clone(),
            stored_at: self.stored_at,
            ttl_ms: self.ttl_ms,
        }
    }
}

/// `dashmap::DashMap`, a concurrent hash map.
#[verifier::external_type_specification]
#[verifier::external_body]
#[verifier::reject_recursive_types(K)]
#[verifier::reject_recursive_types(V)]
#[verifier::reject_recursive_types(S)]
pub struct ExDashMap<K, V, S>(dashmap::DashMap<K, V, S>);

/// What a map holds: its keys, each with the entry stored under it.
pub uninterp spec fn held(map: DashMap<u64, CacheEntry, RandomState>) -> Map<u64, Entry>;

/// `DashMap::new`: a map that holds nothing.
#[verifier::external_body]
pub(crate) fn new_map() -> (map: DashMap<u64, CacheEntry, RandomState>)
    ensures
        held(map) == (Map::<u64, Entry>::empty()),
{
    DashMap::new()
}

/// `DashMap::get`: a copy of the entry under the key, if there is one.
#[verifier::external_body]
pub(crate) fn lookup(map: &DashMap<u64, CacheEntry, RandomState>, key: u64) -> (entry: Option<
    CacheEntry,
>)
    ensures
        match entry {
            Some(e) => held(*map).dom().contains(key) && e@ == held(*map)[key],
            None => !held(*map).dom().contains(key),
        },
{
    map.get(&key).map(|entry| entry.value().clone())
}

/// `DashMap::insert`: the entry stands under the key, in place of the one that stood there,
/// which is handed back.
#[verifier::external_body]
pub(crate) fn store(
    map: &mut DashMap<u64, CacheEntry, RandomState>,
    key: u64,
    entry: CacheEntry,
) -> (replaced: Option<CacheEntry>)
    ensures
        held(*final(map)) == held(*old(map)).insert(key, entry@),
        match replaced {
            Some(e) => held(*old(map)).dom().contains(key) && e@ == held(*old(map))[key],
            None => !held(*old(map)).dom().contains(key),
        },
{
    map.insert(key, entry)
}

/// `DashMap::remove`: nothing stands under the key any more. What stood there is handed back.
#[verifier::external_body]
pub(crate) fn discard(map: &mut DashMap<u64, CacheEntry, RandomState>, key: u64) -> (removed:
    Option<(u64, CacheEntry)>)
    ensures
        held(*final(map)) == held(*old(map)).remove(key),
        match removed {
            Some(e) => held(*old(map)).dom().contains(key) && e.0 == key && e.1@ == held(
                *old(map),
            )[key],
            None => !held(*old(map)).dom().contains(key),
        },
{
    map.remove(&key)
}

/// The entries that have not expired.
pub open spec fn live_entries(entries: Map<u64, Entry>, now: u128) -> Map<u64, Entry> {
    Map::new(
        |k: u64| entries.dom().contains(k) && !entries[k].expired(now),
        |k: u64| entries[k],
    )
}

/// `DashMap::retain` of the entries that have not expired: the others are gone, and those stay
/// as they were.
#[verifier::external_body]
pub(crate) fn retain_live(map: &mut DashMap<u64, CacheEntry, RandomState>, now: u128)
    ensures
        held(*final(map)) == live_entries(held(*old(map)), now),
{
    map.retain(|_, entry| entry.is_live(now))
}

/// `DashMap::len`: how many keys the map holds.
#[verifier::external_body]
pub(crate) fn count(map: &DashMap<u64, CacheEntry, RandomState>) -> (n: usize)
    ensures
        n == held(*map).len(),
{
    map.len()
}

/// The items are the keys of the entries, each with the time at which its entry was stored: all
/// of them, and none twice.
pub open spec fn lists_stamps(items: Seq<(u64, u128)>, entries: Map<u64, Entry>) -> bool {
    &&& forall|i: int|
        0 <= i < items.len() ==> entries.dom().contains(#[trigger] items[i].0) && items[i].1
            == entries[items[i].0].stored_at
    &&& forall|k: u64| #[trigger]
        entries.dom().contains(k) ==> exists|i: int|
            0 <= i < items.len() && #[trigger] items[i].0 == k
    &&& forall|i: int, j: int|
        0 <= i < j < items.len() ==> #[trigger] items[i].0 != #[trigger] items[j].0
}

/// `DashMap::iter`, each item given by its key and the time at which its entry was stored: every
/// key that the map holds comes up, and none twice. In which order is not stated.
#[verifier::external_body]
pub(crate) fn stamps(map: &DashMap<u64, CacheEntry, RandomState>) -> (items: Vec<(u64, u128)>)
    ensures
        lists_stamps(items@, held(*map)),
{
    map.iter().map(|item| (*item.key(), item.value().stored_at)).collect()
}

} // verus!
