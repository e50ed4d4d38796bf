//! Eviction, and the bound on the cache.
use response_cache::{
    Call, CacheLookup, GateDecision, JsonNumber, JsonValue, ResponseCacheConfig,
    ResponseCachePlugin,
};

const TTL_MS: u64 = 1000;
const TTL: u128 = 1_000_000_000;

fn cache_of(max_entries: usize) -> ResponseCachePlugin {
    ResponseCachePlugin::new(ResponseCacheConfig { max_entries, ..Default::default() })
}

fn number(n: u64) -> JsonValue {
    JsonValue::Number(JsonNumber::Unsigned(n))
}

fn call(n: u64) -> Call {
    Call {
        surface: "tool".to_owned(),
        tool_name: n.to_string(),
        arguments: "{}".to_owned(),
        identity: None,
    }
}

fn remember(cache: &mut ResponseCachePlugin, key: u64, ttl_ms: u64, now: u128) -> bool {
    cache.remember(key, call(key), &number(key), ttl_ms, now)
}

fn look(cache: &mut ResponseCachePlugin, key: u64, now: u128) -> CacheLookup {
    cache.serve(key, &call(key), now).1
}

fn write(cache: &mut ResponseCachePlugin, key: u64, now: u128) {
    assert!(remember(cache, key, TTL_MS, now));
}

/// The keys below ten that are served at that time, each with its own result.
fn live_keys(cache: &mut ResponseCachePlugin, now: u128) -> Vec<u64> {
    let mut keys = Vec::new();
    for key in 0..10 {
        let (decision, lookup) = cache.serve(key, &call(key), now);
        if lookup == CacheLookup::Hit {
            let GateDecision::Allow { modified_result, .. } = decision;
            assert_eq!(modified_result, Some(number(key)));
            keys.push(key);
        }
    }
    keys
}

#[test]
fn nothing_is_evicted_below_the_limit() {
    let mut cache = cache_of(3);
    write(&mut cache, 1, 10);
    write(&mut cache, 2, 11);
    write(&mut cache, 3, 12);
    assert_eq!(live_keys(&mut cache, 13), vec![1, 2, 3]);
}

#[test]
fn the_oldest_entry_makes_room() {
    let mut cache = cache_of(3);
    write(&mut cache, 7, 12);
    write(&mut cache, 2, 10);
    write(&mut cache, 5, 11);
    write(&mut cache, 9, 13);
    assert_eq!(live_keys(&mut cache, 14), vec![5, 7, 9]);
    write(&mut cache, 1, 14);
    assert_eq!(live_keys(&mut cache, 15), vec![1, 7, 9]);
}

#[test]
fn expired_entries_go_first() {
    let mut cache = cache_of(3);
    remember(&mut cache, 1, 1, 0);
    remember(&mut cache, 2, 1, 1);
    write(&mut cache, 3, 2);
    // The two short-lived entries are gone, so the oldest live one stays.
    write(&mut cache, 4, 2_000_000);
    assert_eq!(live_keys(&mut cache, 2_000_001), vec![3, 4]);
    // Looked up at a time at which they would still be live, they are not there.
    assert_eq!(look(&mut cache, 1, 0), CacheLookup::Miss);
    assert_eq!(look(&mut cache, 2, 1), CacheLookup::Miss);
}

#[test]
fn expired_entries_stay_until_the_limit_is_reached() {
    let mut cache = cache_of(3);
    remember(&mut cache, 1, 1, 0);
    write(&mut cache, 2, TTL);
    // A clock that stands earlier shows that the expired entry is still held.
    assert_eq!(look(&mut cache, 1, 0), CacheLookup::Hit);
}

#[test]
fn eviction_drops_a_single_live_entry() {
    let mut cache = cache_of(4);
    for key in 0..4 {
        write(&mut cache, key, key as u128);
    }
    cache.evict_if_full(4);
    assert_eq!(live_keys(&mut cache, 5), vec![1, 2, 3]);
    // There is room again.
    cache.evict_if_full(5);
    assert_eq!(live_keys(&mut cache, 6), vec![1, 2, 3]);
}

#[test]
fn the_cache_bounds_itself() {
    let mut cache = cache_of(3);
    for round in 0..50u64 {
        write(&mut cache, round % 10, round as u128);
        assert!(live_keys(&mut cache, round as u128 + 1).len() <= 3);
    }
    assert_eq!(live_keys(&mut cache, 50), vec![7, 8, 9]);
}

#[test]
fn a_limit_of_one_keeps_the_last_entry() {
    let mut cache = cache_of(1);
    write(&mut cache, 1, 0);
    write(&mut cache, 2, 1);
    assert_eq!(live_keys(&mut cache, 2), vec![2]);
}

#[test]
fn a_limit_of_zero_leaves_room_for_none() {
    let mut cache = cache_of(0);
    assert!(!remember(&mut cache, 1, TTL_MS, 0));
    assert!(live_keys(&mut cache, 1).is_empty());
    cache.evict_if_full(1);
    assert!(live_keys(&mut cache, 2).is_empty());
}

#[test]
fn an_entry_stored_at_this_very_time_is_evicted_too() {
    let mut cache = cache_of(1);
    assert!(remember(&mut cache, 1, TTL_MS, 5));
    write(&mut cache, 2, 5);
    assert_eq!(live_keys(&mut cache, 5), vec![2]);
    cache.evict_if_full(5);
    assert!(live_keys(&mut cache, 5).is_empty());
}

#[test]
fn a_clock_that_stands_still_does_not_lift_the_bound() {
    let mut cache = cache_of(3);
    for key in 0..10 {
        write(&mut cache, key, 5);
        let live = live_keys(&mut cache, 5);
        assert!(live.len() <= 3);
        assert!(live.contains(&key));
    }
}

#[test]
fn writes_over_an_entry_count_until_the_limit_is_reached() {
    let mut cache = cache_of(3);
    write(&mut cache, 1, 0);
    write(&mut cache, 1, 1);
    write(&mut cache, 1, 2);
    // The count has reached the limit, but a single entry is held: nothing live goes.
    write(&mut cache, 2, 3);
    write(&mut cache, 3, 4);
    assert_eq!(live_keys(&mut cache, 5), vec![1, 2, 3]);
}

#[test]
fn a_write_over_an_entry_of_a_full_cache_still_evicts() {
    let mut cache = cache_of(2);
    write(&mut cache, 1, 0);
    write(&mut cache, 2, 1);
    write(&mut cache, 2, 2);
    assert_eq!(live_keys(&mut cache, 3), vec![2]);
}

#[test]
fn dropping_an_expired_entry_on_lookup_makes_room() {
    let mut cache = cache_of(2);
    remember(&mut cache, 1, 1, 0);
    write(&mut cache, 2, 1);
    assert_eq!(look(&mut cache, 1, 1_000_000), CacheLookup::Miss);
    write(&mut cache, 3, 1_000_001);
    assert_eq!(live_keys(&mut cache, 1_000_002), vec![2, 3]);
}

#[test]
fn an_entry_of_another_call_is_not_served() {
    let mut cache = cache_of(3);
    write(&mut cache, 1, 0);
    // The other call has the same key.
    let (decision, lookup) = cache.serve(1, &call(2), 1);
    assert_eq!(lookup, CacheLookup::Miss);
    assert_eq!(decision, GateDecision::allow());
    assert_eq!(look(&mut cache, 1, 1), CacheLookup::Hit);
    // Its result takes the place of the first.
    assert!(cache.remember(1, call(2), &number(2), TTL_MS, 2));
    assert_eq!(look(&mut cache, 1, 3), CacheLookup::Miss);
    let (decision, lookup) = cache.serve(1, &call(2), 3);
    assert_eq!(lookup, CacheLookup::Hit);
    let GateDecision::Allow { modified_result, .. } = decision;
    assert_eq!(modified_result, Some(number(2)));
}

#[test]
fn a_call_is_told_from_others_by_every_part() {
    let one = call(1);
    assert!(one.is(&one.clone()));
    let mut other = one.clone();
    other.surface = "prompt".to_owned();
    assert!(!one.is(&other));
    assert!(!one.is(&call(2)));
    let mut other = one.clone();
    other.arguments = "[]".to_owned();
    assert!(!one.is(&other));
    let mut other = one.clone();
    other.identity = Some(String::new());
    assert!(!one.is(&other));
    assert!(!other.is(&one));
    let mut third = one.clone();
    third.identity = Some("user".to_owned());
    assert!(!third.is(&other));
    assert!(third.is(&third.clone()));
}
