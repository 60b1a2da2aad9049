use deputy::cache::{CacheAction, RequestCacheMap};

// How many fetches a driver of the cache performs for a series of accesses to one key.
fn fetches(cache: &mut RequestCacheMap<Result<u32, String>>, key: &str, times: &[u64]) -> u32 {
    let mut count = 0;
    for now in times {
        if cache.access(key, *now) == CacheAction::Start {
            count += 1;
        }
    }
    count
}

#[test]
fn concurrent_accesses_share_one_fetch() {
    let mut cache: RequestCacheMap<Result<u32, String>> = RequestCacheMap::new_millis(1000, 100);
    // Five callers ask before the fetch completes: one fetch.
    assert_eq!(fetches(&mut cache, "serde", &[0, 0, 1, 2, 3]), 1);
    assert_eq!(cache.access("serde", 4), CacheAction::Join);
    assert!(cache.value("serde").is_none());
    cache.complete("serde", Ok(7), false, 5);
    // Served from the cache while fresh.
    assert_eq!(cache.access("serde", 6), CacheAction::Hit);
    assert_eq!(cache.value("serde"), Some(&Ok(7)));
    assert_eq!(cache.access("serde", 1004), CacheAction::Hit);
    // Fetched anew once the time to keep results has passed.
    assert_eq!(cache.access("serde", 1005), CacheAction::Start);
    assert_eq!(cache.access("serde", 1005), CacheAction::Join);
    cache.complete("serde", Ok(8), false, 1010);
    assert_eq!(cache.value("serde"), Some(&Ok(8)));
}

#[test]
fn failures_are_retried_sooner() {
    let mut cache: RequestCacheMap<Result<u32, String>> = RequestCacheMap::new_millis(1000, 100);
    assert_eq!(cache.access("tokio", 0), CacheAction::Start);
    cache.complete("tokio", Err(String::from("offline")), true, 10);
    assert_eq!(cache.access("tokio", 50), CacheAction::Hit);
    assert_eq!(cache.value("tokio"), Some(&Err(String::from("offline"))));
    assert_eq!(cache.access("tokio", 109), CacheAction::Hit);
    // The time to keep results has not passed, the time to keep failures has.
    assert_eq!(cache.access("tokio", 110), CacheAction::Start);
    cache.complete("tokio", Ok(1), false, 120);
    assert_eq!(cache.access("tokio", 1119), CacheAction::Hit);
    assert_eq!(cache.access("tokio", 1120), CacheAction::Start);
}

#[test]
fn keys_do_not_touch_each_other() {
    let mut cache: RequestCacheMap<u32> = RequestCacheMap::new_millis(10, 10);
    assert_eq!(cache.access("a", 0), CacheAction::Start);
    assert_eq!(cache.access("b", 0), CacheAction::Start);
    assert_eq!(cache.access("a", 0), CacheAction::Join);
    cache.complete("b", 2, false, 1);
    assert_eq!(cache.access("a", 1), CacheAction::Join);
    assert_eq!(cache.access("b", 1), CacheAction::Hit);
    assert_eq!(cache.value("b"), Some(&2));
    assert_eq!(cache.value("a"), None);
    assert_eq!(cache.value("c"), None);
    cache.complete("a", 1, false, 2);
    assert_eq!(cache.value("a"), Some(&1));
    assert_eq!(cache.value("b"), Some(&2));
}

#[test]
fn a_clock_that_goes_back_keeps_the_entry() {
    let mut cache: RequestCacheMap<u32> = RequestCacheMap::new_millis(10, 10);
    assert_eq!(cache.access("a", 100), CacheAction::Start);
    cache.complete("a", 1, false, 100);
    assert_eq!(cache.access("a", 50), CacheAction::Hit);
}

#[test]
fn times_to_keep_in_seconds_and_minutes() {
    let secs: RequestCacheMap<u32> = RequestCacheMap::new_secs(5, 5);
    assert_eq!(secs.fresh_millis(), 5_000);
    assert_eq!(secs.retry_millis(), 5_000);
    let mins: RequestCacheMap<u32> = RequestCacheMap::new_mins(60, 15);
    assert_eq!(mins.fresh_millis(), 3_600_000);
    assert_eq!(mins.retry_millis(), 900_000);
    let long: RequestCacheMap<u32> = RequestCacheMap::new_mins(u64::MAX, 1);
    assert_eq!(long.fresh_millis(), u64::MAX);
    assert_eq!(long.retry_millis(), 60_000);
}

#[test]
fn a_time_to_keep_of_the_longest_never_ends() {
    let mut cache: RequestCacheMap<u32> = RequestCacheMap::new_millis(u64::MAX, u64::MAX);
    assert_eq!(cache.access("a", 10), CacheAction::Start);
    cache.complete("a", 1, false, 10);
    assert_eq!(cache.access("a", u64::MAX), CacheAction::Hit);
}
