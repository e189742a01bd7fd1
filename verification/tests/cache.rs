use bwenv::cache::Cache;
use bwenv::secrets::Secrets;
use bwenv::version::Version;

fn secrets_of(pairs: &[(&str, &str)]) -> Secrets {
    let mut s = Secrets::new();
    for (k, v) in pairs {
        s.insert((*k).to_string(), (*v).to_string());
    }
    s
}

#[test]
fn test_new() {
    let version = Version::new(1, 0, 0);
    let cache = Cache::new("/tmp/cache_root".to_string(), &version);

    assert_eq!(cache.directory, "/tmp/cache_root/bwenv");
    assert_eq!(cache.version(), &version);
}

#[test]
fn test_get_and_set() {
    let version = Version::new(1, 0, 0);
    let mut cache = Cache::new("/tmp/cache_root".to_string(), &version);
    let profile = "test_profile";

    let secrets = secrets_of(&[("key", "value")]);
    cache.set(profile, secrets);

    let cache_entry = cache.get(profile).expect("Failed to get cache entry");
    assert_eq!(cache_entry.variables.get("key").map(|v| v.as_str()), Some("value"));
    assert_eq!(cache_entry.variables.len(), 1);
}

#[test]
fn test_clear_and_invalidate() {
    let version = Version::new(1, 0, 0);
    let mut cache = Cache::new("/tmp/cache_root".to_string(), &version);
    let profile = "test_profile";

    let secrets = secrets_of(&[("key", "value")]);
    cache.set(profile, secrets);
    assert!(cache.get(profile).is_some());

    cache.clear(profile);
    assert!(cache.get(profile).is_none());

    let secrets = secrets_of(&[("key", "value")]);
    cache.set(profile, secrets);
    cache.invalidate(profile);
    let cache_entry = cache
        .get(profile)
        .expect("Failed to get cache entry after invalidation");
    assert_eq!(cache_entry.last_revalidation, 0);
}

#[test]
fn stale_exactly_past_max_age() {
    let version = Version::new(1, 0, 0);
    let mut cache = Cache::new("/tmp/cache_root".to_string(), &version);
    let written_at: u64 = 1_000_000_000_000;
    cache.set_at("p", secrets_of(&[("A", "1")]), written_at);

    let max_age: u64 = 3600;
    // age of exactly max_age seconds: not stale
    assert!(!cache.is_stale_at("p", max_age, written_at + max_age * 1000));
    // one second past the allowance: stale
    assert!(cache.is_stale_at("p", max_age, written_at + (max_age + 1) * 1000));
    // fresh
    assert!(!cache.is_stale_at("p", max_age, written_at));
    // missing entry is stale
    assert!(cache.is_stale_at("other", max_age, written_at));
}

#[test]
fn version_mismatch_is_stale_regardless_of_age() {
    let v1 = Version::new(1, 0, 0);
    let v2 = Version::new(2, 0, 0);
    let mut cache1 = Cache::new("/tmp/cache_root".to_string(), &v1);
    let written_at: u64 = 1_000_000_000_000;
    cache1.set_at("p", secrets_of(&[("A", "1")]), written_at);

    // carry the stored bytes into a cache run by another tool version
    let mut cache2 = Cache::new("/tmp/cache_root".to_string(), &v2);
    for (profile, bytes) in cache1.dump_files() {
        cache2.load_file(&profile, bytes);
    }

    // age zero, yet stale for the other version
    assert!(cache2.is_stale_at("p", 3600, written_at));
    // while the writing version still sees it fresh
    assert!(!cache1.is_stale_at("p", 3600, written_at));
}

#[test]
fn invalidate_then_stale_for_any_allowance() {
    let version = Version::new(1, 0, 0);
    let mut cache = Cache::new("/tmp/cache_root".to_string(), &version);
    let now: u64 = 1_700_000_000_000;
    cache.set_at("p", secrets_of(&[("A", "1")]), now);
    assert!(!cache.is_stale_at("p", 86400, now));

    cache.invalidate("p");
    assert!(cache.is_stale_at("p", 0, now));
    assert!(cache.is_stale_at("p", 86400, now));
    assert!(cache.is_stale_at("p", 1_000_000_000, now));
    // the values survive the invalidation
    let e = cache.get("p").unwrap();
    assert_eq!(e.variables.get("A").map(|v| v.as_str()), Some("1"));
}

#[test]
fn set_get_round_trip_unicode() {
    let version = Version::new(3, 2, 1);
    let mut cache = Cache::new("/tmp/cache_root".to_string(), &version);
    let t: u64 = 42;
    let pairs: &[(&str, &str)] = &[
        ("kéy ☃", "vä\nlue"),
        ("", "empty key above, empty value below"),
        ("empty", ""),
    ];
    cache.set_at("prøfile", secrets_of(pairs), t);

    let e = cache.get("prøfile").expect("entry must round-trip");
    assert_eq!(e.last_revalidation, t);
    assert_eq!(e.version, Version::new(3, 2, 1));
    assert_eq!(e.variables.len(), 3);
    for (k, v) in pairs {
        assert_eq!(e.variables.get(k).map(|s| s.as_str()), Some(*v));
    }
}

#[test]
fn corrupt_entry_reads_as_miss() {
    let version = Version::new(1, 0, 0);
    let mut cache = Cache::new("/tmp/cache_root".to_string(), &version);
    cache.load_file("p", vec![1, 2, 3, 4, 5]);
    assert!(cache.get("p").is_none());

    // a long but still malformed entry
    cache.load_file("q", vec![0u8; 41]);
    assert!(cache.get("q").is_none());

    // and clearing a corrupt entry is not an error
    cache.clear("p");
    assert!(cache.get("p").is_none());
}

#[test]
fn revalidates_once_when_stale() {
    // Scenario: entry written 2 hours ago, allowance one hour.
    let version = Version::new(1, 0, 0);
    let mut cache = Cache::new("/tmp/cache_root".to_string(), &version);
    let now: u64 = 1_700_000_000_000;
    cache.set_at("default", secrets_of(&[("TEST_VALUE", "old")]), now - 2 * 3600 * 1000);

    let fetched = secrets_of(&[("TEST_VALUE", "fresh")]);
    let entry = cache
        .get_or_revalidate_at("default", 3600, now, move || fetched)
        .expect("revalidation must produce an entry");
    assert_eq!(entry.last_revalidation, now);
    assert_eq!(entry.variables.get("TEST_VALUE").map(|v| v.as_str()), Some("fresh"));

    // the fetched result was persisted before returning
    let persisted = cache.get("default").unwrap();
    assert_eq!(persisted.last_revalidation, now);
    assert_eq!(persisted.variables.get("TEST_VALUE").map(|v| v.as_str()), Some("fresh"));
}

#[test]
fn fresh_entry_skips_the_fetch() {
    // Scenario: entry written 10 seconds ago, allowance one hour.
    let version = Version::new(1, 0, 0);
    let mut cache = Cache::new("/tmp/cache_root".to_string(), &version);
    let now: u64 = 1_700_000_000_000;
    cache.set_at("default", secrets_of(&[("TEST_VALUE", "cached")]), now - 10 * 1000);

    let entry = cache
        .get_or_revalidate_at("default", 3600, now, || -> Secrets {
            panic!("the fetch must not run for a fresh entry")
        })
        .expect("the fresh entry must be returned");
    assert_eq!(entry.last_revalidation, now - 10 * 1000);
    assert_eq!(entry.variables.get("TEST_VALUE").map(|v| v.as_str()), Some("cached"));
}
