use bwenv::secrets::Secrets;

fn secrets_of(pairs: &[(&str, &str)]) -> Secrets {
    let mut s = Secrets::new();
    for (k, v) in pairs {
        s.insert((*k).to_string(), (*v).to_string());
    }
    s
}

#[test]
fn merge_overlay_wins_on_collision() {
    let a = secrets_of(&[("K", "from_a"), ("ONLY_A", "a")]);
    let b = secrets_of(&[("K", "from_b"), ("ONLY_B", "b")]);
    let m = Secrets::merge(&a, &b);

    assert_eq!(m.get("K").unwrap(), "from_b");
    assert_eq!(m.get("ONLY_A").unwrap(), "a");
    assert_eq!(m.get("ONLY_B").unwrap(), "b");
    assert_eq!(m.len(), 3);
    assert!(m.get("ABSENT").is_none());
}

#[test]
fn merge_with_empty_sides() {
    let a = secrets_of(&[("K", "v")]);
    let empty = Secrets::new();

    let left = Secrets::merge(&empty, &a);
    assert_eq!(left.get("K").unwrap(), "v");
    assert_eq!(left.len(), 1);

    let right = Secrets::merge(&a, &empty);
    assert_eq!(right.get("K").unwrap(), "v");
    assert_eq!(right.len(), 1);

    let both = Secrets::merge(&empty, &Secrets::new());
    assert_eq!(both.len(), 0);
}

#[test]
fn final_precedence_chain() {
    // Scenario: global overrides, an empty "default" profile override set,
    // and fetched secrets, merged as the resolve pipeline merges them.
    let global = secrets_of(&[("FORCE_COLOR", "1")]);
    let profile = secrets_of(&[]);
    let fetched = secrets_of(&[("TEST_VALUE", "default")]);

    let merged_overrides = Secrets::merge(&global, &profile);
    let final_secrets = Secrets::merge(&fetched, &merged_overrides);

    assert_eq!(final_secrets.get("FORCE_COLOR").unwrap(), "1");
    assert_eq!(final_secrets.get("TEST_VALUE").unwrap(), "default");
    assert_eq!(final_secrets.len(), 2);
}

#[test]
fn profile_override_beats_fetched_value() {
    // Scenario: the profile overrides a key the remote also returned.
    let global = secrets_of(&[("FORCE_COLOR", "1")]);
    let profile = secrets_of(&[("TEST_VALUE", "other")]);
    let fetched = secrets_of(&[("TEST_VALUE", "remote")]);

    let merged_overrides = Secrets::merge(&global, &profile);
    let final_secrets = Secrets::merge(&fetched, &merged_overrides);

    assert_eq!(final_secrets.get("FORCE_COLOR").unwrap(), "1");
    assert_eq!(final_secrets.get("TEST_VALUE").unwrap(), "other");
    assert_eq!(final_secrets.len(), 2);
}

#[test]
fn insert_replaces_and_get_misses() {
    let mut s = Secrets::new();
    s.insert("A".to_string(), "1".to_string());
    s.insert("A".to_string(), "2".to_string());
    assert_eq!(s.get("A").unwrap(), "2");
    assert_eq!(s.len(), 1);
    assert!(s.get("B").is_none());
}

#[test]
fn from_pairs_later_wins() {
    let s = Secrets::from_pairs(vec![
        ("A".to_string(), "1".to_string()),
        ("B".to_string(), "2".to_string()),
        ("A".to_string(), "3".to_string()),
    ]);
    assert_eq!(s.get("A").unwrap(), "3");
    assert_eq!(s.get("B").unwrap(), "2");
    assert_eq!(s.len(), 2);
}

#[test]
fn from_unique_pairs_rejects_duplicates() {
    let dup = Secrets::from_unique_pairs(vec![
        ("A".to_string(), "1".to_string()),
        ("A".to_string(), "2".to_string()),
    ]);
    assert!(dup.is_none());

    let ok = Secrets::from_unique_pairs(vec![
        ("A".to_string(), "1".to_string()),
        ("B".to_string(), "2".to_string()),
    ])
    .unwrap();
    assert_eq!(ok.get("A").unwrap(), "1");
    assert_eq!(ok.get("B").unwrap(), "2");
}

#[test]
fn as_vec_lists_all_pairs() {
    let s = secrets_of(&[("A", "1"), ("B", "2")]);
    let v = s.as_vec();
    assert_eq!(v.len(), 2);
    assert!(v.contains(&("A".to_string(), "1".to_string())));
    assert!(v.contains(&("B".to_string(), "2".to_string())));
}

#[test]
fn unicode_keys_are_distinct() {
    let s = secrets_of(&[("clé", "fr"), ("cle", "ascii")]);
    assert_eq!(s.get("clé").unwrap(), "fr");
    assert_eq!(s.get("cle").unwrap(), "ascii");
    assert_eq!(s.len(), 2);
}

#[test]
fn table_lists_keys_and_values() {
    let s = secrets_of(&[("TEST_VALUE", "default")]);
    let revealed = s.table(true);
    assert!(revealed.contains("TEST_VALUE :: default"));

    let redacted = s.table(false);
    assert!(redacted.contains("TEST_VALUE"));
    assert!(redacted.contains("**redacted**"));
    assert!(!redacted.contains("default"));
}

#[test]
fn displayed_withholds_values_unless_revealed() {
    let s = secrets_of(&[("A", "secret_a"), ("B", "secret_b")]);

    let rows = s.displayed(false);
    assert_eq!(rows.len(), 2);
    for (key, value) in &rows {
        assert_eq!(value, "**redacted**");
        assert!(key == "A" || key == "B");
    }

    let rows = s.displayed(true);
    assert_eq!(rows.len(), 2);
    assert!(rows.contains(&("A".to_string(), "secret_a".to_string())));
    assert!(rows.contains(&("B".to_string(), "secret_b".to_string())));
}
