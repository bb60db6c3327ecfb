use detect_indent::{most_used, Usage, UsageMap};

#[test]
fn test_get_most_used() {
    let mut map = UsageMap::new();
    assert_eq!(most_used(&map), 0);
    map.insert(1, Usage { used: 1, weight: 1 });
    assert_eq!(most_used(&map), 1);
    map.insert(2, Usage { used: 2, weight: 2 });
    assert_eq!(most_used(&map), 2);
    map.insert(3, Usage { used: 1, weight: 1 });
    assert_eq!(most_used(&map), 2);
    map.insert(4, Usage { used: 1, weight: 1 });
    assert_eq!(most_used(&map), 2);
    map.insert(5, Usage { used: 4, weight: 4 });
    assert_eq!(most_used(&map), 5);
    map.insert(
        1,
        Usage {
            used: 10,
            weight: 10,
        },
    );
    assert_eq!(most_used(&map), 1);
}

#[test]
fn most_used_empty_map_is_zero() {
    let map = UsageMap::new();
    assert_eq!(most_used(&map), 0);
}

#[test]
fn most_used_single_entry_wins() {
    let mut map = UsageMap::new();
    map.insert(7, Usage { used: 1, weight: 1 });
    assert_eq!(most_used(&map), 7);
}

#[test]
fn most_used_higher_used_beats_lower() {
    let mut map = UsageMap::new();
    map.insert(2, Usage { used: 3, weight: 3 });
    map.insert(8, Usage { used: 5, weight: 5 });
    assert_eq!(most_used(&map), 8);
}

#[test]
fn most_used_exact_tie_keeps_first_seen() {
    let mut map = UsageMap::new();
    map.insert(2, Usage { used: 1, weight: 1 });
    map.insert(3, Usage { used: 1, weight: 1 });
    assert_eq!(most_used(&map), 2);
}

#[test]
fn most_used_higher_weight_breaks_used_tie() {
    let mut map = UsageMap::new();
    map.insert(4, Usage { used: 2, weight: 2 });
    map.insert(6, Usage { used: 2, weight: 3 });
    assert_eq!(most_used(&map), 6);
}

#[test]
fn insert_replaces_existing_counters() {
    let mut map = UsageMap::new();
    map.insert(3, Usage { used: 1, weight: 1 });
    map.insert(5, Usage { used: 2, weight: 2 });
    map.insert(3, Usage { used: 9, weight: 9 });
    assert_eq!(most_used(&map), 3);
}
