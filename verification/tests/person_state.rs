use chrono::{Datelike, NaiveDate};
use duty_roster::config::{Rule, Rules};
use duty_roster::date::{Date, Weekday};
use duty_roster::schedule::{GroupState, PersonState};

fn d(y: i32, m: u32, d: u32) -> Date {
    let day = NaiveDate::from_ymd_opt(y, m, d).unwrap();
    Date::from_num_days_from_ce_opt(day.num_days_from_ce()).unwrap()
}

fn get_day(counts: &Vec<(Weekday, usize)>, day: Weekday) -> Option<usize> {
    counts.iter().find(|entry| entry.0 == day).map(|entry| entry.1)
}

fn get_place(counts: &Vec<(String, usize)>, place: &str) -> Option<usize> {
    counts.iter().find(|entry| entry.0 == place).map(|entry| entry.1)
}

#[test]
fn new_person_has_clean_state() {
    let mut groups = vec![GroupState::default(), GroupState::default()];
    let p = PersonState::new(
        "Alice".to_string(),
        "A".to_string(),
        0,
    );
    assert_eq!(p.name(), "Alice");
    assert_eq!(p.place(), "A");
    assert_eq!(p.total_services(), 0);
    assert!(p.last_service().is_none());
    assert!(groups[p.group()].last_service.is_none());
    assert!(p.weekday_counts().is_empty());
}

#[test]
fn register_service_updates_counters() {
    let mut groups = vec![GroupState::default(), GroupState::default()];
    let mut p = PersonState::new("Bob".to_string(), "B".to_string(), 0);
    let date = d(2023, 9, 6); // Wednesday
    p.register_service(&mut groups, date, "B".to_string());

    assert_eq!(p.total_services(), 1);
    assert_eq!(p.last_service(), Some(date));
    assert_eq!(groups[p.group()].last_service, Some(date));
    assert_eq!(get_day(&p.weekday_counts(), Weekday::Wed).unwrap(), 1);
    assert_eq!(p.different_place_services(), 0);
}

#[test]
fn register_service_updates_group_state_for_all_people() {
    let mut groups = vec![GroupState::default(), GroupState::default()];
    let mut bob = PersonState::new("Bob".to_string(), "B".to_string(), 0);
    let alex = PersonState::new("Alex".to_string(), "B".to_string(), 0);

    let date = d(2023, 9, 6); // Wednesday
    bob.register_service(&mut groups, date, "B".to_string());

    assert_eq!(groups[alex.group()].last_service, Some(date));
}

#[test]
fn register_service_increments_weekday_counts() {
    let mut groups = vec![GroupState::default(), GroupState::default()];
    let mut p = PersonState::new("Bob".to_string(), "B".to_string(), 0);
    let wed1 = d(2023, 9, 6);
    let wed2 = d(2023, 9, 13);

    p.register_service(&mut groups, wed1, "B".to_string());
    p.register_service(&mut groups, wed2, "B".to_string());

    assert_eq!(get_day(&p.weekday_counts(), Weekday::Wed).unwrap(), 2);
}

#[test]
fn register_service_increments_different_place_services() {
    let mut groups = vec![GroupState::default(), GroupState::default()];
    let mut p = PersonState::new("Bob".to_string(), "B".to_string(), 0);
    let wed1 = d(2023, 9, 6);
    let wed2 = d(2023, 9, 13);

    p.register_service(&mut groups, wed1, "C".to_string());
    p.register_service(&mut groups, wed2, "C".to_string());

    assert_eq!(p.different_place_services(), 2);
}

#[test]
fn register_service_increments_different_place_services2() {
    let mut groups = vec![GroupState::default(), GroupState::default()];
    let mut p = PersonState::new("Bob".to_string(), "B".to_string(), 0);
    let wed1 = d(2023, 9, 6);
    let wed2 = d(2023, 9, 13);

    p.register_service(&mut groups, wed1, "C".to_string());
    p.register_service(&mut groups, wed2, "B".to_string());

    assert_eq!(p.different_place_services(), 1);
}

#[test]
fn unregister_service_decrements_total_services() {
    let mut groups = vec![GroupState::default(), GroupState::default()];
    let mut p = PersonState::new(
        "Alice".to_string(),
        "A".to_string(),
        0,
    );
    let date = d(2023, 9, 6);

    p.register_service(&mut groups, date, "A".to_string());
    assert_eq!(p.total_services(), 1);

    p.unregister_service(date, "A".to_string());
    assert_eq!(p.total_services(), 0);
}

#[test]
fn unregister_service_decrements_weekday_counts() {
    let mut groups = vec![GroupState::default(), GroupState::default()];
    let mut p = PersonState::new(
        "Alice".to_string(),
        "A".to_string(),
        0,
    );
    let wed = d(2023, 9, 6); // Wednesday

    p.register_service(&mut groups, wed, "A".to_string());
    assert_eq!(get_day(&p.weekday_counts(), Weekday::Wed).unwrap(), 1);

    p.unregister_service(wed, "A".to_string());
    assert!(!get_day(&p.weekday_counts(), Weekday::Wed).is_some());
}

#[test]
fn unregister_service_decrements_different_place_services() {
    let mut groups = vec![GroupState::default(), GroupState::default()];
    let mut p = PersonState::new(
        "Alice".to_string(),
        "A".to_string(),
        0,
    );
    let date = d(2023, 9, 6);

    p.register_service(&mut groups, date, "B".to_string()); // Different place
    assert_eq!(p.different_place_services(), 1);

    p.unregister_service(date, "B".to_string());
    assert_eq!(p.different_place_services(), 0);
}

#[test]
fn unregister_service_updates_last_service() {
    let mut groups = vec![GroupState::default(), GroupState::default()];
    let mut p = PersonState::new(
        "Alice".to_string(),
        "A".to_string(),
        0,
    );
    let date = d(2023, 9, 6);

    p.register_service(&mut groups, date, "A".to_string());
    assert_eq!(p.last_service(), Some(date));

    p.unregister_service(date, "A".to_string());
    assert_eq!(p.last_service(), None);
}

#[test]
fn sort_key_least_services() {
    let mut groups = vec![GroupState::default(), GroupState::default()];
    let mut p = PersonState::new(
        "Charlie".to_string(),
        "C".to_string(),
        0,
    );
    let date = d(2023, 9, 6);

    // no services yet
    let rules = Rules {
        filter: vec![],
        sort: vec![Rule::SortByLeastServices],
    };
    assert_eq!(p.sort_key(&groups, date, "C", &rules), vec![0]);

    // after one service
    p.register_service(&mut groups, date, "C".to_string());
    assert_eq!(p.sort_key(&groups, date, "C", &rules), vec![1]);

    // after two services
    p.register_service(&mut groups, date, "C".to_string());
    assert_eq!(p.sort_key(&groups, date, "C", &rules), vec![2]);
}

#[test]
fn sort_key_own_place_preferred() {
    let mut groups = vec![GroupState::default(), GroupState::default()];
    let p = PersonState::new("Dana".to_string(), "X".to_string(), 0);
    let rules = Rules {
        filter: vec![],
        sort: vec![Rule::SortByOwnPlace],
    };
    let date = d(2023, 9, 6);

    assert_eq!(p.sort_key(&groups, date, "X", &rules), vec![0]);
    assert_eq!(p.sort_key(&groups, date, "Y", &rules), vec![1]);
}

#[test]
fn sort_key_last_service_earlier_is_smaller() {
    let mut groups = vec![GroupState::default(), GroupState::default()];
    let mut p = PersonState::new("Eve".to_string(), "Z".to_string(), 0);
    let rules = Rules {
        filter: vec![],
        sort: vec![Rule::SortByLastService],
    };
    let date1 = d(2023, 9, 1);
    let date2 = d(2023, 9, 10);

    p.register_service(&mut groups, date1, "Z".to_string());
    let key1 = p.sort_key(&groups, date2, "Z", &rules)[0];

    p.register_service(&mut groups, date2, "Z".to_string());
    let key2 = p.sort_key(&groups, date2, "Z", &rules)[0];

    assert!(key1 < key2); // earlier service gives smaller value
}

#[test]
fn sort_key_max_distance_in_group_prefers_longer_gap() {
    let mut groups = vec![GroupState::default(), GroupState::default()];
    let mut p = PersonState::new(
        "Frank".to_string(),
        "F".to_string(),
        0,
    );
    let rules = Rules {
        filter: vec![],
        sort: vec![Rule::SortByMaxDistanceInGroup],
    };
    let start = d(2023, 1, 1);

    let key0 = p.sort_key(&groups, start, "F", &rules)[0];

    let work1 = d(2022, 12, 13);
    p.register_service(&mut groups, work1, "F".to_string());
    let key1 = p.sort_key(&groups, start, "F", &rules)[0];

    assert!(key0 < key1);

    let work2 = d(2022, 12, 15);
    p.register_service(&mut groups, work2, "F".to_string());
    let key2 = p.sort_key(&groups, start, "F", &rules)[0];

    assert!(key1 < key2);
}

#[test]
fn sort_key_max_distance_in_group_prefers_person_without_group() {
    let rules = Rules {
        filter: vec![],
        sort: vec![Rule::SortByMaxDistanceInGroup],
    };

    let mut groups = vec![GroupState::default(), GroupState::default()];
    let mut stefan = PersonState::new(
        "Frank".to_string(),
        "F".to_string(),
        0,
    );
    let martina = PersonState::new(
        "Martina".to_string(),
        "F".to_string(),
        0,
    );
    stefan.register_service(&mut groups, d(2025, 9, 4), "F".to_string());
    let key_stefan = stefan.sort_key(&groups, d(2025, 9, 11), "F", &rules)[0];

    let key_martina = martina.sort_key(&groups, d(2025, 9, 11), "F", &rules)[0];

    let petraq = PersonState::new(
        "Petraq".to_string(),
        "F".to_string(),
        1,
    );
    let key_petraq = petraq.sort_key(&groups, d(2025, 9, 11), "F", &rules)[0];

    assert!(key_petraq < key_stefan);
    assert!(key_petraq < key_martina);
}

#[test]
fn sort_key_with_multiple_rules() {
    let date = d(2023, 9, 10); // Sunday

    // Person A: 1 service in own place
    let mut groups = vec![GroupState::default(), GroupState::default()];
    let mut a = PersonState::new(
        "Alice".to_string(),
        "G".to_string(),
        0,
    );
    a.register_service(&mut groups, d(2023, 9, 1), "G".to_string());

    // Person B: 2 services, not in own place
    let mut b = PersonState::new("Bob".to_string(), "H".to_string(), 1);
    b.register_service(&mut groups, d(2023, 9, 2), "H".to_string());
    b.register_service(&mut groups, d(2023, 9, 3), "H".to_string());

    // Rules: fewest services → own place → longest distance at place
    let rules = Rules {
        sort: vec![Rule::SortByLeastServices, Rule::SortByOwnPlace],
        filter: vec![],
    };

    let key_a = a.sort_key(&groups, date, "G", &rules);
    let key_b = b.sort_key(&groups, date, "G", &rules);

    // Alice has fewer services, is at place, and has place distance
    // Bob has more services, not at place
    assert!(key_a < key_b, "Alice should sort before Bob");
}

#[test]
fn sort_key_with_multiple_rules_place_first() {
    let date = d(2023, 9, 10); // Sunday

    // Person A: 1 service in own place
    let mut groups = vec![GroupState::default(), GroupState::default()];
    let mut a = PersonState::new(
        "Alice".to_string(),
        "G".to_string(),
        0,
    );
    a.register_service(&mut groups, d(2023, 9, 1), "G".to_string());

    // Person B: 2 services, not in own place
    let mut b = PersonState::new("Bob".to_string(), "H".to_string(), 1);
    b.register_service(&mut groups, d(2023, 9, 2), "H".to_string());
    b.register_service(&mut groups, d(2023, 9, 3), "H".to_string());

    // Rules: own place → longest distance at place → fewest services (last tie-breaker)
    let rules = Rules {
        sort: vec![Rule::SortByOwnPlace, Rule::SortByLeastServices],
        filter: vec![],
    };

    let key_a = a.sort_key(&groups, date, "H", &rules);
    let key_b = b.sort_key(&groups, date, "H", &rules);

    // Alice is at place, Bob isn’t → Alice should win immediately
    assert!(key_b < key_a, "Bob should sort before Alice");
}

#[test]
fn sort_key_reverse_case_tiebreaking() {
    let date = d(2023, 9, 10);

    // Xavier: at place, but very recent place service
    let mut groups = vec![GroupState::default(), GroupState::default()];
    let mut x = PersonState::new(
        "Xavier".to_string(),
        "G".to_string(),
        0,
    );
    x.register_service(&mut groups, d(2023, 9, 9), "G".to_string()); // just 1 day ago

    // Yara: not at place, but longer service distance
    let mut y = PersonState::new(
        "Yara".to_string(),
        "H".to_string(),
        1,
    );
    y.register_service(&mut groups, d(2023, 8, 1), "H".to_string()); // long ago

    // Rules: own place → max distance at place → fewest services
    let rules = Rules {
        sort: vec![Rule::SortByOwnPlace, Rule::SortByLastService],
        filter: vec![],
    };

    let key_x = x.sort_key(&groups, date, "G", &rules);
    let key_y = y.sort_key(&groups, date, "G", &rules);

    // Even though Y has better place distance, X is in the right place
    // Since SortByOwnPlace comes first, Xavier must win
    assert!(
        key_x < key_y,
        "Xavier should sort before Yara due to place match"
    );

    // Now flip priority: put distance before own place
    let flipped_rules = Rules {
        sort: vec![Rule::SortByLastService, Rule::SortByOwnPlace],
        filter: vec![],
    };

    let key_x2 = x.sort_key(&groups, date, "G", &flipped_rules);
    let key_y2 = y.sort_key(&groups, date, "G", &flipped_rules);

    // Now Yara should win because distance is more important than place
    assert!(
        key_y2 < key_x2,
        "Yara should sort before Xavier due to longer distance"
    );
}

#[test]
fn sort_by_different_place_services() {
    let date = d(2023, 9, 10); // Sunday

    // Person A: 1 service in own place
    let mut groups = vec![GroupState::default(), GroupState::default()];
    let mut a = PersonState::new(
        "Alice".to_string(),
        "G".to_string(),
        0,
    );
    a.register_service(&mut groups, d(2023, 9, 1), "G".to_string());

    // Person B: 2 services, not in own place
    let mut b = PersonState::new("Bob".to_string(), "H".to_string(), 1);
    b.register_service(&mut groups, d(2023, 9, 1), "G".to_string());

    // Rules: fewest services → own place → longest distance at place
    let rules = Rules {
        sort: vec![Rule::SortByDifferentPlaceServices],
        filter: vec![],
    };

    let key_a = a.sort_key(&groups, date, "I", &rules);
    let key_b = b.sort_key(&groups, date, "I", &rules);

    // Alice has fewer services in a different place, prefer Bob
    assert!(key_a < key_b, "Alice should sort before Bob");
}

#[test]
fn sort_by_different_place_services2() {
    let date = d(2023, 9, 10); // Sunday

    // Person A: 1 service in own place
    let mut groups = vec![GroupState::default(), GroupState::default()];
    let mut a = PersonState::new(
        "Alice".to_string(),
        "G".to_string(),
        0,
    );
    a.register_service(&mut groups, d(2023, 9, 1), "G".to_string());

    // Person B: 2 services, not in own place
    let mut b = PersonState::new("Bob".to_string(), "H".to_string(), 1);
    b.register_service(&mut groups, d(2023, 9, 1), "G".to_string());

    // Rules: fewest services → own place → longest distance at place
    let rules = Rules {
        sort: vec![Rule::SortByDifferentPlaceServices],
        filter: vec![],
    };

    let key_a = a.sort_key(&groups, date, "G", &rules);
    let key_b = b.sort_key(&groups, date, "G", &rules);

    // Alice has fewer services in a different place, usually we would prefer Bob
    // but as we need a service for Alice place, prefer Alice
    assert!(key_a < key_b, "Alice should sort before Bob");
}

#[test]
fn place_counts_tracks_services_by_place() {
    let mut groups = vec![GroupState::default(), GroupState::default()];
    let mut p = PersonState::new("Alice".to_string(), "A".to_string(), 0);

    p.register_service(&mut groups, d(2023, 9, 1), "A".to_string());
    p.register_service(&mut groups, d(2023, 9, 2), "B".to_string());
    p.register_service(&mut groups, d(2023, 9, 3), "A".to_string());
    p.register_service(&mut groups, d(2023, 9, 4), "C".to_string());

    let place_counts = p.place_counts();
    assert_eq!(get_place(&place_counts, "A").unwrap(), 2);
    assert_eq!(get_place(&place_counts, "B").unwrap(), 1);
    assert_eq!(get_place(&place_counts, "C").unwrap(), 1);
}

#[test]
fn place_counts_decrements_on_unregister() {
    let mut groups = vec![GroupState::default(), GroupState::default()];
    let mut p = PersonState::new("Bob".to_string(), "X".to_string(), 0);

    p.register_service(&mut groups, d(2023, 9, 1), "X".to_string());
    p.register_service(&mut groups, d(2023, 9, 2), "Y".to_string());
    p.register_service(&mut groups, d(2023, 9, 3), "X".to_string());

    assert_eq!(get_place(&p.place_counts(), "X").unwrap(), 2);
    assert_eq!(get_place(&p.place_counts(), "Y").unwrap(), 1);

    p.unregister_service(d(2023, 9, 1), "X".to_string());

    assert_eq!(get_place(&p.place_counts(), "X").unwrap(), 1);
    assert_eq!(get_place(&p.place_counts(), "Y").unwrap(), 1);
}

#[test]
fn place_counts_removes_zero_counts() {
    let mut groups = vec![GroupState::default(), GroupState::default()];
    let mut p = PersonState::new("Charlie".to_string(), "P".to_string(), 0);

    p.register_service(&mut groups, d(2023, 9, 1), "Q".to_string());
    assert_eq!(get_place(&p.place_counts(), "Q").unwrap(), 1);

    p.unregister_service(d(2023, 9, 1), "Q".to_string());
    assert!(!get_place(&p.place_counts(), "Q").is_some());
}

#[test]
fn place_counts_empty_for_new_person() {
    let mut groups = vec![GroupState::default(), GroupState::default()];
    let p = PersonState::new("Dave".to_string(), "D".to_string(), 0);

    let place_counts = p.place_counts();
    assert!(place_counts.is_empty());
}

#[test]
fn place_counts_multiple_services_same_place() {
    let mut groups = vec![GroupState::default(), GroupState::default()];
    let mut p = PersonState::new("Eve".to_string(), "E".to_string(), 0);

    // Register 5 services at the same place
    for i in 1..=5 {
        p.register_service(&mut groups, d(2023, 9, i), "E".to_string());
    }

    let place_counts = p.place_counts();
    assert_eq!(get_place(&place_counts, "E").unwrap(), 5);
    assert_eq!(place_counts.len(), 1);
}

#[test]
fn place_counts_with_many_different_places() {
    let mut groups = vec![GroupState::default(), GroupState::default()];
    let mut p = PersonState::new("Frank".to_string(), "F".to_string(), 0);

    // Register services at 5 different places
    p.register_service(&mut groups, d(2023, 9, 1), "Place1".to_string());
    p.register_service(&mut groups, d(2023, 9, 2), "Place2".to_string());
    p.register_service(&mut groups, d(2023, 9, 3), "Place3".to_string());
    p.register_service(&mut groups, d(2023, 9, 4), "Place4".to_string());
    p.register_service(&mut groups, d(2023, 9, 5), "Place5".to_string());

    let place_counts = p.place_counts();
    assert_eq!(place_counts.len(), 5);
    assert_eq!(get_place(&place_counts, "Place1").unwrap(), 1);
    assert_eq!(get_place(&place_counts, "Place2").unwrap(), 1);
    assert_eq!(get_place(&place_counts, "Place3").unwrap(), 1);
    assert_eq!(get_place(&place_counts, "Place4").unwrap(), 1);
    assert_eq!(get_place(&place_counts, "Place5").unwrap(), 1);
}

#[test]
fn place_counts_unregister_nonexistent_place() {
    let mut groups = vec![GroupState::default(), GroupState::default()];
    let mut p = PersonState::new("Grace".to_string(), "G".to_string(), 0);

    p.register_service(&mut groups, d(2023, 9, 1), "G".to_string());

    // Try to unregister a place that was never registered
    p.unregister_service(d(2023, 9, 2), "NonExistent".to_string());

    // The count of the place that was served stays as it is
    assert_eq!(get_place(&p.place_counts(), "G").unwrap(), 1);
    assert!(!get_place(&p.place_counts(), "NonExistent").is_some());
}

#[test]
fn place_counts_unregister_when_zero() {
    let mut groups = vec![GroupState::default(), GroupState::default()];
    let mut p = PersonState::new("Henry".to_string(), "H".to_string(), 0);

    // Don't register any services
    // Try to unregister - should handle gracefully
    p.unregister_service(d(2023, 9, 1), "H".to_string());

    let place_counts = p.place_counts();
    assert!(place_counts.is_empty());
}

#[test]
fn place_counts_unregister_multiple_times() {
    let mut groups = vec![GroupState::default(), GroupState::default()];
    let mut p = PersonState::new("Iris".to_string(), "I".to_string(), 0);

    p.register_service(&mut groups, d(2023, 9, 1), "I".to_string());
    p.register_service(&mut groups, d(2023, 9, 2), "I".to_string());
    p.register_service(&mut groups, d(2023, 9, 3), "I".to_string());

    assert_eq!(get_place(&p.place_counts(), "I").unwrap(), 3);

    // Unregister twice
    p.unregister_service(d(2023, 9, 1), "I".to_string());
    assert_eq!(get_place(&p.place_counts(), "I").unwrap(), 2);

    p.unregister_service(d(2023, 9, 2), "I".to_string());
    assert_eq!(get_place(&p.place_counts(), "I").unwrap(), 1);

    // Unregister one more time - should remove the entry
    p.unregister_service(d(2023, 9, 3), "I".to_string());
    assert!(!get_place(&p.place_counts(), "I").is_some());
}

#[test]
fn place_counts_mixed_register_and_unregister() {
    let mut groups = vec![GroupState::default(), GroupState::default()];
    let mut p = PersonState::new("Jack".to_string(), "J".to_string(), 0);

    // Register services at two places
    p.register_service(&mut groups, d(2023, 9, 1), "J".to_string());
    p.register_service(&mut groups, d(2023, 9, 2), "K".to_string());
    p.register_service(&mut groups, d(2023, 9, 3), "J".to_string());
    p.register_service(&mut groups, d(2023, 9, 4), "K".to_string());

    assert_eq!(get_place(&p.place_counts(), "J").unwrap(), 2);
    assert_eq!(get_place(&p.place_counts(), "K").unwrap(), 2);

    // Unregister one from each
    p.unregister_service(d(2023, 9, 1), "J".to_string());
    p.unregister_service(d(2023, 9, 2), "K".to_string());

    assert_eq!(get_place(&p.place_counts(), "J").unwrap(), 1);
    assert_eq!(get_place(&p.place_counts(), "K").unwrap(), 1);

    // Register more at J
    p.register_service(&mut groups, d(2023, 9, 5), "J".to_string());
    assert_eq!(get_place(&p.place_counts(), "J").unwrap(), 2);
}

#[test]
fn place_counts_getter_returns_clone() {
    let mut groups = vec![GroupState::default(), GroupState::default()];
    let mut p = PersonState::new("Kate".to_string(), "K".to_string(), 0);

    p.register_service(&mut groups, d(2023, 9, 1), "K".to_string());

    // Get a clone of place counts
    let mut counts1 = p.place_counts();
    assert_eq!(get_place(&counts1, "K").unwrap(), 1);

    // Modify the clone
    counts1[0].1 = 999;

    // The ledger itself is unchanged
    let counts2 = p.place_counts();
    assert_eq!(get_place(&counts2, "K").unwrap(), 1);
}

#[test]
fn place_counts_with_special_place_names() {
    let mut groups = vec![GroupState::default(), GroupState::default()];
    let mut p = PersonState::new("Leo".to_string(), "L".to_string(), 0);

    // Test with special characters and spaces
    p.register_service(&mut groups, d(2023, 9, 1), "Place-A".to_string());
    p.register_service(&mut groups, d(2023, 9, 2), "Place B".to_string());
    p.register_service(&mut groups, d(2023, 9, 3), "Place_C".to_string());
    p.register_service(&mut groups, d(2023, 9, 4), "PlaceD!".to_string());

    let place_counts = p.place_counts();
    assert_eq!(get_place(&place_counts, "Place-A").unwrap(), 1);
    assert_eq!(get_place(&place_counts, "Place B").unwrap(), 1);
    assert_eq!(get_place(&place_counts, "Place_C").unwrap(), 1);
    assert_eq!(get_place(&place_counts, "PlaceD!").unwrap(), 1);
    assert_eq!(place_counts.len(), 4);
}

#[test]
fn own_place_beats_any_history_under_different_place_services() {
    let mut groups = vec![GroupState::default(), GroupState::default()];
    let rules = Rules {
        sort: vec![Rule::SortByDifferentPlaceServices],
        filter: vec![],
    };
    // At home at "G", with many services away from home.
    let mut home = PersonState::new("Home".to_string(), "G".to_string(), 0);
    for i in 1..=9 {
        home.register_service(&mut groups, d(2023, 9, i), "H".to_string());
    }
    // At home elsewhere, with no service at all.
    let other = PersonState::new("Other".to_string(), "H".to_string(), 1);

    let key_home = home.sort_key(&groups, d(2023, 9, 10), "G", &rules);
    let key_other = other.sort_key(&groups, d(2023, 9, 10), "G", &rules);
    assert_eq!(key_home, vec![i64::MIN / 9]);
    assert_eq!(key_other, vec![0]);
    assert!(key_home < key_other);
}

#[test]
fn different_place_services_key_at_home_is_the_smallest_integer_divided() {
    let mut groups = vec![GroupState::default()];
    let rules = Rules {
        sort: vec![Rule::SortByDifferentPlaceServices],
        filter: vec![],
    };
    let mut p = PersonState::new("P".to_string(), "G".to_string(), 0);
    assert_eq!(p.sort_key(&groups, d(2023, 9, 10), "G", &rules), vec![i64::MIN]);
    p.register_service(&mut groups, d(2023, 9, 1), "H".to_string());
    assert_eq!(p.sort_key(&groups, d(2023, 9, 10), "G", &rules), vec![i64::MIN]);
    p.register_service(&mut groups, d(2023, 9, 2), "H".to_string());
    assert_eq!(p.sort_key(&groups, d(2023, 9, 10), "G", &rules), vec![i64::MIN / 2]);
    p.register_service(&mut groups, d(2023, 9, 3), "H".to_string());
    assert_eq!(
        p.sort_key(&groups, d(2023, 9, 10), "G", &rules),
        vec![-3074457345618258602]
    );
    // Away from home the key is the count itself.
    assert_eq!(p.sort_key(&groups, d(2023, 9, 10), "H", &rules), vec![3]);
}

#[test]
fn last_service_key_counts_weeks() {
    let mut groups = vec![GroupState::default()];
    let rules = Rules {
        sort: vec![Rule::SortByLastService],
        filter: vec![],
    };
    let mut p = PersonState::new("P".to_string(), "G".to_string(), 0);
    assert_eq!(p.sort_key(&groups, d(2023, 9, 30), "G", &rules), vec![i64::MIN]);

    // 2023-09-04 is day 738767 = 7 * 105538 + 1.
    let monday = d(2023, 9, 4);
    assert_eq!(monday.num_days_from_ce(), 738_767);
    p.register_service(&mut groups, monday, "G".to_string());
    let key_monday = p.sort_key(&groups, d(2023, 9, 30), "G", &rules);
    assert_eq!(key_monday, vec![105_538]);

    // Three days later: the same week.
    p.register_service(&mut groups, d(2023, 9, 7), "G".to_string());
    assert_eq!(p.sort_key(&groups, d(2023, 9, 30), "G", &rules), key_monday);

    // Ten days later: another week.
    p.register_service(&mut groups, d(2023, 9, 14), "G".to_string());
    assert_eq!(p.sort_key(&groups, d(2023, 9, 30), "G", &rules), vec![105_539]);
}

#[test]
fn three_days_apart_can_fall_into_two_weeks() {
    let mut groups = vec![GroupState::default()];
    let rules = Rules {
        sort: vec![Rule::SortByLastService],
        filter: vec![],
    };
    let mut p = PersonState::new("P".to_string(), "G".to_string(), 0);
    // Day 738771 is the fifth day of its stretch of seven.
    p.register_service(&mut groups, d(2023, 9, 8), "G".to_string());
    let before = p.sort_key(&groups, d(2023, 9, 30), "G", &rules);
    p.register_service(&mut groups, d(2023, 9, 11), "G".to_string());
    let after = p.sort_key(&groups, d(2023, 9, 30), "G", &rules);
    assert_eq!(before, vec![105_538]);
    assert_eq!(after, vec![105_539]);
}

#[test]
fn group_mates_see_each_others_services() {
    let mut groups = vec![GroupState::default()];
    let rules = Rules {
        sort: vec![Rule::SortByMaxDistanceInGroup],
        filter: vec![],
    };
    let mut a = PersonState::new("A".to_string(), "G".to_string(), 0);
    let b = PersonState::new("B".to_string(), "G".to_string(), 0);
    assert_eq!(b.sort_key(&groups, d(2023, 9, 30), "G", &rules), vec![i64::MIN]);

    let served = d(2023, 9, 4);
    a.register_service(&mut groups, served, "G".to_string());
    assert_eq!(b.total_services(), 0);
    assert_eq!(
        b.sort_key(&groups, d(2023, 9, 30), "G", &rules),
        vec![served.num_days_from_ce() as i64]
    );
    assert_eq!(
        a.sort_key(&groups, d(2023, 9, 30), "G", &rules),
        b.sort_key(&groups, d(2023, 9, 30), "G", &rules)
    );
}

#[test]
fn group_state_is_overwritten_by_an_earlier_date() {
    let mut groups = vec![GroupState::default()];
    let mut a = PersonState::new("A".to_string(), "G".to_string(), 0);
    let mut b = PersonState::new("B".to_string(), "G".to_string(), 0);
    a.register_service(&mut groups, d(2023, 9, 10), "G".to_string());
    b.register_service(&mut groups, d(2023, 9, 3), "G".to_string());
    assert_eq!(groups[0].last_service, Some(d(2023, 9, 3)));
}

#[test]
fn register_then_unregister_restores_the_counts() {
    let mut groups = vec![GroupState::default()];
    let mut p = PersonState::new("P".to_string(), "G".to_string(), 0);
    let date = d(2023, 9, 6);
    p.register_service(&mut groups, date, "H".to_string());
    p.unregister_service(date, "H".to_string());
    assert_eq!(p.total_services(), 0);
    assert!(p.weekday_counts().is_empty());
    assert!(p.place_counts().is_empty());
    assert_eq!(p.different_place_services(), 0);
    assert_eq!(p.last_service(), None);
    // The group keeps the service.
    assert_eq!(groups[0].last_service, Some(date));
}

#[test]
fn unregister_forgets_the_last_service_without_looking_for_an_earlier_one() {
    let mut groups = vec![GroupState::default()];
    let mut p = PersonState::new("P".to_string(), "G".to_string(), 0);
    p.register_service(&mut groups, d(2023, 9, 1), "G".to_string());
    p.register_service(&mut groups, d(2023, 9, 6), "G".to_string());
    p.unregister_service(d(2023, 9, 6), "G".to_string());
    assert_eq!(p.last_service(), None);
    assert_eq!(p.total_services(), 1);

    // Another date than the last one leaves the last service alone.
    p.register_service(&mut groups, d(2023, 9, 8), "G".to_string());
    p.unregister_service(d(2023, 9, 1), "G".to_string());
    assert_eq!(p.last_service(), Some(d(2023, 9, 8)));
}

#[test]
fn unregister_stops_at_zero() {
    let mut p = PersonState::new("P".to_string(), "G".to_string(), 0);
    p.unregister_service(d(2023, 9, 6), "H".to_string());
    assert_eq!(p.total_services(), 0);
    assert_eq!(p.different_place_services(), 0);
    assert_eq!(p.weekday_count(Weekday::Wed), 0);
    assert_eq!(p.place_count(&"H".to_string()), 0);
}

#[test]
fn weekday_counts_are_listed_monday_first() {
    let mut groups = vec![GroupState::default()];
    let mut p = PersonState::new("P".to_string(), "G".to_string(), 0);
    p.register_service(&mut groups, d(2023, 9, 10), "G".to_string()); // Sunday
    p.register_service(&mut groups, d(2023, 9, 6), "G".to_string()); // Wednesday
    p.register_service(&mut groups, d(2023, 9, 13), "G".to_string()); // Wednesday
    assert_eq!(
        p.weekday_counts(),
        vec![(Weekday::Wed, 2), (Weekday::Sun, 1)]
    );
}

#[test]
fn same_weekday_key_counts_services_on_the_slots_weekday() {
    let mut groups = vec![GroupState::default()];
    let rules = Rules {
        sort: vec![Rule::SortByLessServicesAtSameWeekday, Rule::FilterSamePlace],
        filter: vec![],
    };
    let mut p = PersonState::new("P".to_string(), "G".to_string(), 0);
    p.register_service(&mut groups, d(2023, 9, 6), "G".to_string()); // Wednesday
    p.register_service(&mut groups, d(2023, 9, 13), "G".to_string()); // Wednesday
    assert_eq!(p.sort_key(&groups, d(2023, 9, 20), "G", &rules), vec![2, 0]);
    assert_eq!(p.sort_key(&groups, d(2023, 9, 21), "G", &rules), vec![0, 0]);
}

#[test]
fn clone_keeps_the_ledger_and_the_group() {
    let mut groups = vec![GroupState::default(), GroupState::default()];
    let mut p = PersonState::new("P".to_string(), "G".to_string(), 1);
    p.register_service(&mut groups, d(2023, 9, 6), "H".to_string());
    let q = p.clone();
    assert_eq!(q.name(), "P");
    assert_eq!(q.place(), "G");
    assert_eq!(q.group(), 1);
    assert_eq!(q.total_services(), 1);
    assert_eq!(q.place_counts(), vec![("H".to_string(), 1)]);
    assert_eq!(q.weekday_counts(), p.weekday_counts());
    assert_eq!(q.last_service(), p.last_service());
}
