use chrono::{Datelike, NaiveDate};
use duty_roster::config::{Config, Dates, Group, Member, Places, Rule, Rules};
use duty_roster::date::{Date, Weekday};
use duty_roster::gui::config::{found_config_files, is_excluded_file, name_schedule_file};
use duty_roster::gui::state::{toggle_name, AppState};
use duty_roster::gui::summary::{summary_content, summary_line_of};
use duty_roster::gui::{CellPosition, Tab};
use duty_roster::schedule::{replay_assignments, Assignment, GroupState, PersonState};
use duty_roster::text::decimal_text;

fn create_test_date(year: i32, month: u32, day: u32) -> Date {
    let day = NaiveDate::from_ymd_opt(year, month, day).unwrap();
    Date::from_num_days_from_ce_opt(day.num_days_from_ce()).unwrap()
}

fn create_test_assignments() -> Vec<Assignment> {
    vec![
        Assignment {
            date: create_test_date(2025, 9, 1),
            place: "Place A".to_string(),
            person: "Person1".to_string(),
        },
        Assignment {
            date: create_test_date(2025, 9, 2),
            place: "Place B".to_string(),
            person: "Person2".to_string(),
        },
    ]
}

fn test_config() -> Config {
    Config {
        dates: Dates {
            from: create_test_date(2025, 9, 1),
            to: create_test_date(2025, 9, 30),
            exceptions: vec![],
            weekdays: vec![Weekday::Mon],
        },
        places: Places {
            places: vec!["Place A".to_string(), "Place B".to_string()],
        },
        group: vec![
            Group {
                name: "G".to_string(),
                place: "Place A".to_string(),
                members: vec![
                    Member {
                        name: "Person1".to_string(),
                    },
                    Member {
                        name: "Person2".to_string(),
                    },
                ],
            },
            Group {
                name: "H".to_string(),
                place: "Place B".to_string(),
                members: vec![Member {
                    name: "Person3".to_string(),
                }],
            },
        ],
        rules: Rules {
            sort: vec![Rule::SortByLeastServices],
            filter: vec![],
        },
    }
}

#[test]
fn test_app_state_default() {
    let state = AppState::default();
    assert!(state.config_files.is_empty());
    assert!(state.selected_config.is_none());
    assert!(state.assignments.is_empty());
    assert!(state.people.is_empty());
    assert!(state.error.is_none());
    assert!(state.success_message.is_none());
    assert!(state.success_message_expires_at.is_none());
    assert_eq!(state.active_tab, Tab::Schedule);
    assert!(state.selected_cell.is_none());
    assert!(state.hovered_cell.is_none());
    assert_eq!(state.highlighted_names, [None, None, None, None]);
}

#[test]
fn test_get_cell_info_valid_position() {
    let mut state = AppState::default();
    state.assignments = create_test_assignments();

    // Test valid position
    let cell_info = state.get_cell_info(CellPosition { row: 1, column: 1 });
    assert!(cell_info.is_some());

    if let Some((date, place, person)) = cell_info {
        assert_eq!(date, create_test_date(2025, 9, 1));
        assert_eq!(place, "Place A");
        assert_eq!(person, "Person1");
    }
}

#[test]
fn test_get_cell_info_invalid_position() {
    let mut state = AppState::default();
    state.assignments = create_test_assignments();

    // Test header row (row 0)
    let cell_info = state.get_cell_info(CellPosition { row: 0, column: 1 });
    assert!(cell_info.is_none());

    // Test date column (column 0)
    let cell_info = state.get_cell_info(CellPosition { row: 1, column: 0 });
    assert!(cell_info.is_none());

    // Test out of bounds
    let cell_info = state.get_cell_info(CellPosition {
        row: 10,
        column: 10,
    });
    assert!(cell_info.is_none());
}

#[test]
fn test_handle_cell_click_first_selection() {
    let mut state = AppState::default();
    state.assignments = create_test_assignments();

    // First click should select the cell
    let pos = CellPosition { row: 1, column: 1 };
    state.handle_cell_click(pos);

    assert_eq!(state.selected_cell, Some(pos));
}

#[test]
fn test_handle_cell_click_deselect() {
    let mut state = AppState::default();
    state.assignments = create_test_assignments();

    // First click selects the cell
    let pos = CellPosition { row: 1, column: 1 };
    state.handle_cell_click(pos);

    // Second click on same cell deselects it
    state.handle_cell_click(pos);

    assert_eq!(state.selected_cell, None);
}

#[test]
fn test_handle_cell_click_header_row() {
    let mut state = AppState::default();
    state.assignments = create_test_assignments();

    // Clicking on header row should do nothing
    let pos = CellPosition { row: 0, column: 1 };
    state.handle_cell_click(pos);

    // Should not be selected
    assert_eq!(state.selected_cell, None);
}

#[test]
fn test_handle_cell_click_swap() {
    let mut state = AppState::default();
    // Use a single date with two places so we can click two valid cells on the same row.
    let date = create_test_date(2025, 9, 1);
    state.assignments = vec![
        Assignment {
            date,
            place: "Place A".to_string(),
            person: "Person1".to_string(),
        },
        Assignment {
            date,
            place: "Place B".to_string(),
            person: "Person2".to_string(),
        },
    ];

    // People must have matching services registered, otherwise swapping won't update stats.
    let mut groups = vec![GroupState::default(), GroupState::default()];

    let mut person1 = PersonState::new("Person1".to_string(), "Place A".to_string(), 0);
    person1.register_service(&mut groups, date, "Place A".to_string());

    let mut person2 = PersonState::new("Person2".to_string(), "Place B".to_string(), 1);
    person2.register_service(&mut groups, date, "Place B".to_string());

    state.people = vec![person1, person2];
    state.groups = groups;

    // First click selects the cell
    let pos1 = CellPosition { row: 1, column: 1 };
    state.handle_cell_click(pos1);

    // Second click on different cell attempts swap
    let pos2 = CellPosition { row: 1, column: 2 };
    state.handle_cell_click(pos2);

    // After swap attempt, no cell should be selected
    assert_eq!(state.selected_cell, None);

    // Verify that the swap happened.
    let a = state
        .assignments
        .iter()
        .find(|a| a.date == date && a.place == "Place A")
        .unwrap();
    let b = state
        .assignments
        .iter()
        .find(|a| a.date == date && a.place == "Place B")
        .unwrap();
    assert_eq!(a.person, "Person2");
    assert_eq!(b.person, "Person1");
    assert_eq!(state.people[0].place_count(&"Place B".to_string()), 1);
    assert_eq!(state.people[1].place_count(&"Place A".to_string()), 1);
}

#[test]
fn click_on_an_open_slot_clears_the_selection_without_a_swap() {
    let mut state = AppState::default();
    state.assignments = create_test_assignments();
    state.handle_cell_click(CellPosition { row: 1, column: 1 });
    // Place B has nobody on the first date.
    state.handle_cell_click(CellPosition { row: 1, column: 2 });
    assert_eq!(state.selected_cell, None);
    assert_eq!(state.assignments[0].person, "Person1");
    assert_eq!(state.assignments[1].person, "Person2");
}

#[test]
fn toggle_highlighted_name_fills_and_clears_slots() {
    let mut state = AppState::new();
    state.toggle_highlighted_name("Alice".to_string());
    state.toggle_highlighted_name("Bob".to_string());
    assert_eq!(
        state.highlighted_names,
        [Some("Alice".to_string()), Some("Bob".to_string()), None, None]
    );
    // A second toggle clears the slot and leaves the others where they are.
    state.toggle_highlighted_name("Alice".to_string());
    assert_eq!(
        state.highlighted_names,
        [None, Some("Bob".to_string()), None, None]
    );
    // The first free slot is taken.
    state.toggle_highlighted_name("Carol".to_string());
    assert_eq!(
        state.highlighted_names,
        [Some("Carol".to_string()), Some("Bob".to_string()), None, None]
    );
}

#[test]
fn toggle_name_with_all_slots_taken_changes_nothing() {
    let mut names = [
        Some("A".to_string()),
        Some("B".to_string()),
        Some("C".to_string()),
        Some("D".to_string()),
    ];
    toggle_name(&mut names, "E".to_string());
    assert_eq!(
        names,
        [
            Some("A".to_string()),
            Some("B".to_string()),
            Some("C".to_string()),
            Some("D".to_string())
        ]
    );
    toggle_name(&mut names, "D".to_string());
    assert_eq!(names[3], None);
}

#[test]
fn right_click_toggles_the_person_in_the_cell() {
    let mut state = AppState::default();
    state.assignments = create_test_assignments();
    state.handle_cell_right_click(CellPosition { row: 1, column: 1 });
    assert_eq!(state.highlighted_names[0], Some("Person1".to_string()));
    state.handle_cell_right_click(CellPosition { row: 2, column: 2 });
    assert_eq!(state.highlighted_names[1], Some("Person2".to_string()));
    // A click on a cell that shows nobody clears all highlights.
    state.handle_cell_right_click(CellPosition { row: 1, column: 2 });
    assert_eq!(state.highlighted_names, [None, None, None, None]);
}

#[test]
fn configs_loaded_selects_the_first_file_once() {
    let mut state = AppState::new();
    state.configs_loaded(vec!["config1.toml".to_string(), "config2.toml".to_string()]);
    assert_eq!(state.config_files.len(), 2);
    assert_eq!(state.selected_config, Some("config1.toml".to_string()));

    state.configs_loaded(vec!["other.toml".to_string()]);
    assert_eq!(state.config_files, vec!["other.toml".to_string()]);
    assert_eq!(state.selected_config, Some("config1.toml".to_string()));

    let mut state = AppState::new();
    state.configs_loaded(vec![]);
    assert_eq!(state.selected_config, None);
}

#[test]
fn select_config_drops_the_old_schedule() {
    let mut state = AppState::new();
    state.assignments = create_test_assignments();
    state.error = Some("old".to_string());
    state.select_config("test_config.toml".to_string());
    assert_eq!(state.selected_config, Some("test_config.toml".to_string()));
    assert!(state.assignments.is_empty());
    assert!(state.people.is_empty());
    assert!(state.error.is_none());
}

#[test]
fn success_message_expires_after_three_seconds() {
    let mut state = AppState::new();
    state.show_success_message("Success!".to_string(), 1_000);
    assert_eq!(state.success_message, Some("Success!".to_string()));
    assert_eq!(state.success_message_expires_at, Some(4_000));

    state.check_message_expiry(3_999);
    assert_eq!(state.success_message, Some("Success!".to_string()));
    state.check_message_expiry(4_000);
    assert_eq!(state.success_message, None);
    assert_eq!(state.success_message_expires_at, None);

    state.show_success_message("Late".to_string(), u64::MAX - 1);
    assert_eq!(state.success_message_expires_at, Some(u64::MAX));
}

#[test]
fn schedule_generated_rebuilds_the_ledgers() {
    let config = test_config();
    let mut state = AppState::new();
    state.selected_cell = Some(CellPosition { row: 1, column: 1 });
    let assignments = vec![
        Assignment {
            date: create_test_date(2025, 9, 1),
            place: "Place A".to_string(),
            person: "Person1 G".to_string(),
        },
        Assignment {
            date: create_test_date(2025, 9, 1),
            place: "Place B".to_string(),
            person: "Person1 G".to_string(),
        },
        Assignment {
            date: create_test_date(2025, 9, 8),
            place: "Place B".to_string(),
            person: "Stranger".to_string(),
        },
    ];
    state.schedule_generated(assignments);
    assert_eq!(state.assignments.len(), 3);
    assert_eq!(state.selected_cell, None);
    assert!(state.people.is_empty());

    state.people_loaded(&config);
    assert_eq!(state.people.len(), 3);
    assert_eq!(state.people[0].name(), "Person1 G");
    assert_eq!(state.people[0].total_services(), 2);
    assert_eq!(state.people[0].place_count(&"Place A".to_string()), 1);
    assert_eq!(state.people[0].place_count(&"Place B".to_string()), 1);
    assert_eq!(state.people[0].different_place_services(), 1);
    assert_eq!(state.people[1].total_services(), 0);
    assert_eq!(state.people[2].total_services(), 0);
    assert_eq!(state.groups[0].last_service, Some(create_test_date(2025, 9, 1)));
    assert_eq!(state.groups[1].last_service, None);
    assert!(state.is_ready_for_swap());
}

#[test]
fn a_ledger_of_an_unknown_group_is_not_ready_for_a_swap() {
    let mut state = AppState::new();
    state.people = vec![PersonState::new("P".to_string(), "A".to_string(), 3)];
    assert!(!state.is_ready_for_swap());
    state.groups = vec![
        GroupState::default(),
        GroupState::default(),
        GroupState::default(),
        GroupState::default(),
    ];
    assert!(state.is_ready_for_swap());
    assert!(state.people[0].has_room_for(2));
    assert!(state.people[0].has_room_for(255));
}

#[test]
fn replay_assignments_matches_a_run() {
    let config = test_config();
    let dates = vec![create_test_date(2025, 9, 1), create_test_date(2025, 9, 8)];
    let (assignments, people, _groups) = duty_roster::schedule::create_schedule(&dates, &config);
    let (replayed, _groups) = replay_assignments(&config, &assignments);
    for person in &people {
        let again = replayed.iter().find(|p| p.name() == person.name()).unwrap();
        assert_eq!(again.total_services(), person.total_services());
        assert_eq!(again.weekday_counts(), person.weekday_counts());
        assert_eq!(again.different_place_services(), person.different_place_services());
        for place in &config.places.places {
            assert_eq!(again.place_count(place), person.place_count(place));
        }
    }
}

#[test]
fn summary_lists_the_ledgers_line_by_line() {
    let mut groups = vec![GroupState::default()];
    let mut alice = PersonState::new("Alice".to_string(), "A".to_string(), 0);
    alice.register_service(&mut groups, create_test_date(2025, 9, 3), "A".to_string()); // Wed
    alice.register_service(&mut groups, create_test_date(2025, 9, 1), "B".to_string()); // Mon
    alice.register_service(&mut groups, create_test_date(2025, 9, 8), "A".to_string()); // Mon
    let bob = PersonState::new("Bob".to_string(), "A".to_string(), 0);

    assert_eq!(
        summary_line_of(&alice),
        "Alice, total: 3, Mon: 2, Wed: 1, different_place: 1\n"
    );
    assert_eq!(summary_line_of(&bob), "Bob, total: 0, different_place: 0\n");
    assert_eq!(
        summary_content(&vec![alice, bob]),
        "Alice, total: 3, Mon: 2, Wed: 1, different_place: 1\nBob, total: 0, different_place: 0\n"
    );
    assert_eq!(summary_content(&vec![]), "");
}

#[test]
fn decimal_text_writes_numbers_as_std_does() {
    for n in [0usize, 1, 9, 10, 11, 99, 100, 101, 12_345, 1_000_000, usize::MAX] {
        assert_eq!(decimal_text(n), n.to_string());
    }
}

#[test]
fn tooling_files_are_no_configurations() {
    assert!(is_excluded_file("Cargo.toml"));
    assert!(is_excluded_file("deny.toml"));
    assert!(is_excluded_file("cargo-deny.toml"));
    assert!(!is_excluded_file("config.toml"));
    assert!(!is_excluded_file("cargo.toml"));
}

#[test]
fn an_empty_search_is_reported() {
    assert_eq!(
        found_config_files(vec![]),
        Err("No config files found".to_string())
    );
    assert_eq!(
        found_config_files(vec!["a.toml".to_string()]),
        Ok(vec!["a.toml".to_string()])
    );
}

#[test]
fn schedule_files_are_named_after_the_configuration_and_the_time() {
    assert_eq!(
        name_schedule_file(Some("settings"), "2025_09_01_12_30"),
        "settings_2025_09_01_12_30.csv"
    );
    assert_eq!(
        name_schedule_file(None, "2025_09_01_12_30"),
        "schedule_2025_09_01_12_30.csv"
    );
}
