use chrono::{Datelike, NaiveDate};
use duty_roster::csv::{assignments_to_csv, csv_records};
use duty_roster::date::Date;
use duty_roster::grid::{date_rows, insert_date, insert_text, person_at, place_columns};
use duty_roster::gui::table::TableState;
use duty_roster::gui::CellPosition;
use duty_roster::schedule::Assignment;
use duty_roster::text::text_is_less;

fn create_test_date(year: i32, month: u32, day: u32) -> Date {
    let day = NaiveDate::from_ymd_opt(year, month, day).unwrap();
    Date::from_num_days_from_ce_opt(day.num_days_from_ce()).unwrap()
}

fn slot(date: Date, place: &str, person: &str) -> Assignment {
    Assignment {
        date,
        place: place.to_string(),
        person: person.to_string(),
    }
}

fn create_test_assignments() -> Vec<Assignment> {
    vec![
        Assignment {
            date: create_test_date(2025, 9, 1),
            place: "Place A".to_string(),
            person: "Person1".to_string(),
        },
        Assignment {
            date: create_test_date(2025, 9, 2),
            place: "Place B".to_string(),
            person: "Person2".to_string(),
        },
    ]
}

#[test]
fn test_assignments_to_csv() {
    let assignments = vec![
        Assignment {
            date: create_test_date(2025, 9, 6),
            place: "PlaceA".to_string(),
            person: "Alice".to_string(),
        },
        Assignment {
            date: create_test_date(2025, 9, 6),
            place: "PlaceB".to_string(),
            person: "Bob".to_string(),
        },
        Assignment {
            date: create_test_date(2025, 9, 7),
            place: "PlaceA".to_string(),
            person: "Charlie".to_string(),
        },
        Assignment {
            date: create_test_date(2025, 9, 7),
            place: "PlaceB".to_string(),
            person: "Alice".to_string(),
        },
    ];

    let csv = assignments_to_csv(&assignments).unwrap();

    let expected = "\
date,PlaceA,PlaceB
2025-09-06,Alice,Bob
2025-09-07,Charlie,Alice
";

    assert_eq!(expected, csv);
}

#[test]
fn csv_of_no_assignments_is_the_header_alone() {
    assert_eq!(assignments_to_csv(&vec![]).unwrap(), "date\n");
    assert_eq!(csv_records(&vec![]), vec![vec!["date".to_string()]]);
}

#[test]
fn csv_quotes_fields_that_need_it() {
    let assignments = vec![slot(create_test_date(2025, 9, 6), "Hall, east", "Ann \"A\" Lee")];
    assert_eq!(
        assignments_to_csv(&assignments).unwrap(),
        "date,\"Hall, east\"\n2025-09-06,\"Ann \\\"A\\\" Lee\"\n"
    );
}

#[test]
fn csv_refuses_a_schedule_with_an_open_slot() {
    let assignments = vec![
        slot(create_test_date(2025, 9, 6), "PlaceA", "Alice"),
        slot(create_test_date(2025, 9, 6), "PlaceB", "Bob"),
        slot(create_test_date(2025, 9, 7), "PlaceA", "Charlie"),
    ];
    assert!(assignments_to_csv(&assignments).is_err());
}

#[test]
fn csv_records_sort_dates_and_places_and_let_the_last_assignment_count() {
    let assignments = vec![
        slot(create_test_date(2025, 9, 7), "b", "Late B"),
        slot(create_test_date(2025, 9, 6), "b", "Early B"),
        slot(create_test_date(2025, 9, 6), "a", "First"),
        slot(create_test_date(2025, 9, 6), "a", "Second"),
    ];
    let rows: Vec<Vec<String>> = csv_records(&assignments);
    assert_eq!(
        rows,
        vec![
            vec!["date".to_string(), "a".to_string(), "b".to_string()],
            vec!["2025-09-06".to_string(), "Second".to_string(), "Early B".to_string()],
            vec!["2025-09-07".to_string(), "Late B".to_string()],
        ]
    );
}

#[test]
fn texts_are_ordered_by_their_bytes() {
    assert!(text_is_less("Place A", "Place B"));
    assert!(!text_is_less("Place B", "Place A"));
    assert!(!text_is_less("Place A", "Place A"));
    assert!(text_is_less("Place", "Place A"));
    assert!(text_is_less("", "a"));
    assert!(text_is_less("Z", "a"));
    assert!(text_is_less("z", "\u{e4}"));
    assert!(text_is_less("\u{e4}", "\u{20ac}"));
    assert_eq!(text_is_less("abc", "abd"), "abc" < "abd");
}

#[test]
fn insert_text_keeps_the_list_sorted_and_free_of_repeats() {
    let mut list: Vec<String> = Vec::new();
    for text in ["m", "a", "z", "m", "b", "a"] {
        insert_text(&mut list, text);
    }
    assert_eq!(list, vec!["a", "b", "m", "z"]);
}

#[test]
fn insert_date_keeps_the_list_sorted_and_free_of_repeats() {
    let mut list: Vec<Date> = Vec::new();
    for day in [5, 1, 9, 5, 3] {
        insert_date(&mut list, create_test_date(2025, 9, day));
    }
    let days: Vec<Date> = [1, 3, 5, 9]
        .iter()
        .map(|day| create_test_date(2025, 9, *day))
        .collect();
    assert_eq!(list, days);
}

#[test]
fn rows_and_columns_of_assignments() {
    let assignments = vec![
        slot(create_test_date(2025, 9, 2), "Place B", "Person2"),
        slot(create_test_date(2025, 9, 1), "Place A", "Person1"),
        slot(create_test_date(2025, 9, 2), "Place A", "Person3"),
    ];
    assert_eq!(place_columns(&assignments), vec!["Place A", "Place B"]);
    assert_eq!(
        date_rows(&assignments),
        vec![create_test_date(2025, 9, 1), create_test_date(2025, 9, 2)]
    );
    assert_eq!(
        person_at(&assignments, create_test_date(2025, 9, 2), "Place A"),
        Some("Person3".to_string())
    );
    assert_eq!(person_at(&assignments, create_test_date(2025, 9, 1), "Place B"), None);
}

#[test]
fn test_table_state_new() {
    let assignments = create_test_assignments();
    let table_state = TableState::new(&assignments);

    // Check that the table state was created correctly
    assert_eq!(table_state.row_count(), 2);
    assert_eq!(table_state.column_count(), 2);
    assert!(table_state
        .get_cell_info(CellPosition { row: 1, column: 1 })
        .is_some_and(|cell| cell.1 == "Place A"));
    assert!(table_state
        .get_cell_info(CellPosition { row: 2, column: 2 })
        .is_some_and(|cell| cell.1 == "Place B"));
    assert!(table_state.selected_cell().is_none());
}

#[test]
fn test_table_state_select_cell_first_selection() {
    let assignments = create_test_assignments();
    let mut table_state = TableState::new(&assignments);

    // Test selecting a cell
    let pos = CellPosition { row: 1, column: 1 };
    let prev = table_state.select_cell(pos);

    assert!(prev.is_none());
    assert_eq!(table_state.selected_cell(), Some(&pos));
}

#[test]
fn test_table_state_deselect_cell() {
    // Create a simple TableState directly
    let mut table_state = TableState::new(&[]);

    // Test selecting a cell
    let pos = CellPosition { row: 1, column: 1 };
    let prev = table_state.select_cell(pos);

    // Should return None (no previous selection) and set the selected cell
    assert!(prev.is_none());
    assert_eq!(table_state.selected_cell(), Some(&pos));

    // Test selecting the same cell again (should deselect)
    let prev = table_state.select_cell(pos);

    // Should return the previous selection and clear the selected cell
    assert_eq!(prev, Some(pos));
    assert!(table_state.selected_cell().is_none());
}

#[test]
fn test_table_state_select_different_cell() {
    let assignments = create_test_assignments();
    let mut table_state = TableState::new(&assignments);

    // First select a cell
    let pos1 = CellPosition { row: 1, column: 1 };
    let _ = table_state.select_cell(pos1);

    // Then select a different cell
    let pos2 = CellPosition { row: 2, column: 2 };
    let prev = table_state.select_cell(pos2);

    assert_eq!(prev, Some(pos1));
    assert_eq!(table_state.selected_cell(), Some(&pos2));
}

#[test]
fn test_get_cell_info() {
    let assignments = create_test_assignments();
    let table_state = TableState::new(&assignments);

    // Test getting valid cell info
    let cell_info = table_state.get_cell_info(CellPosition { row: 1, column: 1 });
    assert!(cell_info.is_some());

    if let Some((date, place, person)) = cell_info {
        assert_eq!(date, create_test_date(2025, 9, 1));
        assert_eq!(place, "Place A");
        assert_eq!(person, "Person1");
    }

    // Test getting invalid cell info (header row)
    let cell_info = table_state.get_cell_info(CellPosition { row: 0, column: 1 });
    assert!(cell_info.is_none());

    // Test getting invalid cell info (date column)
    let cell_info = table_state.get_cell_info(CellPosition { row: 1, column: 0 });
    assert!(cell_info.is_none());

    // Test getting invalid cell info (out of bounds)
    let cell_info = table_state.get_cell_info(CellPosition {
        row: 10,
        column: 10,
    });
    assert!(cell_info.is_none());
}

#[test]
fn test_select_cell_behavior() {
    // Create a simple TableState
    let mut table_state = TableState::new(&[]);

    // Test selecting a cell
    let pos = CellPosition { row: 1, column: 1 };
    let prev = table_state.select_cell(pos);

    // Should return None (no previous selection) and set the selected cell
    assert!(prev.is_none());
    assert_eq!(table_state.selected_cell(), Some(&pos));

    // Test selecting the same cell again (should deselect)
    let prev = table_state.select_cell(pos);

    // Should return the previous selection and clear the selected cell
    assert_eq!(prev, Some(pos));
    assert!(table_state.selected_cell().is_none());
}

#[test]
fn get_cell_info_of_an_open_slot_is_none() {
    let table_state = TableState::new(&create_test_assignments());
    // Place B has nobody on the first date.
    assert!(table_state.get_cell_info(CellPosition { row: 1, column: 2 }).is_none());
    assert_eq!(
        table_state.get_cell_info(CellPosition { row: 2, column: 2 }),
        Some((create_test_date(2025, 9, 2), "Place B".to_string(), "Person2".to_string()))
    );
    assert!(table_state.get_cell_info(CellPosition { row: 3, column: 1 }).is_none());
    assert!(table_state.get_cell_info(CellPosition { row: 1, column: 3 }).is_none());
}
