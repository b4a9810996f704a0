use slot_watch::checker::AvailabilityChecker;
use slot_watch::checker::ScanConfig;
use slot_watch::date::Date;
use slot_watch::slot::Slot;

fn d(y: u32, m: u8, day: u8) -> Date {
    Date::new(y, m, day).unwrap()
}

fn config_7x2() -> ScanConfig {
    ScanConfig {
        days_per_page: 7,
        periods_per_day: 2,
        available_status: "A".to_string(),
        reserved_status: "R".to_string(),
    }
}

fn row(cells: &[&str]) -> Vec<String> {
    cells.iter().map(|c| c.to_string()).collect()
}

/// A full 7x2 grid of "X" with the given overrides applied first.
fn grid_7x2(overrides: &[(usize, usize, &str)]) -> Vec<Vec<String>> {
    let mut g: Vec<Vec<String>> = (0..7).map(|_| row(&["X", "X"])).collect();
    for &(i, j, v) in overrides {
        g[i][j] = v.to_string();
    }
    g
}

#[test]
fn newly_available_slot_is_decoded_and_announced() {
    let mut checker = AvailabilityChecker::new(config_7x2());
    let grid = grid_7x2(&[(0, 0, "A")]);
    let anchor = d(2024, 5, 1);

    let decoded = checker.get_availability(anchor, &grid);
    assert_eq!(decoded, vec![Slot { date: anchor, period: 0 }]);

    let message = checker.process_snapshot(anchor, &grid, d(2024, 5, 1));
    assert_eq!(message.unwrap(), "## 予約可能日時\nnew: 5月1日9時\n5月1日9時");
}

#[test]
fn reservation_by_other_triggers_and_delists() {
    let mut checker = AvailabilityChecker::new(config_7x2());
    let anchor = d(2024, 5, 1);
    let today = d(2024, 5, 1);

    // first cycle: periods 0 and 1 of the first day open up
    let first = grid_7x2(&[(0, 0, "A"), (0, 1, "A")]);
    let message = checker.process_snapshot(anchor, &first, today).unwrap();
    assert_eq!(message, "## 予約可能日時\nnew: 5月1日9時, 5月1日10時\n5月1日9時, 5月1日10時");

    // next cycle: period 0 now shows as reserved by someone else
    let second = grid_7x2(&[(0, 0, "R"), (0, 1, "A")]);
    let message = checker.process_snapshot(anchor, &second, today).unwrap();
    assert_eq!(message, "## 予約可能日時\n5月1日10時");
}

#[test]
fn unchanged_snapshot_stays_silent() {
    let mut checker = AvailabilityChecker::new(config_7x2());
    let anchor = d(2024, 5, 1);
    let today = d(2024, 5, 1);
    let grid = grid_7x2(&[(2, 1, "A"), (3, 0, "A")]);

    assert!(checker.process_snapshot(anchor, &grid, today).is_some());
    // same classified slots again: already present, nothing removed
    assert!(checker.process_snapshot(anchor, &grid, today).is_none());
}

#[test]
fn reserved_slot_never_tracked_stays_silent() {
    let mut checker = AvailabilityChecker::new(config_7x2());
    let anchor = d(2024, 5, 1);
    let grid = grid_7x2(&[(1, 1, "R")]);
    assert!(checker.process_snapshot(anchor, &grid, d(2024, 5, 1)).is_none());
}

#[test]
fn short_grid_is_decoded_without_error() {
    let checker = AvailabilityChecker::new(config_7x2());
    let anchor = d(2024, 5, 1);

    // fewer rows than days and fewer cells than periods: missing cells skipped
    let short: Vec<Vec<String>> = vec![row(&["A"])];
    assert_eq!(
        checker.get_availability(anchor, &short),
        vec![Slot { date: anchor, period: 0 }]
    );

    let empty: Vec<Vec<String>> = Vec::new();
    assert!(checker.get_availability(anchor, &empty).is_empty());

    // cells beyond the configured period count are ignored
    let wide: Vec<Vec<String>> = vec![row(&["X", "X", "A"])];
    assert!(checker.get_availability(anchor, &wide).is_empty());
}

#[test]
fn later_days_map_to_later_dates() {
    let checker = AvailabilityChecker::new(config_7x2());
    let anchor = d(2024, 4, 28);
    let grid = grid_7x2(&[(3, 1, "A"), (6, 0, "R")]);
    assert_eq!(
        checker.get_availability(anchor, &grid),
        vec![Slot { date: d(2024, 5, 1), period: 1 }]
    );
    assert_eq!(
        checker.get_unavailable_datetime(anchor, &grid),
        vec![Slot { date: d(2024, 5, 4), period: 0 }]
    );
}

#[test]
fn decoded_slots_come_row_major() {
    let checker = AvailabilityChecker::new(config_7x2());
    let anchor = d(2024, 5, 1);
    let grid = grid_7x2(&[(1, 1, "A"), (1, 0, "A"), (0, 1, "A")]);
    assert_eq!(
        checker.get_availability(anchor, &grid),
        vec![
            Slot { date: d(2024, 5, 1), period: 1 },
            Slot { date: d(2024, 5, 2), period: 0 },
            Slot { date: d(2024, 5, 2), period: 1 },
        ]
    );
}

#[test]
fn past_slot_announced_as_new_but_pruned_from_listing() {
    let mut checker = AvailabilityChecker::new(config_7x2());
    let anchor = d(2024, 4, 20);
    let grid = grid_7x2(&[(0, 0, "A")]);
    // today lies after the whole decoded week, so the listing is empty
    let message = checker.process_snapshot(anchor, &grid, d(2024, 5, 1)).unwrap();
    assert_eq!(message, "## 予約可能日時\nnew: 4月20日9時\n");
}

#[test]
fn status_tokens_are_configuration() {
    let config = ScanConfig {
        days_per_page: 7,
        periods_per_day: 2,
        available_status: "status1".to_string(),
        reserved_status: "status4".to_string(),
    };
    let checker = AvailabilityChecker::new(config);
    let anchor = d(2024, 5, 1);
    let grid = grid_7x2(&[(0, 0, "status1"), (0, 1, "A"), (1, 0, "status4")]);
    assert_eq!(
        checker.get_availability(anchor, &grid),
        vec![Slot { date: anchor, period: 0 }]
    );
    assert_eq!(
        checker.get_unavailable_datetime(anchor, &grid),
        vec![Slot { date: d(2024, 5, 2), period: 0 }]
    );
}
