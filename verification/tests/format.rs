use slot_watch::date::Date;
use slot_watch::date::add_days;
use slot_watch::slot::Slot;
use slot_watch::slot::num_string;
use slot_watch::slot::slot_string;
use slot_watch::text::date_label_prefix;

fn d(y: u32, m: u8, day: u8) -> Date {
    Date::new(y, m, day).unwrap()
}

#[test]
fn slot_renders_month_day_and_hour() {
    let slot = Slot { date: d(2024, 5, 1), period: 0 };
    assert_eq!(slot_string(&slot), "5月1日9時");
}

#[test]
fn slot_renders_two_digit_values() {
    let slot = Slot { date: d(2024, 12, 31), period: 11 };
    assert_eq!(slot_string(&slot), "12月31日20時");
}

#[test]
fn numbers_render_without_leading_zeroes() {
    assert_eq!(num_string(0), "0");
    assert_eq!(num_string(9), "9");
    assert_eq!(num_string(10), "10");
    assert_eq!(num_string(31), "31");
    assert_eq!(num_string(120), "120");
}

#[test]
fn date_label_prefix_strips_weekday_suffix() {
    assert_eq!(date_label_prefix("5月12日(月)\n"), "5月12日");
    assert_eq!(date_label_prefix("12月1日"), "12月1日");
    assert_eq!(date_label_prefix(""), "");
    assert_eq!(date_label_prefix("(x)"), "");
}

#[test]
fn date_new_accepts_only_real_calendar_days() {
    assert!(Date::new(2024, 2, 29).is_some());
    assert!(Date::new(2023, 2, 29).is_none());
    assert!(Date::new(2024, 2, 30).is_none());
    assert!(Date::new(2024, 4, 31).is_none());
    assert!(Date::new(2024, 13, 1).is_none());
    assert!(Date::new(2024, 0, 1).is_none());
    assert!(Date::new(2024, 1, 0).is_none());
    assert!(Date::new(10000, 1, 1).is_none());
    assert!(Date::new(1900, 2, 29).is_none());
    assert!(Date::new(2000, 2, 29).is_some());
}

#[test]
fn add_days_follows_the_calendar() {
    assert_eq!(add_days(&d(2024, 5, 1), 0), d(2024, 5, 1));
    assert_eq!(add_days(&d(2024, 5, 1), 6), d(2024, 5, 7));
    assert_eq!(add_days(&d(2024, 4, 28), 3), d(2024, 5, 1));
    assert_eq!(add_days(&d(2024, 2, 28), 1), d(2024, 2, 29));
    assert_eq!(add_days(&d(2023, 2, 28), 1), d(2023, 3, 1));
    assert_eq!(add_days(&d(2024, 12, 31), 1), d(2025, 1, 1));
}

#[test]
fn dates_order_chronologically() {
    assert!(d(2024, 4, 30).is_before(&d(2024, 5, 1)));
    assert!(d(2023, 12, 31).is_before(&d(2024, 1, 1)));
    assert!(!d(2024, 5, 1).is_before(&d(2024, 5, 1)));
    assert!(!d(2024, 5, 2).is_before(&d(2024, 5, 1)));
}
