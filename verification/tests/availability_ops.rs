use slot_watch::availability::Availability;
use slot_watch::date::Date;
use slot_watch::slot::Slot;

fn d(y: u32, m: u8, day: u8) -> Date {
    Date::new(y, m, day).unwrap()
}

fn s(y: u32, m: u8, day: u8, p: u8) -> Slot {
    Slot { date: d(y, m, day), period: p }
}

#[test]
fn insert_twice_is_reported_once() {
    let mut a = Availability::new();
    let slot = s(2024, 5, 1, 0);
    assert!(a.insert(slot));
    assert!(!a.insert(slot));
    // the second call left the set unchanged: still exactly one slot
    let listing = a.snapshot_and_prune(d(2024, 5, 1));
    assert_eq!(listing, vec![slot]);
}

#[test]
fn remove_absent_returns_false_and_changes_nothing() {
    let mut a = Availability::new();
    let kept = s(2024, 5, 10, 3);
    assert!(a.insert(kept));
    assert!(!a.remove(&s(2024, 5, 11, 3)));
    assert!(!a.remove(&s(2024, 5, 10, 2)));
    let listing = a.snapshot_and_prune(d(2024, 5, 1));
    assert_eq!(listing, vec![kept]);
}

#[test]
fn remove_present_returns_true() {
    let mut a = Availability::new();
    let slot = s(2024, 5, 10, 3);
    assert!(a.insert(slot));
    assert!(a.remove(&slot));
    assert!(!a.remove(&slot));
    let listing = a.snapshot_and_prune(d(2024, 5, 1));
    assert!(listing.is_empty());
}

#[test]
fn prune_drops_past_slots_for_good() {
    let mut a = Availability::new();
    let past = s(2024, 4, 20, 0);
    let future = s(2024, 5, 10, 0);
    assert!(a.insert(past));
    assert!(a.insert(future));
    let listing = a.snapshot_and_prune(d(2024, 5, 1));
    assert_eq!(listing, vec![future]);
    // the past slot is gone from the set itself, not only from the view
    assert!(!a.remove(&past));
    assert!(a.remove(&future));
}

#[test]
fn prune_keeps_slots_dated_today() {
    let mut a = Availability::new();
    let today_slot = s(2024, 5, 1, 4);
    assert!(a.insert(today_slot));
    let listing = a.snapshot_and_prune(d(2024, 5, 1));
    assert_eq!(listing, vec![today_slot]);
}

#[test]
fn prune_returns_slots_sorted_by_date_then_period() {
    let mut a = Availability::new();
    let s1 = s(2024, 5, 2, 0);
    let s2 = s(2024, 5, 1, 5);
    let s3 = s(2024, 5, 1, 1);
    let s4 = s(2024, 6, 1, 0);
    let s5 = s(2023, 12, 31, 9);
    for slot in [s1, s2, s3, s4, s5] {
        assert!(a.insert(slot));
    }
    let listing = a.snapshot_and_prune(d(2023, 1, 1));
    assert_eq!(listing, vec![s5, s3, s2, s1, s4]);
}
