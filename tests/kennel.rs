use zilvar::clock::Timestamp;
use zilvar::kennel::{Kennel, LoadOutcome, MIN_SLEEP};
use zilvar::model::{Ad, Doggo};

fn ad(id: &str, title: &str) -> Ad {
    Ad { cb_id: id.to_string(), title: title.to_string() }
}

fn doggo(id: u128, name: &str) -> Doggo {
    Doggo::new_with_id(id, name.to_string(), "o@example.com".to_string(), "u".to_string())
}

#[test]
fn corrupt_state_gives_an_empty_kennel() {
    let k = Kennel::restore(LoadOutcome::Corrupt);
    assert!(k.doggos.is_empty());
    let k = Kennel::restore(LoadOutcome::Missing);
    assert!(k.doggos.is_empty());
}

#[test]
fn restoring_the_records_reproduces_the_kennel() {
    let mut k = Kennel::from_doggos(vec![doggo(1, "a"), doggo(2, "b")]);
    k.run_doggo(0, Timestamp::from_second(50), vec![ad("X", "x"), ad("Y", "y")]);
    let restored = Kennel::restore(LoadOutcome::Loaded(k.doggos));
    assert_eq!(restored.doggos.len(), 2);
    assert!(restored.contains(1));
    assert!(restored.contains(2));
    let first = &restored.doggos[0];
    assert_eq!(first.id, 1);
    assert!(first.seen_ad(&ad("X", "")));
    assert!(first.seen_ad(&ad("Y", "")));
    assert_eq!(first.last_run, Some(Timestamp::from_second(50)));
    assert!(restored.doggos[1].sniffs.is_empty());
}

#[test]
fn later_watchdog_with_same_id_wins_on_load() {
    let k = Kennel::from_doggos(vec![doggo(1, "a"), doggo(1, "b")]);
    assert_eq!(k.doggos.len(), 1);
    assert_eq!(k.doggos[0].name, "b");
}

#[test]
fn merge_does_not_overwrite_existing_watchdogs() {
    let mut k = Kennel::empty();
    let mut d = doggo(0, "Azor");
    d.run(Timestamp::from_second(10), vec![ad("A", "Bike")]);
    k.insert(d);
    k.merge(vec![doggo(0, "Azor"), doggo(5, "Rex")]);
    assert_eq!(k.doggos.len(), 2);
    assert_eq!(k.doggos[0].sniffs.len(), 1);
    assert!(k.contains(5));
    k.merge(vec![doggo(0, "Other"), doggo(5, "Other")]);
    assert_eq!(k.doggos.len(), 2);
    assert_eq!(k.doggos[0].name, "Azor");
    assert_eq!(k.doggos[1].name, "Rex");
}

#[test]
fn insert_replaces_same_id() {
    let mut k = Kennel::empty();
    k.insert(doggo(3, "a"));
    k.insert(doggo(3, "b"));
    assert_eq!(k.doggos.len(), 1);
    assert_eq!(k.doggos[0].name, "b");
}

#[test]
fn pending_lists_due_watchdogs_in_order() {
    let mut k = Kennel::from_doggos(vec![doggo(1, "a"), doggo(2, "b"), doggo(3, "c")]);
    k.run_doggo(1, Timestamp::from_second(1000), vec![]);
    assert_eq!(k.pending(Timestamp::from_second(2000)), vec![0, 2]);
    assert_eq!(k.pending(Timestamp::from_second(4601)), vec![0, 1, 2]);
}

#[test]
fn sleep_is_one_second_without_watchdogs() {
    let k = Kennel::empty();
    assert_eq!(k.until_next_run(Timestamp::from_second(0)), None);
    assert_eq!(k.sleep_duration(Timestamp::from_second(0)), MIN_SLEEP);
    assert_eq!(MIN_SLEEP, 1);
}

#[test]
fn sleep_never_below_the_floor_when_overdue() {
    let mut k = Kennel::from_doggos(vec![doggo(1, "a")]);
    k.run_doggo(0, Timestamp::from_second(0), vec![]);
    assert_eq!(k.sleep_duration(Timestamp::from_second(100_000)), 1);
    let never_run = Kennel::from_doggos(vec![doggo(2, "b")]);
    assert_eq!(never_run.sleep_duration(Timestamp::from_second(5)), 1);
}

#[test]
fn sleep_until_the_closest_next_run() {
    let mut k = Kennel::from_doggos(vec![doggo(1, "a"), doggo(2, "b")]);
    k.run_doggo(0, Timestamp::from_second(1000), vec![]);
    k.run_doggo(1, Timestamp::from_second(2000), vec![]);
    assert_eq!(k.until_next_run(Timestamp::from_second(1500)), Some(3100));
    assert_eq!(k.sleep_duration(Timestamp::from_second(4000)), 600);
    assert_eq!(k.sleep_duration(Timestamp::from_second(5000)), 1);
}

#[test]
fn sleep_fits_the_whole_time_range() {
    let mut k = Kennel::from_doggos(vec![doggo(1, "a")]);
    k.run_doggo(0, Timestamp::from_second(i64::MAX), vec![]);
    assert_eq!(k.sleep_duration(Timestamp::from_second(i64::MIN)), u64::MAX);
}

#[test]
fn run_doggo_reports_new_listings() {
    let mut k = Kennel::from_doggos(vec![doggo(1, "a")]);
    let new = k.run_doggo(0, Timestamp::from_second(1), vec![ad("A", "Bike")]);
    assert_eq!(new.len(), 1);
    let new = k.run_doggo(0, Timestamp::from_second(2), vec![ad("A", "Bike"), ad("B", "Frame")]);
    assert_eq!(new.len(), 1);
    assert_eq!(new[0].cb_id, "B");
}
