use zilvar::clock::Timestamp;
use zilvar::model::{Ad, Doggo, Sniff, SCRAPING_INTERVAL};

fn ad(id: &str, title: &str) -> Ad {
    Ad { cb_id: id.to_string(), title: title.to_string() }
}

fn doggo() -> Doggo {
    Doggo::new_with_id(
        7,
        "Azor".to_string(),
        "owner@example.com".to_string(),
        "https://www.cyklobazar.cz/sedlovky".to_string(),
    )
}

fn ids(ads: &[Ad]) -> Vec<String> {
    ads.iter().map(|a| a.cb_id.clone()).collect()
}

#[test]
fn first_run_reports_the_single_listing() {
    let mut d = doggo();
    let now = Timestamp::from_second(1_700_000_000);
    let new = d.run(now, vec![ad("A", "Bike")]);
    assert_eq!(ids(&new), vec!["A".to_string()]);
    assert_eq!(new[0].title, "Bike");
    assert!(d.seen_ad(&ad("A", "Bike")));
    assert_eq!(d.last_run, Some(now));
    assert_eq!(d.sniffs.len(), 1);
    assert_eq!(d.sniffs[0].last_sniffed_at, now);
}

#[test]
fn second_run_reports_only_the_unseen_listing() {
    let mut d = doggo();
    d.run(Timestamp::from_second(1_700_000_000), vec![ad("A", "Bike")]);
    let later = Timestamp::from_second(1_700_004_000);
    let new = d.run(later, vec![ad("A", "Bike"), ad("B", "Frame")]);
    assert_eq!(ids(&new), vec!["B".to_string()]);
    assert_eq!(new[0].title, "Frame");
    assert_eq!(d.last_run, Some(later));
    assert_eq!(d.sniffs.len(), 2);
}

#[test]
fn same_snapshot_twice_yields_nothing_new() {
    let mut d = doggo();
    let snapshot = || vec![ad("A", "Bike"), ad("B", "Frame"), ad("C", "Saddle")];
    let first = d.run(Timestamp::from_second(100), snapshot());
    assert_eq!(first.len(), 3);
    let second = d.run(Timestamp::from_second(5000), snapshot());
    assert!(second.is_empty());
}

#[test]
fn run_keeps_earlier_listings_and_records_returned_ones() {
    let mut d = doggo();
    d.run(Timestamp::from_second(0), vec![ad("A", "Bike")]);
    let new = d.run(Timestamp::from_second(4000), vec![ad("B", "Frame"), ad("C", "Fork")]);
    for a in &new {
        assert!(d.seen_ad(a));
    }
    assert!(d.seen_ad(&ad("A", "anything")));
    assert_eq!(d.sniffs.len(), 3);
}

#[test]
fn changed_title_is_not_new() {
    let mut d = doggo();
    d.run(Timestamp::from_second(0), vec![ad("A", "Bike")]);
    let new = d.run(Timestamp::from_second(4000), vec![ad("A", "Bike, now cheaper")]);
    assert!(new.is_empty());
}

#[test]
fn duplicate_listing_in_one_snapshot_is_remembered_once() {
    let mut d = doggo();
    let new = d.run(Timestamp::from_second(10), vec![ad("A", "Bike"), ad("A", "Bike again")]);
    assert_eq!(new.len(), 2);
    assert_eq!(d.sniffs.len(), 1);
    assert_eq!(d.sniffs[0].ad.title, "Bike again");
}

#[test]
fn fresh_ads_keeps_order_of_unseen() {
    let mut d = doggo();
    d.see_ad(ad("B", "Frame"), Timestamp::from_second(1));
    let fetched = vec![ad("C", "x"), ad("B", "y"), ad("A", "z")];
    let fresh = d.fresh_ads(&fetched);
    assert_eq!(ids(&fresh), vec!["C".to_string(), "A".to_string()]);
}

#[test]
fn never_run_watchdog_is_due() {
    let d = doggo();
    assert!(d.is_due(Timestamp::from_second(0)));
    assert!(d.should_run_now());
    let now = Timestamp::from_second(123);
    assert_eq!(d.next_run_at(now), now);
}

#[test]
fn due_only_strictly_after_the_interval() {
    let mut d = doggo();
    let t0 = 1_700_000_000;
    d.run(Timestamp::from_second(t0), vec![]);
    assert!(!d.is_due(Timestamp::from_second(t0)));
    assert!(!d.is_due(Timestamp::from_second(t0 + SCRAPING_INTERVAL as i64)));
    assert!(d.is_due(Timestamp::from_second(t0 + SCRAPING_INTERVAL as i64 + 1)));
    assert_eq!(
        d.next_run_at(Timestamp::from_second(t0)),
        Timestamp::from_second(t0 + 3600)
    );
}

#[test]
fn time_left_shrinks_while_not_due() {
    let mut d = doggo();
    d.run(Timestamp::from_second(1000), vec![]);
    let t1 = Timestamp::from_second(1500);
    let t2 = Timestamp::from_second(2500);
    assert!(!d.is_due(t1));
    let left1 = d.next_run_at(t1).second - t1.second;
    let left2 = d.next_run_at(t2).second - t2.second;
    assert_eq!(left1, 3100);
    assert_eq!(left2, 2100);
    assert!(left2 < left1);
}

#[test]
fn recently_run_watchdog_is_not_due_now() {
    let mut d = doggo();
    d.run(Timestamp::now(), vec![]);
    assert!(!d.should_run_now());
    let next = d.next_run();
    assert_eq!(next.second, d.last_run.unwrap().second + 3600);
}

#[test]
fn next_run_saturates_at_the_end_of_time() {
    let mut d = doggo();
    d.run(Timestamp::from_second(i64::MAX - 10), vec![]);
    assert_eq!(d.next_run_at(Timestamp::from_second(0)).second, i64::MAX);
}

#[test]
fn saturating_add_adds() {
    assert_eq!(Timestamp::from_second(-5).saturating_add(7).second, 2);
    assert_eq!(Timestamp::from_second(i64::MAX).saturating_add(1).second, i64::MAX);
}

#[test]
fn clock_reads_a_recent_time() {
    let now = Timestamp::now();
    assert!(now.second > 1_600_000_000);
}

#[test]
fn random_ids_differ() {
    let a = Doggo::new("a".to_string(), "a@b.c".to_string(), "u".to_string());
    let b = Doggo::new("a".to_string(), "a@b.c".to_string(), "u".to_string());
    assert_ne!(a.id, b.id);
    assert!(a.sniffs.is_empty());
    assert_eq!(a.last_run, None);
}

#[test]
fn restore_keeps_the_later_of_two_observations() {
    let s1 = Sniff { last_sniffed_at: Timestamp::from_second(1), ad: ad("A", "old") };
    let s2 = Sniff { last_sniffed_at: Timestamp::from_second(2), ad: ad("B", "b") };
    let s3 = Sniff { last_sniffed_at: Timestamp::from_second(3), ad: ad("A", "new") };
    let d = Doggo::restore(
        9,
        "n".to_string(),
        "e@x.y".to_string(),
        "u".to_string(),
        Some(Timestamp::from_second(3)),
        vec![s1, s2, s3],
    );
    assert_eq!(d.id, 9);
    assert_eq!(d.sniffs.len(), 2);
    assert_eq!(d.sniffs[0].ad.title, "new");
    assert_eq!(d.sniffs[0].last_sniffed_at, Timestamp::from_second(3));
    assert_eq!(d.last_run, Some(Timestamp::from_second(3)));
}

#[test]
fn ad_url_points_at_the_listing() {
    assert_eq!(ad("abc-123", "t").url(), "https://www.cyklobazar.cz/inzerat/abc-123/x");
}
