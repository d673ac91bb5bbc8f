use recurring_service::aggregation::{aggregate, worker_count, chunk_len};
use recurring_service::date::Date;
use recurring_service::models::{Event, OccurrenceDTO};
use recurring_service::ordering::{occurrence_precedes, sort_by_date_and_name};
use recurring_service::recurrence::{evaluate, evaluate_all};
use recurring_service::services::{compute_occurrences, validate_window, OccurrenceError};

fn d(y: i32, m: u32, day: u32) -> Date {
    Date::from_ymd(y, m, day).unwrap()
}

fn event(id: u128, name: &str, start: Date, interval: i32, stop: Option<Date>) -> Event {
    Event {
        id,
        customer_id: 7,
        name: name.to_string(),
        start_date: start,
        interval_days: interval,
        stop_at: stop,
    }
}

fn dates(v: &[OccurrenceDTO]) -> Vec<Date> {
    v.iter().map(|o| o.date).collect()
}

#[test]
fn weekly_in_january() {
    let ev = event(1, "Weekly", d(2024, 1, 1), 7, None);
    let r = evaluate(&ev, d(2024, 1, 1), d(2024, 1, 31));
    assert_eq!(
        dates(&r),
        vec![d(2024, 1, 1), d(2024, 1, 8), d(2024, 1, 15), d(2024, 1, 22), d(2024, 1, 29)]
    );
    assert!(r.iter().all(|o| o.event_id == 1 && o.name == "Weekly"));
}

#[test]
fn stop_date_is_exclusive() {
    let ev = event(1, "Ten", d(2024, 1, 1), 10, Some(d(2024, 1, 15)));
    let r = evaluate(&ev, d(2024, 1, 1), d(2024, 1, 31));
    assert_eq!(dates(&r), vec![d(2024, 1, 1), d(2024, 1, 11)]);
}

#[test]
fn stop_date_itself_not_produced() {
    let ev = event(1, "Ten", d(2024, 1, 1), 10, Some(d(2024, 1, 21)));
    let r = evaluate(&ev, d(2024, 1, 1), d(2024, 1, 31));
    assert_eq!(dates(&r), vec![d(2024, 1, 1), d(2024, 1, 11)]);
}

#[test]
fn window_starts_before_event() {
    let ev = event(1, "Five", d(2024, 2, 10), 5, None);
    let r = evaluate(&ev, d(2024, 1, 1), d(2024, 2, 28));
    assert_eq!(
        dates(&r),
        vec![d(2024, 2, 10), d(2024, 2, 15), d(2024, 2, 20), d(2024, 2, 25)]
    );
}

#[test]
fn window_starts_misaligned() {
    let ev = event(1, "Weekly", d(2024, 1, 1), 7, None);
    let r = evaluate(&ev, d(2024, 1, 10), d(2024, 1, 31));
    assert_eq!(dates(&r), vec![d(2024, 1, 15), d(2024, 1, 22), d(2024, 1, 29)]);
}

#[test]
fn equal_dates_ordered_by_name() {
    let evs = vec![
        event(1, "Beta", d(2024, 1, 15), 30, None),
        event(2, "Alpha", d(2024, 1, 15), 30, None),
    ];
    let r = aggregate(&evs, d(2024, 1, 1), d(2024, 1, 31), false, 64);
    assert_eq!(r.len(), 2);
    assert_eq!(r[0].name, "Alpha");
    assert_eq!(r[1].name, "Beta");
    assert_eq!(r[0].date, d(2024, 1, 15));
}

#[test]
fn reversed_window_rejected() {
    let evs = vec![event(1, "Weekly", d(2024, 1, 1), 7, None)];
    let r = compute_occurrences(&evs, d(2024, 2, 1), d(2024, 1, 1), false, 64);
    assert_eq!(r.unwrap_err(), OccurrenceError::InvalidWindow);
    assert_eq!(validate_window(d(2024, 2, 1), d(2024, 1, 1)), Err(OccurrenceError::InvalidWindow));
    assert_eq!(validate_window(d(2024, 1, 1), d(2024, 1, 1)), Ok(()));
}

#[test]
fn single_day_window() {
    let evs = vec![event(1, "Weekly", d(2024, 1, 1), 7, None)];
    let r = compute_occurrences(&evs, d(2024, 1, 8), d(2024, 1, 8), false, 64).unwrap();
    assert_eq!(dates(&r), vec![d(2024, 1, 8)]);
}

#[test]
fn event_after_window_has_none() {
    let ev = event(1, "Later", d(2024, 3, 1), 1, None);
    assert!(evaluate(&ev, d(2024, 1, 1), d(2024, 2, 28)).is_empty());
}

#[test]
fn non_positive_interval_has_none() {
    let zero = event(1, "Zero", d(2024, 1, 1), 0, None);
    let neg = event(2, "Neg", d(2024, 1, 1), -3, None);
    assert!(evaluate(&zero, d(2024, 1, 1), d(2024, 1, 31)).is_empty());
    assert!(evaluate(&neg, d(2024, 1, 1), d(2024, 1, 31)).is_empty());
}

#[test]
fn occurrences_aligned_inside_window_and_before_stop() {
    let start = d(2023, 11, 3);
    let stop = d(2024, 3, 2);
    let ev = event(1, "Odd", start, 9, Some(stop));
    let (ws, we) = (d(2024, 1, 5), d(2024, 6, 30));
    let r = evaluate(&ev, ws, we);
    assert!(!r.is_empty());
    for o in &r {
        assert_eq!((o.date.day - start.day) % 9, 0);
        assert!(ws.day <= o.date.day && o.date.day <= we.day);
        assert!(o.date.day < stop.day);
    }
}

fn many_events() -> Vec<Event> {
    let names = ["Rent", "Gym", "alpha", "Beta", "Rent", "Zed", "Mid", "Éclair"];
    let mut evs = Vec::new();
    for i in 0..150u32 {
        let start = d(2023, 12, 1 + (i % 28));
        let stop = if i % 3 == 0 { Some(d(2024, 2, 1 + (i % 20))) } else { None };
        evs.push(event(i as u128, names[(i % 8) as usize], start, (i % 11) as i32 + 1, stop));
    }
    evs
}

#[test]
fn parallel_matches_sequential() {
    let evs = many_events();
    let (ws, we) = (d(2024, 1, 1), d(2024, 3, 31));
    let seq = aggregate(&evs, ws, we, false, 64);
    let par = aggregate(&evs, ws, we, true, 1);
    assert!(!seq.is_empty());
    assert_eq!(seq.len(), par.len());
    for (a, b) in seq.iter().zip(par.iter()) {
        assert_eq!(a.event_id, b.event_id);
        assert_eq!(a.name, b.name);
        assert_eq!(a.date, b.date);
    }
}

#[test]
fn aggregate_sorted_by_date_then_name() {
    let evs = many_events();
    let r = aggregate(&evs, d(2024, 1, 1), d(2024, 3, 31), true, 1);
    let all = evaluate_all(&evs, d(2024, 1, 1), d(2024, 3, 31));
    assert_eq!(r.len(), all.len());
    for w in r.windows(2) {
        assert!(w[0].date.day < w[1].date.day || (w[0].date == w[1].date && w[0].name <= w[1].name));
    }
}

#[test]
fn sort_is_stable_and_orders_by_bytes() {
    let mk = |id: u128, name: &str, day: i32| OccurrenceDTO {
        event_id: id,
        name: name.to_string(),
        date: Date::from_day_number(day),
    };
    let v = vec![mk(1, "b", 5), mk(2, "a", 5), mk(3, "b", 5), mk(4, "Z", 5), mk(5, "a", 4), mk(6, "ab", 5)];
    let r = sort_by_date_and_name(v);
    let ids: Vec<u128> = r.iter().map(|o| o.event_id).collect();
    assert_eq!(ids, vec![5, 4, 2, 6, 1, 3]);
    assert!(occurrence_precedes(&mk(0, "a", 5), &mk(0, "ab", 5)));
    assert!(!occurrence_precedes(&mk(0, "ab", 5), &mk(0, "a", 5)));
    assert!(occurrence_precedes(&mk(0, "z", 4), &mk(0, "a", 5)));
}

#[test]
fn empty_candidates() {
    let evs: Vec<Event> = Vec::new();
    assert!(aggregate(&evs, d(2024, 1, 1), d(2024, 1, 31), true, 0).is_empty());
}

#[test]
fn chunking_sizes() {
    assert_eq!(worker_count(0), 1);
    assert_eq!(worker_count(8), 8);
    assert_eq!(chunk_len(0, 4), 1);
    assert_eq!(chunk_len(10, 4), 3);
    assert_eq!(chunk_len(8, 4), 2);
    assert_eq!(chunk_len(3, 8), 1);
}

#[test]
fn dates_from_calendar() {
    assert_eq!(d(1, 1, 1).day, 1);
    assert_eq!(d(2024, 3, 1).day - d(2024, 2, 28).day, 2);
    assert_eq!(d(2024, 1, 1).days_until(d(2024, 1, 31)), 30);
    assert!(Date::from_ymd(2023, 2, 29).is_none());
    assert!(Date::from_ymd(2024, 13, 1).is_none());
    assert!(Date::from_ymd(2024, 1, 0).is_none());
}

#[test]
fn every_aligned_day_is_produced() {
    let start = d(2024, 1, 3);
    let stop = d(2024, 4, 10);
    let ev = event(9, "Every6", start, 6, Some(stop));
    let (ws, we) = (d(2024, 2, 1), d(2024, 5, 1));
    let got: Vec<i32> = evaluate(&ev, ws, we).iter().map(|o| o.date.day).collect();
    let want: Vec<i32> = (ws.day..=we.day)
        .filter(|&x| x >= start.day && (x - start.day) % 6 == 0 && x < stop.day)
        .collect();
    assert_eq!(got, want);
}
