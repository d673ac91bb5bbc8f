use recurring_service::config::{parallel_enabled_from, parallel_threshold_from, AppConfig, ConfigError};
use recurring_service::date::Date;
use recurring_service::models::{CreateEvent, Event, UpdateEvent};
use recurring_service::services::{
    cut_stop, filter_from_trimmed, normalize_name_filter, page_limit, page_offset, plan_update,
    validate_create, EventError,
};

fn d(y: i32, m: u32, day: u32) -> Date {
    Date::from_ymd(y, m, day).unwrap()
}

fn current() -> Event {
    Event {
        id: 1,
        customer_id: 2,
        name: "Rent".to_string(),
        start_date: d(2024, 1, 10),
        interval_days: 30,
        stop_at: Some(d(2024, 12, 31)),
    }
}

#[test]
fn name_filter_normalized() {
    assert_eq!(normalize_name_filter(None), None);
    assert_eq!(normalize_name_filter(Some("   ".to_string())), None);
    assert_eq!(normalize_name_filter(Some(" undefined ".to_string())), None);
    assert_eq!(normalize_name_filter(Some("null".to_string())), None);
    assert_eq!(normalize_name_filter(Some("  Rent \t".to_string())), Some("Rent".to_string()));
    assert_eq!(normalize_name_filter(Some("Null".to_string())), Some("Null".to_string()));
    assert_eq!(filter_from_trimmed("".to_string()), None);
    assert_eq!(filter_from_trimmed("gym".to_string()), Some("gym".to_string()));
}

#[test]
fn create_validation() {
    let ok = CreateEvent { name: "A".to_string(), start_date: d(2024, 1, 1), interval_days: 1, stop_at: None };
    assert_eq!(validate_create(&ok), Ok(()));
    let same_day = CreateEvent { stop_at: Some(d(2024, 1, 1)), ..ok.clone() };
    assert_eq!(validate_create(&same_day), Ok(()));
    let zero = CreateEvent { interval_days: 0, ..ok.clone() };
    assert_eq!(validate_create(&zero), Err(EventError::NonPositiveInterval));
    let early = CreateEvent { stop_at: Some(d(2023, 12, 31)), ..ok.clone() };
    assert_eq!(validate_create(&early), Err(EventError::StopBeforeStart));
}

#[test]
fn update_planning() {
    let cur = current();
    let blank = UpdateEvent { name: Some("  ".to_string()), start_date: None, interval_days: None, stop_at: None };
    assert_eq!(plan_update(&cur, &blank).unwrap_err(), EventError::EmptyName);
    let neg = UpdateEvent { name: None, start_date: None, interval_days: Some(-1), stop_at: None };
    assert_eq!(plan_update(&cur, &neg).unwrap_err(), EventError::NonPositiveInterval);
    let early = UpdateEvent { name: None, start_date: Some(d(2025, 1, 1)), interval_days: None, stop_at: Some(Some(d(2024, 6, 1))) };
    assert_eq!(plan_update(&cur, &early).unwrap_err(), EventError::StopBeforeStart);
    let rename = UpdateEvent { name: Some("Rent 2".to_string()), start_date: None, interval_days: Some(7), stop_at: None };
    let p = plan_update(&cur, &rename).unwrap();
    assert_eq!(p.name, Some("Rent 2".to_string()));
    assert_eq!(p.interval_days, Some(7));
    assert_eq!(p.start_date, None);
    assert_eq!(p.stop_at, Some(None));
    let set_stop = UpdateEvent { name: None, start_date: None, interval_days: None, stop_at: Some(Some(d(2024, 5, 1))) };
    assert_eq!(plan_update(&cur, &set_stop).unwrap().stop_at, Some(Some(d(2024, 5, 1))));
}

#[test]
fn cut_keeps_earlier_stop() {
    assert_eq!(cut_stop(None, d(2024, 3, 1)), d(2024, 3, 1));
    assert_eq!(cut_stop(Some(d(2024, 2, 1)), d(2024, 3, 1)), d(2024, 2, 1));
    assert_eq!(cut_stop(Some(d(2024, 4, 1)), d(2024, 3, 1)), d(2024, 3, 1));
}

#[test]
fn paging_bounds() {
    assert_eq!(page_limit(0), 20);
    assert_eq!(page_limit(-5), 20);
    assert_eq!(page_limit(50), 50);
    assert_eq!(page_limit(500), 100);
    assert_eq!(page_offset(-1), 0);
    assert_eq!(page_offset(30), 30);
}

#[test]
fn config_from_values() {
    let c = AppConfig::from_values(Some("postgres://x".to_string()), None).unwrap();
    assert_eq!(c.port, 3000);
    assert_eq!(c.database_url, "postgres://x");
    let c = AppConfig::from_values(Some("u".to_string()), Some("8080".to_string())).unwrap();
    assert_eq!(c.port, 8080);
    assert_eq!(AppConfig::from_values(None, None).unwrap_err(), ConfigError::MissingDatabaseUrl);
    assert_eq!(
        AppConfig::from_values(Some("u".to_string()), Some("70000".to_string())).unwrap_err(),
        ConfigError::InvalidPort
    );
}

#[test]
fn parallel_settings() {
    assert!(parallel_enabled_from(Some("TRUE".to_string())));
    assert!(parallel_enabled_from(Some("true".to_string())));
    assert!(!parallel_enabled_from(Some("yes".to_string())));
    assert!(!parallel_enabled_from(None));
    assert_eq!(parallel_threshold_from(Some("10".to_string())), 10);
    assert_eq!(parallel_threshold_from(Some("ten".to_string())), 64);
    assert_eq!(parallel_threshold_from(None), 64);
}
