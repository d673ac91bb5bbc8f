use vstd::prelude::*;
use crate::date::Date;

verus! {

/// A stored recurrence definition: occurrences fall on `start_date` and every
/// `interval_days` days after it, strictly before `stop_at` when that is set.
#[derive(Clone, Debug)]
pub struct Event {
    pub id: u128,
    pub customer_id: u128,
    pub name: String,
    pub start_date: Date,
    pub interval_days: i32,
    pub stop_at: Option<Date>,
}

/// The fields of a definition about to be created.
#[derive(Clone, Debug)]
pub struct CreateEvent {
    pub name: String,
    pub start_date: Date,
    pub interval_days: i32,
    pub stop_at: Option<Date>,
}

/// A partial change of a definition: `None` leaves a field as it is; for
/// `stop_at`, `Some(None)` clears the stop date.
#[derive(Clone, Debug)]
pub struct UpdateEvent {
    pub name: Option<String>,
    pub start_date: Option<Date>,
    pub interval_days: Option<i32>,
    pub stop_at: Option<Option<Date>>,
}

/// One concrete occurrence of a definition.
#[derive(Clone, Debug)]
pub struct OccurrenceDTO {
    pub event_id: u128,
    pub name: String,
    pub date: Date,
}

/// The inclusive date window of a query.
#[derive(Clone, Copy, Debug)]
pub struct OccurrencePeriod {
    pub start: Date,
    pub end: Date,
}

/// The answer to an occurrence query: its window and the occurrences in it.
#[derive(Clone, Debug)]
pub struct OccurrencesResponse {
    pub period: OccurrencePeriod,
    pub occurrences: Vec<OccurrenceDTO>,
}

} // verus!
