use vstd::prelude::*;
use crate::aggregation::{aggregate, aggregated};
use crate::date::Date;
use crate::ordering::is_ordered;
use crate::models::{CreateEvent, Event, OccurrenceDTO, UpdateEvent};

verus! {

/// Why an occurrence query was refused.
#[derive(Clone, Copy, Debug, PartialEq, Eq, Structural)]
pub enum OccurrenceError {
    /// The window starts after it ends.
    InvalidWindow,
}

impl OccurrenceError {
    /// A human-readable description of the error.
    pub fn message(&self) -> String {
        match self {
            OccurrenceError::InvalidWindow => "start deve ser anterior ou igual a end".to_string(),
        }
    }
}

/// Why a definition, new or changed, was refused.
#[derive(Clone, Copy, Debug, PartialEq, Eq, Structural)]
pub enum EventError {
    /// The name is empty or whitespace only.
    EmptyName,
    /// The interval is zero or negative.
    NonPositiveInterval,
    /// The stop date comes before the start date.
    StopBeforeStart,
}

impl EventError {
    /// A human-readable description of the error.
    pub fn message(&self) -> String {
        match self {
            EventError::EmptyName => "name cannot be empty".to_string(),
            EventError::NonPositiveInterval => "interval_days must be > 0".to_string(),
            EventError::StopBeforeStart => "stop_at must be >= start_date".to_string(),
        }
    }
}

/// What `str::trim` leaves of a string: it without leading and trailing
/// whitespace.
pub uninterp spec fn trimmed(s: Seq<char>) -> Seq<char>;

/// Relies on `str::trim`: the string without leading and trailing whitespace.
#[verifier::external_body]
fn trim_whitespace(s: &str) -> (r: String)
    ensures
        r@ == trimmed(s@),
        s@.len() == 0 ==> r@.len() == 0,
{
    s.trim().to_string()
}

/// Checks that a query window is not reversed.
pub fn validate_window(window_start: Date, window_end: Date) -> (r: Result<(), OccurrenceError>)
    ensures
        r is Err <==> window_start.day > window_end.day,
        r matches Err(e) ==> e == OccurrenceError::InvalidWindow,
{
    if window_start.day > window_end.day {
        Err(OccurrenceError::InvalidWindow)
    } else {
        Ok(())
    }
}

/// The occurrences of the candidates in the inclusive window, sorted by date
/// and name; a reversed window is refused before any evaluation.
pub fn compute_occurrences(
    candidates: &Vec<Event>,
    window_start: Date,
    window_end: Date,
    parallel_enabled: bool,
    parallel_threshold: usize,
) -> (r: Result<Vec<OccurrenceDTO>, OccurrenceError>)
    ensures
        r is Err <==> window_start.day > window_end.day,
        r matches Err(e) ==> e == OccurrenceError::InvalidWindow,
        r matches Ok(v) ==> v@ == aggregated(candidates@, window_start, window_end),
        r matches Ok(v) ==> is_ordered(v@),
{
    match validate_window(window_start, window_end) {
        Err(e) => Err(e),
        Ok(()) => Ok(
            aggregate(candidates, window_start, window_end, parallel_enabled, parallel_threshold),
        ),
    }
}

/// Whether a trimmed filter stands for "no filter": empty, or one of the
/// literal words `undefined` and `null`.
pub open spec fn is_blank_filter(t: Seq<char>) -> bool {
    t.len() == 0 || t == "undefined"@ || t == "null"@
}

/// The name filter that a trimmed filter text gives: none for a blank one,
/// else the text itself.
pub fn filter_from_trimmed(t: String) -> (r: Option<String>)
    ensures
        is_blank_filter(t@) ==> r is None,
        !is_blank_filter(t@) ==> r == Some(t),
{
    proof {
        reveal_strlit("undefined");
        reveal_strlit("null");
    }
    let undefined = "undefined".to_string();
    let null = "null".to_string();
    if t.as_str().is_empty() || t == undefined || t == null {
        None
    } else {
        Some(t)
    }
}

/// The name filter of a query: the given text trimmed, or none where it is
/// absent, blank, `undefined` or `null`.
pub fn normalize_name_filter(name: Option<String>) -> (r: Option<String>)
    ensures
        name is None ==> r is None,
        name matches Some(n) ==> (is_blank_filter(trimmed(n@)) ==> r is None),
        name matches Some(n) ==> (!is_blank_filter(trimmed(n@)) ==> (r matches Some(f) && f@
            == trimmed(n@))),
{
    match name {
        None => None,
        Some(v) => filter_from_trimmed(trim_whitespace(v.as_str())),
    }
}

/// Checks the fields of a definition about to be created.
pub fn validate_create(input: &CreateEvent) -> (r: Result<(), EventError>)
    ensures
        input.interval_days <= 0 ==> r == Err::<(), EventError>(EventError::NonPositiveInterval),
        input.interval_days > 0 && (input.stop_at matches Some(s) && s.day
            < input.start_date.day) ==> r == Err::<(), EventError>(EventError::StopBeforeStart),
        r is Ok <==> input.interval_days > 0 && !(input.stop_at matches Some(s) && s.day
            < input.start_date.day),
{
    if input.interval_days <= 0 {
        return Err(EventError::NonPositiveInterval);
    }
    if let Some(stop) = input.stop_at {
        if stop.day < input.start_date.day {
            return Err(EventError::StopBeforeStart);
        }
    }
    Ok(())
}

/// The stop date that a change leaves: the one it sets, and none where it
/// sets none or does not mention it.
pub open spec fn stop_after_update(patch: UpdateEvent) -> Option<Date> {
    match patch.stop_at {
        Some(v) => v,
        None => None,
    }
}

/// The change to store for `patch` applied to `current`, or the reason it is
/// refused: a blank new name, a non-positive resulting interval, or a
/// resulting stop date before the resulting start date, checked in that
/// order.  The stored change always sets the stop date, to
/// `stop_after_update(patch)`.
pub fn plan_update(current: &Event, patch: &UpdateEvent) -> (r: Result<UpdateEvent, EventError>)
    ensures
        ({
            let new_start = match patch.start_date {
                Some(d) => d,
                None => current.start_date,
            };
            let new_interval = match patch.interval_days {
                Some(i) => i,
                None => current.interval_days,
            };
            let blank_name = patch.name matches Some(n) && trimmed(n@).len() == 0;
            let stop_too_early = stop_after_update(*patch) matches Some(s) && s.day < new_start.day;
            &&& blank_name ==> r == Err::<UpdateEvent, EventError>(EventError::EmptyName)
            &&& !blank_name && new_interval <= 0 ==> r == Err::<UpdateEvent, EventError>(
                EventError::NonPositiveInterval,
            )
            &&& !blank_name && new_interval > 0 && stop_too_early ==> r == Err::<
                UpdateEvent,
                EventError,
            >(EventError::StopBeforeStart)
            &&& !blank_name && new_interval > 0 && !stop_too_early ==> r == Ok::<
                UpdateEvent,
                EventError,
            >(
                UpdateEvent {
                    name: patch.name,
                    start_date: patch.start_date,
                    interval_days: patch.interval_days,
                    stop_at: Some(stop_after_update(*patch)),
                },
            )
        }),
{
    let new_start = match patch.start_date {
        Some(d) => d,
        None => current.start_date,
    };
    let new_interval = match patch.interval_days {
        Some(i) => i,
        None => current.interval_days,
    };
    let new_stop = match patch.stop_at {
        Some(v) => v,
        None => None,
    };
    let name = match &patch.name {
        Some(n) => {
            let t = trim_whitespace(n.as_str());
            if t.as_str().is_empty() {
                return Err(EventError::EmptyName);
            }
            Some(n.clone())
        },
        None => None,
    };
    if new_interval <= 0 {
        return Err(EventError::NonPositiveInterval);
    }
    if let Some(stop) = new_stop {
        if stop.day < new_start.day {
            return Err(EventError::StopBeforeStart);
        }
    }
    Ok(
        UpdateEvent {
            name,
            start_date: patch.start_date,
            interval_days: patch.interval_days,
            stop_at: Some(new_stop),
        },
    )
}

/// The stop date of a definition cut from `from` on: the earlier of its
/// current stop date and `from`.
pub fn cut_stop(current_stop: Option<Date>, from: Date) -> (r: Date)
    ensures
        r == match current_stop {
            Some(s) => if s.day < from.day { s } else { from },
            None => from,
        },
{
    match current_stop {
        Some(s) => if s.day < from.day { s } else { from },
        None => from,
    }
}

/// The page size of a listing: 20 when none (or a non-positive one) is
/// asked, else the one asked, at most 100.
pub fn page_limit(limit: i32) -> (r: i64)
    ensures
        r == if limit <= 0 { 20 } else if limit > 100 { 100 } else { limit as int },
{
    if limit <= 0 { 20 } else if limit > 100 { 100 } else { limit as i64 }
}

/// The offset of a listing: the one asked, and at least zero.
pub fn page_offset(offset: i32) -> (r: i64)
    ensures
        r == if offset < 0 { 0 } else { offset as int },
{
    if offset < 0 { 0 } else { offset as i64 }
}

} // verus!
