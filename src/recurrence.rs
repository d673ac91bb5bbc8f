use vstd::prelude::*;
use crate::date::Date;
use crate::models::{Event, OccurrenceDTO};

verus! {

/// The occurrence of `ev` on day `d`.
pub open spec fn occurrence_on(ev: Event, d: int) -> OccurrenceDTO {
    OccurrenceDTO { event_id: ev.id, name: ev.name, date: Date { day: d as i32 } }
}

/// The first day on or after both `window_start` and the definition's start
/// that lies a whole number of intervals after the start.
pub open spec fn first_aligned_day(ev: Event, window_start: int) -> int
    recommends
        ev.interval_days > 0,
{
    let seed = if window_start > ev.start_date.day { window_start } else { ev.start_date.day as int };
    let rem = (seed - ev.start_date.day) % (ev.interval_days as int);
    if rem == 0 {
        seed
    } else {
        seed + ev.interval_days - rem
    }
}

/// The first day that no occurrence may reach: the day after the window, or
/// the stop date when that comes first.
pub open spec fn cutoff_day(ev: Event, window_end: int) -> int {
    match ev.stop_at {
        Some(s) => if s.day <= window_end { s.day as int } else { window_end + 1 },
        None => window_end + 1,
    }
}

/// The occurrences of `ev` on `day`, `day + interval`, ... up to, not
/// including, `bound`.
pub open spec fn occurrences_from(ev: Event, day: int, bound: int) -> Seq<OccurrenceDTO>
    decreases (if day < bound { bound - day } else { 0 }),
{
    if ev.interval_days <= 0 {
        Seq::empty()
    } else if day >= bound {
        Seq::empty()
    } else {
        seq![occurrence_on(ev, day)] + occurrences_from(ev, day + ev.interval_days, bound)
    }
}

/// The occurrences of `ev` in the inclusive window, in ascending date order.
pub open spec fn occurrences(ev: Event, window_start: Date, window_end: Date) -> Seq<OccurrenceDTO> {
    if ev.interval_days <= 0 {
        Seq::empty()
    } else {
        occurrences_from(
            ev,
            first_aligned_day(ev, window_start.day as int),
            cutoff_day(ev, window_end.day as int),
        )
    }
}

/// The occurrences of every definition of `evs`, definition after definition.
pub open spec fn all_occurrences(evs: Seq<Event>, window_start: Date, window_end: Date) -> Seq<
    OccurrenceDTO,
>
    decreases evs.len(),
{
    if evs.len() == 0 {
        Seq::empty()
    } else {
        all_occurrences(evs.drop_last(), window_start, window_end) + occurrences(
            evs.last(),
            window_start,
            window_end,
        )
    }
}

/// The occurrences of one definition in the inclusive window
/// `[window_start, window_end]`, in ascending date order.  A definition with
/// a non-positive interval has none.
pub fn evaluate(ev: &Event, window_start: Date, window_end: Date) -> (r: Vec<OccurrenceDTO>)
    ensures
        r@ == occurrences(*ev, window_start, window_end),
{
    let mut out: Vec<OccurrenceDTO> = Vec::new();
    if ev.interval_days <= 0 {
        return out;
    }
    let interval: i64 = ev.interval_days as i64;
    let seed_date: Date = if window_start.day > ev.start_date.day { window_start } else { ev.start_date };
    let seed: i64 = seed_date.day as i64;
    let diff_days: i64 = ev.start_date.days_until(seed_date);
    let rem: i64 = diff_days % interval;
    let first: i64 = if rem == 0 { seed } else { seed + (interval - rem) };
    let end: i64 = window_end.day as i64;
    let ghost bound = cutoff_day(*ev, window_end.day as int);
    assert(first == first_aligned_day(*ev, window_start.day as int));
    let mut cursor: i64 = first;
    while cursor <= end
        invariant
            interval == ev.interval_days > 0,
            end == window_end.day,
            bound == cutoff_day(*ev, window_end.day as int),
            first == first_aligned_day(*ev, window_start.day as int),
            cursor >= first,
            out@ + occurrences_from(*ev, cursor as int, bound) == occurrences_from(
                *ev,
                first as int,
                bound,
            ),
        ensures
            cursor >= bound,
            out@ == occurrences_from(*ev, first as int, bound),
        decreases end + interval - cursor,
    {
        if let Some(c) = ev.stop_at {
            if cursor >= c.day as i64 {
                break;
            }
        }
        out.push(OccurrenceDTO { event_id: ev.id, name: ev.name.clone(), date: Date { day: cursor as i32 } });
        cursor = cursor + interval;
    }
    assert(out@ =~= occurrences(*ev, window_start, window_end));
    out
}

/// The occurrences of every definition of `evs`, definition after definition,
/// each in ascending date order.
pub fn evaluate_all(evs: &[Event], window_start: Date, window_end: Date) -> (r: Vec<OccurrenceDTO>)
    ensures
        r@ == all_occurrences(evs@, window_start, window_end),
{
    let mut out: Vec<OccurrenceDTO> = Vec::new();
    let mut i: usize = 0;
    while i < evs.len()
        invariant
            i <= evs@.len(),
            out@ == all_occurrences(evs@.take(i as int), window_start, window_end),
        decreases evs@.len() - i,
    {
        let mut one = evaluate(&evs[i], window_start, window_end);
        out.append(&mut one);
        proof {
            assert(evs@.take(i + 1).drop_last() =~= evs@.take(i as int));
        }
        i = i + 1;
    }
    assert(evs@.take(i as int) =~= evs@);
    out
}

} // verus!

verus! {

proof fn lemma_occurrences_from_index(ev: Event, day: int, bound: int, i: int)
    requires
        ev.interval_days > 0,
        0 <= i < occurrences_from(ev, day, bound).len(),
    ensures
        occurrences_from(ev, day, bound)[i] == occurrence_on(ev, day + i * ev.interval_days),
        day <= day + i * ev.interval_days < bound,
    decreases i,
{
    let interval = ev.interval_days as int;
    if i > 0 {
        lemma_occurrences_from_index(ev, day + interval, bound, i - 1);
        assert(day + interval + (i - 1) * interval == day + i * interval) by (nonlinear_arith);
    }
}

proof fn lemma_first_aligned(ev: Event, window_start: int)
    requires
        ev.interval_days > 0,
    ensures
        first_aligned_day(ev, window_start) >= window_start,
        first_aligned_day(ev, window_start) >= ev.start_date.day,
        (first_aligned_day(ev, window_start) - ev.start_date.day) % (ev.interval_days as int) == 0,
{
    let interval = ev.interval_days as int;
    let seed = if window_start > ev.start_date.day { window_start } else { ev.start_date.day as int };
    let diff = seed - ev.start_date.day;
    vstd::arithmetic::div_mod::lemma_fundamental_div_mod(diff, interval);
    let q = diff / interval;
    let rem = diff % interval;
    if rem != 0 {
        assert(first_aligned_day(ev, window_start) - ev.start_date.day == (q + 1) * interval)
            by (nonlinear_arith)
            requires
                diff == interval * q + rem,
                first_aligned_day(ev, window_start) == seed + interval - rem,
                diff == seed - ev.start_date.day,
        ;
        vstd::arithmetic::div_mod::lemma_mod_multiples_basic(q + 1, interval);
    }
}

/// The day of each occurrence: the `i`-th lies `i` intervals after the
/// first aligned day, inside the window and before the cutoff.
proof fn lemma_occurrence_day(ev: Event, window_start: Date, window_end: Date, i: int)
    requires
        0 <= i < occurrences(ev, window_start, window_end).len(),
    ensures
        ev.interval_days > 0,
        occurrences(ev, window_start, window_end)[i].date.day == first_aligned_day(
            ev,
            window_start.day as int,
        ) + i * ev.interval_days,
        occurrences(ev, window_start, window_end)[i].event_id == ev.id,
        occurrences(ev, window_start, window_end)[i].name == ev.name,
        window_start.day <= occurrences(ev, window_start, window_end)[i].date.day,
        occurrences(ev, window_start, window_end)[i].date.day < cutoff_day(
            ev,
            window_end.day as int,
        ),
{
    let first = first_aligned_day(ev, window_start.day as int);
    let bound = cutoff_day(ev, window_end.day as int);
    lemma_occurrences_from_index(ev, first, bound, i);
    lemma_first_aligned(ev, window_start.day as int);
}

/// Every occurrence of a definition lies a whole number of intervals after
/// the definition's start date.
pub proof fn occurrence_is_aligned(ev: Event, window_start: Date, window_end: Date, i: int)
    requires
        0 <= i < occurrences(ev, window_start, window_end).len(),
    ensures
        (occurrences(ev, window_start, window_end)[i].date.day - ev.start_date.day) % (
        ev.interval_days as int) == 0,
{
    lemma_occurrence_day(ev, window_start, window_end, i);
    let interval = ev.interval_days as int;
    let first = first_aligned_day(ev, window_start.day as int);
    lemma_first_aligned(ev, window_start.day as int);
    vstd::arithmetic::div_mod::lemma_fundamental_div_mod(first - ev.start_date.day, interval);
    let q = (first - ev.start_date.day) / interval;
    assert(first + i * interval - ev.start_date.day == (q + i) * interval) by (nonlinear_arith)
        requires
            first - ev.start_date.day == interval * q + 0,
    ;
    vstd::arithmetic::div_mod::lemma_mod_multiples_basic(q + i, interval);
}

/// Every occurrence lies inside the inclusive window.
pub proof fn occurrence_in_window(ev: Event, window_start: Date, window_end: Date, i: int)
    requires
        0 <= i < occurrences(ev, window_start, window_end).len(),
    ensures
        window_start.day <= occurrences(ev, window_start, window_end)[i].date.day
            <= window_end.day,
{
    lemma_occurrence_day(ev, window_start, window_end, i);
}

/// No occurrence falls on or after the definition's stop date.
pub proof fn occurrence_before_stop(ev: Event, window_start: Date, window_end: Date, i: int)
    requires
        0 <= i < occurrences(ev, window_start, window_end).len(),
    ensures
        ev.stop_at matches Some(stop) ==> occurrences(ev, window_start, window_end)[i].date.day
            < stop.day,
{
    lemma_occurrence_day(ev, window_start, window_end, i);
}

/// A definition that starts after the window has no occurrence in it.
pub proof fn no_occurrences_before_start(ev: Event, window_start: Date, window_end: Date)
    requires
        ev.start_date.day > window_end.day,
    ensures
        occurrences(ev, window_start, window_end).len() == 0,
{
    if occurrences(ev, window_start, window_end).len() > 0 {
        lemma_occurrence_day(ev, window_start, window_end, 0);
        lemma_first_aligned(ev, window_start.day as int);
    }
}

} // verus!

verus! {

proof fn lemma_occurrences_from_contains(ev: Event, day: int, bound: int, k: int)
    requires
        ev.interval_days > 0,
        k >= 0,
        day + k * ev.interval_days < bound,
    ensures
        k < occurrences_from(ev, day, bound).len(),
        occurrences_from(ev, day, bound)[k] == occurrence_on(ev, day + k * ev.interval_days),
    decreases k,
{
    let interval = ev.interval_days as int;
    assert(day + k * interval >= day) by (nonlinear_arith)
        requires
            k >= 0,
            interval > 0,
    ;
    if k > 0 {
        assert(day + interval + (k - 1) * interval == day + k * interval) by (nonlinear_arith);
        lemma_occurrences_from_contains(ev, day + interval, bound, k - 1);
        let tail = occurrences_from(ev, day + interval, bound);
        assert(occurrences_from(ev, day, bound) == seq![occurrence_on(ev, day)] + tail);
        assert((seq![occurrence_on(ev, day)] + tail)[k] == tail[k - 1]);
    } else {
        assert(k * interval == 0) by (nonlinear_arith)
            requires
                k == 0,
        ;
    }
}

/// Every day of the window that lies a whole number of intervals after the
/// definition's start, and before its stop date when it has one, is an
/// occurrence.
pub proof fn aligned_day_is_an_occurrence(ev: Event, window_start: Date, window_end: Date, day: int)
    requires
        ev.interval_days > 0,
        window_start.day <= day <= window_end.day,
        ev.start_date.day <= day,
        (day - ev.start_date.day) % (ev.interval_days as int) == 0,
        ev.stop_at matches Some(stop) ==> day < stop.day,
    ensures
        exists|i: int|
            0 <= i < occurrences(ev, window_start, window_end).len() && (#[trigger] occurrences(
                ev,
                window_start,
                window_end,
            )[i]).date.day == day,
{
    let interval = ev.interval_days as int;
    let s = ev.start_date.day as int;
    let ws = window_start.day as int;
    let seed = if ws > s { ws } else { s };
    let first = first_aligned_day(ev, ws);
    let bound = cutoff_day(ev, window_end.day as int);
    vstd::arithmetic::div_mod::lemma_fundamental_div_mod(seed - s, interval);
    vstd::arithmetic::div_mod::lemma_fundamental_div_mod(day - s, interval);
    let q = (seed - s) / interval;
    let rem = (seed - s) % interval;
    let m = (day - s) / interval;
    let k = if rem == 0 { m - q } else { m - q - 1 };
    assert(m * interval >= q * interval + rem) by (nonlinear_arith)
        requires
            day - s == interval * m + 0,
            seed - s == interval * q + rem,
            seed <= day,
    ;
    assert(k >= 0 && first + k * interval == day) by (nonlinear_arith)
        requires
            m * interval >= q * interval + rem,
            0 <= rem < interval,
            day - s == interval * m + 0,
            seed - s == interval * q + rem,
            rem == 0 ==> first == seed,
            rem != 0 ==> first == seed + interval - rem,
            k == if rem == 0 { m - q } else { m - q - 1 },
    ;
    lemma_occurrences_from_contains(ev, first, bound, k);
    assert(occurrences(ev, window_start, window_end)[k].date.day == day);
}

/// The occurrences of one definition come in strictly increasing date order.
pub proof fn occurrences_strictly_increase(ev: Event, window_start: Date, window_end: Date, i: int, j: int)
    requires
        0 <= i < j < occurrences(ev, window_start, window_end).len(),
    ensures
        occurrences(ev, window_start, window_end)[i].date.day < occurrences(
            ev,
            window_start,
            window_end,
        )[j].date.day,
{
    lemma_occurrence_day(ev, window_start, window_end, i);
    lemma_occurrence_day(ev, window_start, window_end, j);
    let interval = ev.interval_days as int;
    assert(i * interval < j * interval) by (nonlinear_arith)
        requires
            i < j,
            interval > 0,
    ;
}

} // verus!
