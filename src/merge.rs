use vstd::prelude::*;
use crate::lookup::{lookup, IdTable};
use crate::proximity::{stops_away, stops_between};
use crate::records::{choose_time, chosen_time, PredictionRecord, ScheduleRecord, StopConfig};
use crate::rank::{filter_rows, rows_with_key, shown_rows, sort_rows, sorted_by_time};
use crate::row::DepartureRow;
use crate::time::{parse_time, rfc3339_instant, Moment};

verus! {

/// The prediction that counts for a trip: the last one given for it.
pub open spec fn prediction_for(predictions: Seq<PredictionRecord>, trip: Seq<char>) -> Option<PredictionRecord>
    decreases predictions.len(),
{
    if predictions.len() == 0 {
        None
    } else if predictions.last().trip_id@ == trip {
        Some(predictions.last())
    } else {
        prediction_for(predictions.drop_last(), trip)
    }
}

/// The instant that an optional timestamp text denotes.
pub open spec fn instant_of(text: Option<Seq<char>>) -> Option<(int, int)> {
    match text {
        Some(t) => rfc3339_instant(t),
        None => None,
    }
}

/// The instant of an optional moment, as whole seconds and nanoseconds.
pub open spec fn utc_of(m: Option<Moment>) -> Option<(int, int)> {
    match m {
        Some(x) => Some((x.utc as int, x.nanos as int)),
        None => None,
    }
}

/// An optional count as a mathematical integer.
pub open spec fn count_of(n: Option<i32>) -> Option<int> {
    match n {
        Some(x) => Some(x as int),
        None => None,
    }
}

/// How many stops away the vehicle of a prediction is from the stop that the
/// prediction targets, where both are known and the route is.
pub open spec fn prediction_stops_away(
    p: PredictionRecord,
    vehicles: Seq<(Seq<char>, Seq<char>)>,
    parents: Seq<(Seq<char>, Seq<char>)>,
    route: Seq<String>,
) -> Option<int> {
    match (p.vehicle_id, p.stop_id) {
        (Some(v), Some(t)) => match lookup(vehicles, v@) {
            Some(at) => if route.len() > 0 {
                stops_between(parents, route, at, t@)
            } else {
                None
            },
            None => None,
        },
        _ => None,
    }
}

/// The scheduled instant of a schedule record.
pub open spec fn scheduled_instant(s: ScheduleRecord, is_origin: bool) -> Option<(int, int)> {
    instant_of(chosen_time(s.arrival_time, s.departure_time, is_origin))
}

/// The predicted instant for the trip of a schedule record.
pub open spec fn predicted_instant(s: ScheduleRecord, predictions: Seq<PredictionRecord>, is_origin: bool) -> Option<(int, int)> {
    match prediction_for(predictions, s.trip_id@) {
        Some(p) => instant_of(chosen_time(p.arrival_time, p.departure_time, is_origin)),
        None => None,
    }
}

/// Whether a schedule record yields a row: it has a scheduled or a predicted time.
pub open spec fn yields_row(s: ScheduleRecord, predictions: Seq<PredictionRecord>, is_origin: bool) -> bool {
    scheduled_instant(s, is_origin).is_some() || predicted_instant(s, predictions, is_origin).is_some()
}

/// Whether `row` is the row merged from schedule record `s`.
pub open spec fn merged_from(
    row: DepartureRow,
    s: ScheduleRecord,
    predictions: Seq<PredictionRecord>,
    vehicles: Seq<(Seq<char>, Seq<char>)>,
    parents: Seq<(Seq<char>, Seq<char>)>,
    route: Seq<String>,
    is_origin: bool,
) -> bool {
    &&& utc_of(row.scheduled_spec()) == scheduled_instant(s, is_origin)
    &&& utc_of(row.predicted_spec()) == predicted_instant(s, predictions, is_origin)
    &&& count_of(row.stops_away_spec()) == match prediction_for(predictions, s.trip_id@) {
        Some(p) => prediction_stops_away(p, vehicles, parents, route),
        None => None,
    }
}

/// The positions of the schedule records that yield a row, in order.
pub open spec fn row_sources(schedules: Seq<ScheduleRecord>, predictions: Seq<PredictionRecord>, is_origin: bool) -> Seq<int>
    decreases schedules.len(),
{
    if schedules.len() == 0 {
        Seq::empty()
    } else {
        let rest = row_sources(schedules.drop_last(), predictions, is_origin);
        if yields_row(schedules.last(), predictions, is_origin) {
            rest.push(schedules.len() - 1)
        } else {
            rest
        }
    }
}

/// The position of the prediction that counts for a trip.
pub fn find_prediction(predictions: &Vec<PredictionRecord>, trip: &String) -> (r: Option<usize>)
    ensures
        r.is_some() == prediction_for(predictions@, trip@).is_some(),
        r.is_some() ==> r.unwrap() < predictions@.len() && predictions@[r.unwrap() as int] == prediction_for(predictions@, trip@).unwrap(),
{
    let mut i: usize = predictions.len();
    assert(predictions@.take(i as int) =~= predictions@);
    while i > 0
        invariant
            i <= predictions@.len(),
            prediction_for(predictions@, trip@) == prediction_for(predictions@.take(i as int), trip@),
        decreases i,
    {
        let ghost before = predictions@.take(i as int);
        i = i - 1;
        assert(before.drop_last() =~= predictions@.take(i as int));
        if predictions[i].trip_id == *trip {
            return Some(i);
        }
    }
    None
}

/// The row for one schedule record, joined by trip with its prediction;
/// `None` where it has neither a scheduled nor a predicted time.
pub fn merge_row(
    schedule: &ScheduleRecord,
    predictions: &Vec<PredictionRecord>,
    vehicles: &IdTable,
    parents: &IdTable,
    route: &Vec<String>,
    is_origin: bool,
) -> (r: Option<DepartureRow>)
    ensures
        r.is_some() == yields_row(*schedule, predictions@, is_origin),
        r.is_some() ==> merged_from(r.unwrap(), *schedule, predictions@, vehicles@, parents@, route@, is_origin),
{
    let scheduled = parse_time(choose_time(&schedule.arrival_time, &schedule.departure_time, is_origin));
    let (predicted, away) = match find_prediction(predictions, &schedule.trip_id) {
        Some(k) => {
            let p = &predictions[k];
            let predicted = parse_time(choose_time(&p.arrival_time, &p.departure_time, is_origin));
            let away = match (&p.vehicle_id, &p.stop_id) {
                (Some(v), Some(t)) => match vehicles.get(v) {
                    Some(at) => if route.len() > 0 {
                        stops_away(parents, route, &at, t)
                    } else {
                        None
                    },
                    None => None,
                },
                _ => None,
            };
            (predicted, away)
        },
        None => (None, None),
    };
    DepartureRow::new(scheduled, predicted, away)
}

/// One row per schedule record of the stop that has a scheduled or a
/// predicted time, in the order of the schedule, each joined by trip with its
/// prediction.
pub fn merge_rows(
    stop: &StopConfig,
    schedules: &Vec<ScheduleRecord>,
    predictions: &Vec<PredictionRecord>,
    vehicles: &IdTable,
    parents: &IdTable,
    route: &Vec<String>,
) -> (r: Vec<DepartureRow>)
    ensures
        r@.len() == row_sources(schedules@, predictions@, stop.is_origin).len(),
        forall|i: int|
            0 <= i < r@.len() ==> merged_from(
                #[trigger] r@[i],
                schedules@[row_sources(schedules@, predictions@, stop.is_origin)[i]],
                predictions@,
                vehicles@,
                parents@,
                route@,
                stop.is_origin,
            ),
{
    let mut rows: Vec<DepartureRow> = Vec::new();
    let mut i: usize = 0;
    while i < schedules.len()
        invariant
            i <= schedules@.len(),
            rows@.len() == row_sources(schedules@.take(i as int), predictions@, stop.is_origin).len(),
            forall|k: int|
                0 <= k < row_sources(schedules@.take(i as int), predictions@, stop.is_origin).len()
                    ==> 0 <= #[trigger] row_sources(schedules@.take(i as int), predictions@, stop.is_origin)[k] < i,
            forall|k: int|
                0 <= k < rows@.len() ==> merged_from(
                    #[trigger] rows@[k],
                    schedules@[row_sources(schedules@.take(i as int), predictions@, stop.is_origin)[k]],
                    predictions@,
                    vehicles@,
                    parents@,
                    route@,
                    stop.is_origin,
                ),
        decreases schedules@.len() - i,
    {
        let ghost prev = row_sources(schedules@.take(i as int), predictions@, stop.is_origin);
        assert(schedules@.take(i as int + 1).drop_last() =~= schedules@.take(i as int));
        assert(schedules@.take(i as int + 1).last() == schedules@[i as int]);
        match merge_row(&schedules[i], predictions, vehicles, parents, route, stop.is_origin) {
            Some(row) => rows.push(row),
            None => {},
        }
        i = i + 1;
        assert(forall|k: int| 0 <= k < prev.len() ==> #[trigger] row_sources(schedules@.take(i as int), predictions@, stop.is_origin)[k] == prev[k]);
    }
    assert(schedules@.take(i as int) =~= schedules@);
    rows
}

/// Whether `rows` are the rows merged from the stop's records: one per
/// schedule record that yields a row, in the order of the schedule.
pub open spec fn is_merge_of(
    rows: Seq<DepartureRow>,
    schedules: Seq<ScheduleRecord>,
    predictions: Seq<PredictionRecord>,
    vehicles: Seq<(Seq<char>, Seq<char>)>,
    parents: Seq<(Seq<char>, Seq<char>)>,
    route: Seq<String>,
    is_origin: bool,
) -> bool {
    &&& rows.len() == row_sources(schedules, predictions, is_origin).len()
    &&& forall|i: int|
        0 <= i < rows.len() ==> merged_from(
            #[trigger] rows[i],
            schedules[row_sources(schedules, predictions, is_origin)[i]],
            predictions,
            vehicles,
            parents,
            route,
            is_origin,
        )
}

/// The departures of a stop: its records merged, the stale rows filtered out,
/// and the rest sorted by time, rows with equal times in schedule order.
pub fn compute_departure_rows(
    stop: &StopConfig,
    schedules: &Vec<ScheduleRecord>,
    predictions: &Vec<PredictionRecord>,
    vehicles: &IdTable,
    parents: &IdTable,
    route: &Vec<String>,
    now: Moment,
) -> (r: Vec<DepartureRow>)
    ensures
        exists|merged: Seq<DepartureRow>|
            is_merge_of(merged, schedules@, predictions@, vehicles@, parents@, route@, stop.is_origin)
                && r@.len() == shown_rows(merged, now).len() && sorted_by_time(r@, now) && (forall|k: int|
                #[trigger] rows_with_key(r@, now, k) == rows_with_key(shown_rows(merged, now), now, k)),
{
    let merged = merge_rows(stop, schedules, predictions, vehicles, parents, route);
    let ghost m = merged@;
    let shown = filter_rows(merged, now);
    let r = sort_rows(shown, now);
    assert(is_merge_of(m, schedules@, predictions@, vehicles@, parents@, route@, stop.is_origin));
    r
}

} // verus!
