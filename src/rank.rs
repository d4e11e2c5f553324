use vstd::prelude::*;
use crate::row::DepartureRow;
use crate::time::{instant, instant_nanos, minutes_between, minutes_from, Moment};

verus! {

/// Rows whose times both lie this many minutes or more in the past are dropped.
pub const STALE_MINUTES: i64 = 5;

/// Minutes from `now` to the scheduled time; zero without one.
pub open spec fn scheduled_minutes(row: DepartureRow, now: Moment) -> int {
    match row.scheduled_spec() {
        Some(t) => minutes_from(t, now),
        None => 0,
    }
}

/// Minutes from `now` to the predicted time; the scheduled minutes without one.
pub open spec fn predicted_minutes(row: DepartureRow, now: Moment) -> int {
    match row.predicted_spec() {
        Some(t) => minutes_from(t, now),
        None => scheduled_minutes(row, now),
    }
}

/// Whether a row is not stale: one of its times lies less than five minutes
/// in the past.
pub open spec fn is_recent(row: DepartureRow, now: Moment) -> bool {
    scheduled_minutes(row, now) > -STALE_MINUTES || predicted_minutes(row, now) > -STALE_MINUTES
}

/// Whether a row is live, or scheduled for after `now`.
pub open spec fn is_live_or_upcoming(row: DepartureRow, now: Moment) -> bool {
    row.predicted_spec().is_some() || (row.scheduled_spec().is_some() && instant(row.scheduled_spec().unwrap()) > instant(now))
}

/// The rows that are not stale, in order.
pub open spec fn recent_rows(rows: Seq<DepartureRow>, now: Moment) -> Seq<DepartureRow>
    decreases rows.len(),
{
    if rows.len() == 0 {
        Seq::empty()
    } else {
        let rest = recent_rows(rows.drop_last(), now);
        if is_recent(rows.last(), now) {
            rest.push(rows.last())
        } else {
            rest
        }
    }
}

/// The rows that are live or upcoming, in order.
pub open spec fn live_or_upcoming_rows(rows: Seq<DepartureRow>, now: Moment) -> Seq<DepartureRow>
    decreases rows.len(),
{
    if rows.len() == 0 {
        Seq::empty()
    } else {
        let rest = live_or_upcoming_rows(rows.drop_last(), now);
        if is_live_or_upcoming(rows.last(), now) {
            rest.push(rows.last())
        } else {
            rest
        }
    }
}

/// Whether some row has a predicted time.
pub open spec fn has_live(rows: Seq<DepartureRow>) -> bool {
    exists|i: int| 0 <= i < rows.len() && (#[trigger] rows[i]).predicted_spec().is_some()
}

/// The rows to show at a stop: those that are not stale and, once some of
/// them is live, only those that are live or upcoming.
pub open spec fn shown_rows(rows: Seq<DepartureRow>, now: Moment) -> Seq<DepartureRow> {
    let recent = recent_rows(rows, now);
    if has_live(recent) {
        live_or_upcoming_rows(recent, now)
    } else {
        recent
    }
}

/// Whether a row is not stale.
pub fn row_is_recent(row: &DepartureRow, now: Moment) -> (r: bool)
    ensures
        r == is_recent(*row, now),
{
    let s_diff: i64 = match row.scheduled() {
        Some(t) => minutes_between(t, now),
        None => 0,
    };
    let p_diff: i64 = match row.predicted() {
        Some(t) => minutes_between(t, now),
        None => s_diff,
    };
    s_diff > -STALE_MINUTES || p_diff > -STALE_MINUTES
}

/// Whether a row is live, or scheduled for after `now`.
pub fn row_is_live_or_upcoming(row: &DepartureRow, now: Moment) -> (r: bool)
    ensures
        r == is_live_or_upcoming(*row, now),
{
    if row.predicted().is_some() {
        true
    } else {
        match row.scheduled() {
            Some(t) => instant_nanos(t) > instant_nanos(now),
            None => false,
        }
    }
}

/// Drops the stale rows and, once a row is live, the rows that are neither
/// live nor upcoming. Keeps the order.
pub fn filter_rows(rows: Vec<DepartureRow>, now: Moment) -> (r: Vec<DepartureRow>)
    ensures
        r@ == shown_rows(rows@, now),
{
    let mut recent: Vec<DepartureRow> = Vec::new();
    let mut live = false;
    let mut i: usize = 0;
    while i < rows.len()
        invariant
            i <= rows@.len(),
            recent@ == recent_rows(rows@.take(i as int), now),
            live == has_live(recent@),
        decreases rows@.len() - i,
    {
        assert(rows@.take(i as int + 1).drop_last() =~= rows@.take(i as int));
        let row = rows[i];
        if row_is_recent(&row, now) {
            let ghost before = recent@;
            if row.predicted().is_some() {
                live = true;
            }
            recent.push(row);
            assert(has_live(recent@) == (has_live(before) || row.predicted_spec().is_some())) by {
                assert(recent@[before.len() as int] == row);
                if has_live(recent@) {
                    let j = choose|j: int| 0 <= j < recent@.len() && (#[trigger] recent@[j]).predicted_spec().is_some();
                    if j < before.len() {
                        assert(recent@[j] == before[j]);
                    }
                }
                if has_live(before) {
                    let j = choose|j: int| 0 <= j < before.len() && (#[trigger] before[j]).predicted_spec().is_some();
                    assert(recent@[j] == before[j]);
                }
            }
        }
        i = i + 1;
    }
    assert(rows@.take(i as int) =~= rows@);
    if !live {
        return recent;
    }
    let mut current: Vec<DepartureRow> = Vec::new();
    let mut j: usize = 0;
    while j < recent.len()
        invariant
            j <= recent@.len(),
            current@ == live_or_upcoming_rows(recent@.take(j as int), now),
        decreases recent@.len() - j,
    {
        assert(recent@.take(j as int + 1).drop_last() =~= recent@.take(j as int));
        let row = recent[j];
        if row_is_live_or_upcoming(&row, now) {
            current.push(row);
        }
        j = j + 1;
    }
    assert(recent@.take(j as int) =~= recent@);
    current
}

/// Nanoseconds in a day.
pub const DAY_NANOS: i128 = 86_400_000_000_000;

/// The time a row sorts by: the predicted time, else the scheduled time, else
/// a day after `now`.
pub open spec fn sort_key(row: DepartureRow, now: Moment) -> int {
    match row.predicted_spec() {
        Some(t) => instant(t),
        None => match row.scheduled_spec() {
            Some(t) => instant(t),
            None => instant(now) + DAY_NANOS,
        },
    }
}

/// The rows whose sort key is `k`, in order.
pub open spec fn rows_with_key(rows: Seq<DepartureRow>, now: Moment, k: int) -> Seq<DepartureRow>
    decreases rows.len(),
{
    if rows.len() == 0 {
        Seq::empty()
    } else {
        let rest = rows_with_key(rows.drop_last(), now, k);
        if sort_key(rows.last(), now) == k {
            rest.push(rows.last())
        } else {
            rest
        }
    }
}

/// Whether the rows are in ascending order of their sort keys.
pub open spec fn sorted_by_time(rows: Seq<DepartureRow>, now: Moment) -> bool {
    forall|i: int, j: int| 0 <= i < j < rows.len() ==> sort_key(rows[i], now) <= sort_key(rows[j], now)
}

/// The time a row sorts by.
pub fn row_sort_key(row: &DepartureRow, now: Moment) -> (r: i128)
    ensures
        r == sort_key(*row, now),
{
    match row.predicted() {
        Some(t) => instant_nanos(t),
        None => match row.scheduled() {
            Some(t) => instant_nanos(t),
            None => instant_nanos(now) + DAY_NANOS,
        },
    }
}

proof fn lemma_rows_with_key_add(a: Seq<DepartureRow>, b: Seq<DepartureRow>, now: Moment, k: int)
    ensures
        rows_with_key(a + b, now, k) == rows_with_key(a, now, k) + rows_with_key(b, now, k),
    decreases b.len(),
{
    if b.len() == 0 {
        assert(a + b =~= a);
        assert(rows_with_key(a, now, k) + rows_with_key(b, now, k) =~= rows_with_key(a, now, k));
    } else {
        assert((a + b).drop_last() =~= a + b.drop_last());
        assert((a + b).last() == b.last());
        lemma_rows_with_key_add(a, b.drop_last(), now, k);
        assert(rows_with_key(a + b, now, k) =~= rows_with_key(a, now, k) + rows_with_key(b, now, k));
    }
}

proof fn lemma_rows_with_other_keys(rows: Seq<DepartureRow>, now: Moment, k: int)
    requires
        forall|i: int| 0 <= i < rows.len() ==> sort_key(#[trigger] rows[i], now) != k,
    ensures
        rows_with_key(rows, now, k) == Seq::<DepartureRow>::empty(),
    decreases rows.len(),
{
    if rows.len() > 0 {
        lemma_rows_with_other_keys(rows.drop_last(), now, k);
        assert(sort_key(rows[rows.len() - 1], now) != k);
    }
}

/// Placing `x` after every row with a key up to its own and before the rest
/// keeps, for each key, the rows with that key in their order of arrival.
proof fn lemma_insert_keeps_key_order(
    head: Seq<DepartureRow>,
    x: DepartureRow,
    tail: Seq<DepartureRow>,
    arrived: Seq<DepartureRow>,
    now: Moment,
    k: int,
)
    requires
        forall|q: int| 0 <= q < tail.len() ==> sort_key(#[trigger] tail[q], now) > sort_key(x, now),
        rows_with_key(head + tail, now, k) == rows_with_key(arrived, now, k),
    ensures
        rows_with_key(head + seq![x] + tail, now, k) == rows_with_key(arrived + seq![x], now, k),
{
    lemma_rows_with_key_add(head + seq![x], tail, now, k);
    lemma_rows_with_key_add(head, seq![x], now, k);
    lemma_rows_with_key_add(head, tail, now, k);
    lemma_rows_with_key_add(arrived, seq![x], now, k);
    assert(seq![x].drop_last() =~= Seq::<DepartureRow>::empty());
    assert(seq![x].last() == x);
    assert(rows_with_key(Seq::<DepartureRow>::empty(), now, k) == Seq::<DepartureRow>::empty());
    if k == sort_key(x, now) {
        lemma_rows_with_other_keys(tail, now, k);
        assert(rows_with_key(tail, now, k) =~= Seq::<DepartureRow>::empty());
        assert(rows_with_key(head, now, k) + rows_with_key(seq![x], now, k) + rows_with_key(tail, now, k)
            =~= rows_with_key(head, now, k) + rows_with_key(tail, now, k) + rows_with_key(seq![x], now, k));
    } else {
        assert(rows_with_key(seq![x], now, k) =~= Seq::<DepartureRow>::empty());
        assert(rows_with_key(head, now, k) + rows_with_key(seq![x], now, k) + rows_with_key(tail, now, k)
            =~= rows_with_key(head, now, k) + rows_with_key(tail, now, k) + rows_with_key(seq![x], now, k));
    }
}

/// Sorts rows by their time, the predicted one where present, else the
/// scheduled one. Rows with equal times keep their order.
pub fn sort_rows(rows: Vec<DepartureRow>, now: Moment) -> (r: Vec<DepartureRow>)
    ensures
        r@.len() == rows@.len(),
        sorted_by_time(r@, now),
        forall|k: int| #[trigger] rows_with_key(r@, now, k) == rows_with_key(rows@, now, k),
{
    let mut out: Vec<DepartureRow> = Vec::new();
    let mut i: usize = 0;
    while i < rows.len()
        invariant
            i <= rows@.len(),
            out@.len() == i,
            sorted_by_time(out@, now),
            forall|k: int| #[trigger] rows_with_key(out@, now, k) == rows_with_key(rows@.take(i as int), now, k),
        decreases rows@.len() - i,
    {
        let x = rows[i];
        let kx = row_sort_key(&x, now);
        let mut p: usize = 0;
        while p < out.len() && row_sort_key(&out[p], now) <= kx
            invariant
                p <= out@.len(),
                forall|q: int| 0 <= q < p ==> sort_key(#[trigger] out@[q], now) <= kx,
            decreases out@.len() - p,
        {
            p = p + 1;
        }
        let ghost old_out = out@;
        let ghost head = old_out.take(p as int);
        let ghost tail = old_out.skip(p as int);
        assert(forall|q: int| 0 <= q < tail.len() ==> sort_key(#[trigger] tail[q], now) > kx) by {
            assert forall|q: int| 0 <= q < tail.len() implies sort_key(#[trigger] tail[q], now) > kx by {
                assert(tail[q] == old_out[p as int + q]);
                if q > 0 {
                    assert(sort_key(old_out[p as int], now) > kx);
                }
            }
        }
        out.insert(p, x);
        assert(old_out =~= head + tail);
        assert(out@ =~= head + seq![x] + tail);
        assert(rows@.take(i as int + 1) =~= rows@.take(i as int) + seq![x]);
        assert forall|k: int| #[trigger] rows_with_key(out@, now, k) == rows_with_key(rows@.take(i as int + 1), now, k) by {
            lemma_insert_keeps_key_order(head, x, tail, rows@.take(i as int), now, k);
        }
        assert(sorted_by_time(out@, now)) by {
            assert forall|a: int, b: int| 0 <= a < b < out@.len() implies sort_key(out@[a], now) <= sort_key(out@[b], now) by {
                if b < p {
                    assert(out@[a] == old_out[a] && out@[b] == old_out[b]);
                } else if b == p {
                    assert(out@[a] == old_out[a]);
                } else if a < p {
                    assert(out@[a] == old_out[a] && out@[b] == old_out[b - 1]);
                    assert(tail[b - 1 - p] == old_out[b - 1]);
                } else if a == p {
                    assert(out@[b] == old_out[b - 1]);
                    assert(tail[b - 1 - p] == old_out[b - 1]);
                } else {
                    assert(out@[a] == old_out[a - 1] && out@[b] == old_out[b - 1]);
                }
            }
        }
        i = i + 1;
    }
    assert(rows@.take(i as int) =~= rows@);
    out
}

} // verus!
