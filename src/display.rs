use vstd::prelude::*;
use crate::row::DepartureRow;
use crate::text::{decimal, push_char, push_decimal};
use crate::time::{format_time_compact, format_time_compact_with_seconds, relative_time_text, Moment};

verus! {

/// At most this many rows are shown for a stop.
pub const ROWS_PER_STOP: usize = 3;

/// How many columns a character takes in a terminal: the live and scheduled
/// glyphs take two, every other character one.
pub open spec fn char_width(c: char) -> int {
    if c == '🟢' || c == '📅' {
        2
    } else {
        1
    }
}

/// How many columns a text takes in a terminal.
pub open spec fn text_width(s: Seq<char>) -> int
    decreases s.len(),
{
    if s.len() == 0 {
        0
    } else {
        text_width(s.drop_last()) + char_width(s.last())
    }
}

/// `n` spaces.
pub open spec fn spaces(n: int) -> Seq<char> {
    Seq::new(n as nat, |i: int| ' ')
}

/// A text padded with spaces on the right to `target` columns; a text at
/// least that wide stays as it is.
pub open spec fn padded(s: Seq<char>, target: int) -> Seq<char> {
    if text_width(s) >= target {
        s
    } else {
        s + spaces(target - text_width(s))
    }
}

/// A text takes at least one and at most two columns per character.
pub proof fn lemma_text_width_bounds(s: Seq<char>)
    ensures
        s.len() <= text_width(s) <= 2 * s.len(),
    decreases s.len(),
{
    if s.len() > 0 {
        lemma_text_width_bounds(s.drop_last());
    }
}

/// The width of two texts put together is the sum of their widths.
pub proof fn lemma_text_width_add(a: Seq<char>, b: Seq<char>)
    ensures
        text_width(a + b) == text_width(a) + text_width(b),
    decreases b.len(),
{
    if b.len() == 0 {
        assert(a + b =~= a);
    } else {
        assert((a + b).drop_last() =~= a + b.drop_last());
        lemma_text_width_add(a, b.drop_last());
    }
}

/// How many columns `s` takes in a terminal.
pub fn display_width(s: &str) -> (r: usize)
    requires
        s@.len() <= isize::MAX,
    ensures
        r == text_width(s@),
{
    let n = s.unicode_len();
    let mut w: usize = 0;
    let mut i: usize = 0;
    while i < n
        invariant
            n == s@.len(),
            n <= isize::MAX,
            i <= n,
            w == text_width(s@.take(i as int)),
            w <= 2 * i,
        decreases n - i,
    {
        assert(s@.take(i as int + 1).drop_last() =~= s@.take(i as int));
        let c = s.get_char(i);
        if c == '🟢' || c == '📅' {
            w = w + 2;
        } else {
            w = w + 1;
        }
        i = i + 1;
    }
    assert(s@.take(i as int) =~= s@);
    w
}

/// `s` padded with spaces on the right to `target_width` columns.
pub fn pad_to_width(s: &str, target_width: usize) -> (r: String)
    requires
        s@.len() <= isize::MAX,
    ensures
        r@ == padded(s@, target_width as int),
{
    let current_width = display_width(s);
    let mut r = String::from_str(s);
    if current_width < target_width {
        let mut k: usize = 0;
        while k < target_width - current_width
            invariant
                current_width < target_width,
                k <= target_width - current_width,
                r@ == s@ + spaces(k as int),
            decreases target_width - current_width - k,
        {
            push_char(&mut r, ' ');
            k = k + 1;
            assert(r@ =~= s@ + spaces(k as int));
        }
    }
    r
}

/// The text shown for one row: a live row with its predicted time (to the
/// second when asked for) and how many stops away its vehicle is, else a
/// scheduled row with its scheduled time.
pub open spec fn row_text(row: DepartureRow, now: Moment, with_seconds: bool) -> Seq<char> {
    match row.predicted_spec() {
        Some(p) => {
            let base = "🟢 "@ + relative_time_text(p, now, with_seconds);
            match row.stops_away_spec() {
                Some(n) => if n > 0 {
                    base + " ("@ + decimal(n as nat) + if n == 1 {
                        " stop)"@
                    } else {
                        " stops)"@
                    }
                } else {
                    base
                },
                None => base,
            }
        },
        None => "📅 "@ + relative_time_text(row.scheduled_spec().unwrap(), now, false),
    }
}

/// The text shown for one row.
pub fn format_row(row: &DepartureRow, now: Moment, with_seconds: bool) -> (r: String)
    ensures
        r@ == row_text(*row, now, with_seconds),
{
    match row.predicted() {
        Some(p) => {
            let mut s = String::from_str("🟢 ");
            let t = format_time_compact_with_seconds(p, now, with_seconds);
            s.append(t.as_str());
            match row.stops_away() {
                Some(n) => {
                    if n > 0 {
                        s.append(" (");
                        push_decimal(&mut s, n as u64);
                        if n == 1 {
                            s.append(" stop)");
                        } else {
                            s.append(" stops)");
                        }
                    }
                },
                None => {},
            }
            s
        },
        None => {
            let sched = row.scheduled();
            match sched {
                Some(t) => {
                    let mut s = String::from_str("📅 ");
                    let text = format_time_compact(t, now);
                    s.append(text.as_str());
                    s
                },
                None => String::new(),
            }
        },
    }
}

/// The texts held by a list of strings.
pub open spec fn texts(v: Seq<String>) -> Seq<Seq<char>> {
    v.map_values(|s: String| s@)
}

/// The position of the first row with a predicted time.
pub open spec fn first_live(rows: Seq<DepartureRow>) -> Option<int>
    decreases rows.len(),
{
    if rows.len() == 0 {
        None
    } else {
        match first_live(rows.drop_last()) {
            Some(i) => Some(i),
            None => if rows.last().predicted_spec().is_some() {
                Some(rows.len() - 1)
            } else {
                None
            },
        }
    }
}

/// Whether one of the rows shown for a stop is live.
pub open spec fn shows_live(rows: Seq<DepartureRow>) -> bool {
    first_live(rows).is_some() && first_live(rows).unwrap() < ROWS_PER_STOP
}

/// How many rows are shown for a stop.
pub open spec fn shown_count(rows: Seq<DepartureRow>) -> int {
    if rows.len() < ROWS_PER_STOP {
        rows.len() as int
    } else {
        ROWS_PER_STOP as int
    }
}

/// The texts shown for a stop: its first rows, the first live one to the
/// second where `seconds_allowed`; a single notice where it has no rows.
pub open spec fn stop_texts(rows: Seq<DepartureRow>, now: Moment, seconds_allowed: bool) -> Seq<Seq<char>> {
    if rows.len() == 0 {
        seq!["No upcoming trips"@]
    } else {
        Seq::new(
            shown_count(rows) as nat,
            |k: int| row_text(rows[k], now, seconds_allowed && first_live(rows) == Some(k)),
        )
    }
}

/// A stop as shown on the board: its name and the texts of its rows.
pub struct StopDisplay {
    pub name: String,
    pub times: Vec<String>,
}

/// A stop's name with its ranked rows.
pub struct StopRows {
    pub name: String,
    pub rows: Vec<DepartureRow>,
}

/// The position of the first row with a predicted time.
pub fn first_live_index(rows: &Vec<DepartureRow>) -> (r: Option<usize>)
    ensures
        r.is_some() == first_live(rows@).is_some(),
        r.is_some() ==> r.unwrap() as int == first_live(rows@).unwrap(),
{
    let mut i: usize = 0;
    assert(rows@.take(0) =~= Seq::<DepartureRow>::empty());
    while i < rows.len()
        invariant
            i <= rows@.len(),
            first_live(rows@.take(i as int)).is_none(),
        decreases rows@.len() - i,
    {
        assert(rows@.take(i as int + 1).drop_last() =~= rows@.take(i as int));
        if rows[i].predicted().is_some() {
            proof {
                lemma_first_live_extends(rows@, i as int + 1);
            }
            return Some(i);
        }
        i = i + 1;
    }
    assert(rows@.take(i as int) =~= rows@);
    None
}

proof fn lemma_first_live_extends(rows: Seq<DepartureRow>, n: int)
    requires
        0 <= n <= rows.len(),
        first_live(rows.take(n)).is_some(),
    ensures
        first_live(rows) == first_live(rows.take(n)),
    decreases rows.len() - n,
{
    if n < rows.len() {
        assert(rows.take(n + 1).drop_last() =~= rows.take(n));
        lemma_first_live_extends(rows, n + 1);
    } else {
        assert(rows.take(n) =~= rows);
    }
}

/// The texts shown for one stop: at most its first three rows; the first live
/// row among them to the second where `seconds_allowed`.
pub fn format_stop_data(stop_name: &str, rows: &Vec<DepartureRow>, now: Moment, seconds_allowed: bool) -> (r: StopDisplay)
    ensures
        r.name@ == stop_name@,
        texts(r.times@) == stop_texts(rows@, now, seconds_allowed),
{
    let mut times: Vec<String> = Vec::new();
    if rows.len() == 0 {
        times.push(String::from_str("No upcoming trips"));
        assert(texts(times@) =~= stop_texts(rows@, now, seconds_allowed));
        return StopDisplay { name: String::from_str(stop_name), times };
    }
    let first = first_live_index(rows);
    let mut idx: usize = 0;
    while idx < rows.len() && idx < ROWS_PER_STOP
        invariant
            idx <= rows@.len(),
            idx <= ROWS_PER_STOP,
            times@.len() == idx,
            first.is_some() == first_live(rows@).is_some(),
            first.is_some() ==> first.unwrap() as int == first_live(rows@).unwrap(),
            forall|k: int|
                0 <= k < idx ==> (#[trigger] times@[k])@ == row_text(
                    rows@[k],
                    now,
                    seconds_allowed && first_live(rows@) == Some(k),
                ),
        decreases rows@.len() - idx,
    {
        let with_seconds = seconds_allowed && match first {
            Some(f) => f == idx,
            None => false,
        };
        times.push(format_row(&rows[idx], now, with_seconds));
        idx = idx + 1;
    }
    assert(texts(times@) =~= stop_texts(rows@, now, seconds_allowed));
    StopDisplay { name: String::from_str(stop_name), times }
}

/// Whether a stop before position `j` shows a live row.
pub open spec fn live_shown_before(stops: Seq<StopRows>, j: int) -> bool {
    exists|i: int| 0 <= i < j && shows_live(#[trigger] stops[i].rows@)
}

/// Whether row `k` of stop `j` is shown to the second: it is the first live
/// row shown on the whole board, stops taken in order.
pub open spec fn seconds_at(stops: Seq<StopRows>, j: int, k: int) -> bool {
    &&& 0 <= j < stops.len()
    &&& !live_shown_before(stops, j)
    &&& first_live(stops[j].rows@) == Some(k)
    &&& k < ROWS_PER_STOP
}

/// The texts for every stop of the board, in order. Only the first live row
/// shown on the whole board gets its time to the second.
pub fn format_stops(stops: &Vec<StopRows>, now: Moment) -> (r: Vec<StopDisplay>)
    ensures
        r@.len() == stops@.len(),
        forall|j: int|
            0 <= j < r@.len() ==> (#[trigger] r@[j]).name@ == stops@[j].name@ && texts(r@[j].times@)
                == stop_texts(stops@[j].rows@, now, !live_shown_before(stops@, j)),
{
    let mut out: Vec<StopDisplay> = Vec::new();
    let mut allowed = true;
    let mut j: usize = 0;
    while j < stops.len()
        invariant
            j <= stops@.len(),
            out@.len() == j,
            allowed == !live_shown_before(stops@, j as int),
            forall|i: int|
                0 <= i < j ==> (#[trigger] out@[i]).name@ == stops@[i].name@ && texts(out@[i].times@)
                    == stop_texts(stops@[i].rows@, now, !live_shown_before(stops@, i)),
        decreases stops@.len() - j,
    {
        let stop = &stops[j];
        let shown = format_stop_data(stop.name.as_str(), &stop.rows, now, allowed);
        out.push(shown);
        let first = first_live_index(&stop.rows);
        let live_here = match first {
            Some(f) => f < ROWS_PER_STOP,
            None => false,
        };
        proof {
            assert(live_here == shows_live(stops@[j as int].rows@));
            if live_shown_before(stops@, j as int + 1) && !live_shown_before(stops@, j as int) {
                let i = choose|i: int| 0 <= i < j + 1 && shows_live(#[trigger] stops@[i].rows@);
                assert(i == j);
            }
            if live_shown_before(stops@, j as int) {
                let i = choose|i: int| 0 <= i < j && shows_live(#[trigger] stops@[i].rows@);
                assert(0 <= i < j + 1);
            }
        }
        if live_here {
            allowed = false;
        }
        j = j + 1;
    }
    out
}

/// At most one row of the whole board is shown to the second.
pub proof fn lemma_seconds_at_most_once(stops: Seq<StopRows>, j1: int, k1: int, j2: int, k2: int)
    requires
        seconds_at(stops, j1, k1),
        seconds_at(stops, j2, k2),
    ensures
        j1 == j2 && k1 == k2,
{
    if j1 < j2 {
        assert(shows_live(stops[j1].rows@));
    } else if j2 < j1 {
        assert(shows_live(stops[j2].rows@));
    }
}

/// Where some stop shows a live row, one row is shown to the second: the
/// first live row of the first such stop.
pub proof fn lemma_seconds_at_least_once(stops: Seq<StopRows>, j: int)
    requires
        0 <= j < stops.len(),
        shows_live(stops[j].rows@),
    ensures
        exists|j1: int, k1: int| #[trigger] seconds_at(stops, j1, k1),
    decreases j,
{
    if live_shown_before(stops, j) {
        let i = choose|i: int| 0 <= i < j && shows_live(#[trigger] stops[i].rows@);
        lemma_seconds_at_least_once(stops, i);
    } else {
        assert(seconds_at(stops, j, first_live(stops[j].rows@).unwrap()));
    }
}

} // verus!
