use vstd::prelude::*;
use vstd::arithmetic::div_mod::lemma_mod_multiples_vanish;
use crate::text::{decimal, push_char, push_decimal, push_two_digits, two_digits};

verus! {

/// An instant, as whole seconds since the Unix epoch and the nanoseconds past
/// that second, together with the offset in seconds of the local zone at that
/// instant (local time = `utc + offset`).
#[derive(Clone, Copy, Debug, PartialEq, Eq, Structural)]
pub struct Moment {
    pub utc: i64,
    pub nanos: u32,
    pub offset: i32,
}

/// Nanoseconds in a minute.
pub const MINUTE_NANOS: i128 = 60_000_000_000;

/// The instant that an RFC 3339 text denotes, as whole seconds since the
/// epoch and the nanoseconds past that second; `None` where the text is no
/// RFC 3339 timestamp.
pub uninterp spec fn rfc3339_instant(s: Seq<char>) -> Option<(int, int)>;

/// The instant of a moment in nanoseconds since the epoch.
pub open spec fn instant(m: Moment) -> int {
    m.utc * 1_000_000_000 + m.nanos
}

/// `d` nanoseconds as whole minutes, rounded toward zero.
pub open spec fn whole_minutes(d: int) -> int {
    if d >= 0 {
        d / (MINUTE_NANOS as int)
    } else {
        -((-d) / (MINUTE_NANOS as int))
    }
}

/// Whole minutes from `now` to `t` (negative when `t` lies in the past).
pub open spec fn minutes_from(t: Moment, now: Moment) -> int {
    whole_minutes(instant(t) - instant(now))
}

/// Seconds since local midnight.
pub open spec fn local_day_secs(m: Moment) -> int {
    (m.utc + m.offset) % 86400
}

/// The local wall-clock time `HH:MM`, or `HH:MM:SS` with seconds.
pub open spec fn clock_text(m: Moment, with_seconds: bool) -> Seq<char> {
    let s = local_day_secs(m);
    let hm = two_digits(s / 3600) + seq![':'] + two_digits((s % 3600) / 60);
    if with_seconds {
        hm + seq![':'] + two_digits(s % 60)
    } else {
        hm
    }
}

/// The time of `t` followed by how far it lies from `now`: nothing within a
/// minute, else ` (Nm ago)` or ` (in Nm)`.
pub open spec fn relative_time_text(t: Moment, now: Moment, with_seconds: bool) -> Seq<char> {
    let diff = minutes_from(t, now);
    if -1 < diff < 1 {
        clock_text(t, with_seconds)
    } else if diff < 0 {
        clock_text(t, with_seconds) + " ("@ + decimal((-diff) as nat) + "m ago)"@
    } else {
        clock_text(t, with_seconds) + " (in "@ + decimal(diff as nat) + "m)"@
    }
}

/// Relies on chrono's `DateTime::parse_from_rfc3339`, for the instant that the
/// text denotes, and on `with_timezone(&Local)`, for the local offset then,
/// which lies strictly within one day.
#[verifier::external_body]
fn parse_rfc3339_local(s: &str) -> (r: Option<(i64, u32, i32)>)
    ensures
        r.is_some() == rfc3339_instant(s@).is_some(),
        r.is_some() ==> r.unwrap().0 == rfc3339_instant(s@).unwrap().0,
        r.is_some() ==> r.unwrap().1 == rfc3339_instant(s@).unwrap().1,
        r.is_some() ==> -86400 < r.unwrap().2 < 86400,
{
    match chrono::DateTime::parse_from_rfc3339(s) {
        Ok(d) => {
            let local = d.with_timezone(&chrono::Local);
            Some((local.timestamp(), local.timestamp_subsec_nanos(), local.offset().local_minus_utc()))
        },
        Err(_) => None,
    }
}

/// Reads an optional RFC 3339 timestamp as a local instant. A missing or
/// unreadable text gives `None`.
pub fn parse_time(time_str: Option<String>) -> (r: Option<Moment>)
    ensures
        r.is_some() <==> (time_str.is_some() && rfc3339_instant(time_str.unwrap()@).is_some()),
        r.is_some() ==> r.unwrap().utc == rfc3339_instant(time_str.unwrap()@).unwrap().0,
        r.is_some() ==> r.unwrap().nanos == rfc3339_instant(time_str.unwrap()@).unwrap().1,
        r.is_some() ==> -86400 < r.unwrap().offset < 86400,
{
    match time_str {
        Some(s) => match parse_rfc3339_local(s.as_str()) {
            Some(p) => Some(Moment { utc: p.0, nanos: p.1, offset: p.2 }),
            None => None,
        },
        None => None,
    }
}

/// The instant of a moment in nanoseconds since the epoch.
pub fn instant_nanos(m: Moment) -> (r: i128)
    ensures
        r == instant(m),
{
    m.utc as i128 * 1_000_000_000 + m.nanos as i128
}

/// Whole minutes from `now` to `t`, rounded toward zero.
pub fn minutes_between(t: Moment, now: Moment) -> (r: i64)
    ensures
        r == minutes_from(t, now),
{
    let d: i128 = instant_nanos(t) - instant_nanos(now);
    if d >= 0 {
        (d / MINUTE_NANOS) as i64
    } else {
        let m: i128 = (-d) / MINUTE_NANOS;
        -(m as i64)
    }
}

/// Seconds since local midnight.
pub fn day_secs(m: Moment) -> (r: u64)
    ensures
        r == local_day_secs(m),
        r < 86400,
{
    let k: i128 = 140737488355328;
    let x: i128 = m.utc as i128 + m.offset as i128 + 86400 * k;
    proof {
        lemma_mod_multiples_vanish(k as int, m.utc + m.offset, 86400);
    }
    (x % 86400) as u64
}

/// Appends the local wall-clock time of `m`.
pub fn push_clock(s: &mut String, m: Moment, with_seconds: bool)
    ensures
        final(s)@ == old(s)@ + clock_text(m, with_seconds),
{
    let secs = day_secs(m);
    push_two_digits(s, secs / 3600);
    push_char(s, ':');
    push_two_digits(s, (secs % 3600) / 60);
    if with_seconds {
        push_char(s, ':');
        push_two_digits(s, secs % 60);
    }
    proof {
        assert(final(s)@ =~= old(s)@ + clock_text(m, with_seconds));
    }
}

/// The time of `dt` with seconds when asked for, followed by how far it lies
/// from `now`.
pub fn format_time_compact_with_seconds(dt: Moment, now: Moment, include_seconds: bool) -> (r: String)
    ensures
        r@ == relative_time_text(dt, now, include_seconds),
{
    let mut s = String::new();
    push_clock(&mut s, dt, include_seconds);
    let diff = minutes_between(dt, now);
    if -1 < diff && diff < 1 {
    } else if diff < 0 {
        s.append(" (");
        push_decimal(&mut s, (-diff) as u64);
        s.append("m ago)");
    } else {
        s.append(" (in ");
        push_decimal(&mut s, diff as u64);
        s.append("m)");
    }
    s
}

/// The time of `dt` to the minute, followed by how far it lies from `now`.
pub fn format_time_compact(dt: Moment, now: Moment) -> (r: String)
    ensures
        r@ == relative_time_text(dt, now, false),
{
    format_time_compact_with_seconds(dt, now, false)
}

} // verus!
