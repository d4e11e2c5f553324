use departure_board::display::{display_width, format_row, format_stop_data, format_stops, pad_to_width, StopRows};
use departure_board::grid::{render_grid, split_words, wrap_name};
use departure_board::lookup::IdTable;
use departure_board::merge::{compute_departure_rows, merge_rows};
use departure_board::proximity::{bounded_distance, route_position, stops_away, to_parent};
use departure_board::rank::{filter_rows, sort_rows};
use departure_board::records::{IncludedResource, PredictionRecord, ResourceKind, ScheduleRecord, StopConfig};
use departure_board::resolve::{add_resolved_parents, build_lookup_tables, unresolved_stop_ids};
use departure_board::row::DepartureRow;
use departure_board::time::{format_time_compact, format_time_compact_with_seconds, minutes_between, parse_time, Moment};

// 2024-01-01T08:00:00Z
const EIGHT: i64 = 1704096000;

fn at(utc: i64) -> Moment {
    Moment { utc, nanos: 0, offset: 0 }
}

fn now() -> Moment {
    at(EIGHT)
}

fn mins(m: i64) -> Moment {
    at(EIGHT + 60 * m)
}

fn sched(m: i64) -> DepartureRow {
    DepartureRow::new(Some(mins(m)), None, None).unwrap()
}

fn live(s: Option<i64>, p: i64, away: Option<i32>) -> DepartureRow {
    DepartureRow::new(s.map(mins), Some(mins(p)), away).unwrap()
}

fn s(x: &str) -> String {
    x.to_string()
}

fn stop(is_origin: bool) -> StopConfig {
    StopConfig { route_id: s("60"), stop_id: s("1519"), direction_id: 0, is_origin }
}

#[test]
fn row_without_times_is_not_constructed() {
    assert!(DepartureRow::new(None, None, Some(2)).is_none());
    assert!(DepartureRow::new(Some(now()), None, None).is_some());
    assert!(DepartureRow::new(None, Some(now()), None).is_some());
}

#[test]
fn filter_keeps_row_four_minutes_old() {
    let out = filter_rows(vec![sched(-4)], now());
    assert_eq!(out.len(), 1);
}

#[test]
fn filter_drops_row_six_minutes_old() {
    let out = filter_rows(vec![sched(-6)], now());
    assert_eq!(out.len(), 0);
}

#[test]
fn filter_drops_row_exactly_five_minutes_old() {
    let out = filter_rows(vec![sched(-5)], now());
    assert_eq!(out.len(), 0);
}

#[test]
fn filter_keeps_stale_schedule_with_recent_prediction() {
    let out = filter_rows(vec![live(Some(-10), -1, None)], now());
    assert_eq!(out.len(), 1);
}

#[test]
fn filter_drops_schedule_only_rows_once_live() {
    let rows = vec![live(Some(-2), 1, None), sched(3)];
    let out = filter_rows(rows, now());
    assert_eq!(out.len(), 2);
    let rows = vec![live(Some(-2), 1, None), sched(-3)];
    let out = filter_rows(rows, now());
    assert_eq!(out.len(), 1);
    assert_eq!(out[0].predicted(), Some(mins(1)));
}

#[test]
fn filter_keeps_past_schedule_without_live_data() {
    let out = filter_rows(vec![sched(-3), sched(3)], now());
    assert_eq!(out.len(), 2);
}

#[test]
fn sort_uses_prediction_then_schedule() {
    let rows = vec![live(None, 10, None), sched(2), live(None, 5, None)];
    let out = sort_rows(rows, now());
    assert_eq!(out.len(), 3);
    assert_eq!(out[0].scheduled(), Some(mins(2)));
    assert_eq!(out[0].predicted(), None);
    assert_eq!(out[1].predicted(), Some(mins(5)));
    assert_eq!(out[2].predicted(), Some(mins(10)));
}

#[test]
fn sort_keeps_order_of_equal_times() {
    let rows = vec![live(Some(9), 4, Some(1)), sched(1), live(Some(3), 4, Some(2))];
    let out = sort_rows(rows, now());
    assert_eq!(out[0].scheduled(), Some(mins(1)));
    assert_eq!(out[1].stops_away(), Some(1));
    assert_eq!(out[2].stops_away(), Some(2));
}

#[test]
fn proximity_bounds() {
    assert_eq!(bounded_distance(7, 7), None);
    assert_eq!(bounded_distance(0, 21), None);
    assert_eq!(bounded_distance(22, 1), None);
    assert_eq!(bounded_distance(3, 4), Some(1));
    assert_eq!(bounded_distance(20, 0), Some(20));
}

#[test]
fn proximity_goes_through_parent_stations() {
    let mut parents = IdTable::new();
    parents.insert(s("70001"), s("place-a"));
    parents.insert(s("70005"), s("place-c"));
    let route = vec![s("place-a"), s("place-b"), s("place-c")];
    assert_eq!(to_parent(&parents, &s("70001")), s("place-a"));
    assert_eq!(to_parent(&parents, &s("place-b")), s("place-b"));
    assert_eq!(route_position(&route, &s("place-c")), Some(2));
    assert_eq!(route_position(&route, &s("elsewhere")), None);
    assert_eq!(stops_away(&parents, &route, &s("70001"), &s("70005")), Some(2));
    assert_eq!(stops_away(&parents, &route, &s("70005"), &s("70001")), Some(2));
    assert_eq!(stops_away(&parents, &route, &s("70001"), &s("place-a")), None);
    assert_eq!(stops_away(&parents, &route, &s("unknown"), &s("70001")), None);
    assert_eq!(stops_away(&parents, &vec![], &s("70001"), &s("70005")), None);
}

#[test]
fn id_table_later_insert_wins() {
    let mut t = IdTable::new();
    assert_eq!(t.get(&s("a")), None);
    t.insert(s("a"), s("1"));
    t.insert(s("b"), s("2"));
    t.insert(s("a"), s("3"));
    assert_eq!(t.get(&s("a")), Some(s("3")));
    assert_eq!(t.get(&s("b")), Some(s("2")));
    assert!(t.contains_key(&s("b")));
    assert!(!t.contains_key(&s("c")));
}

#[test]
fn lookup_tables_from_included_resources() {
    let included = vec![
        IncludedResource { kind: ResourceKind::Vehicle, id: s("y1"), current_stop: Some(s("70001")), parent_station: None },
        IncludedResource { kind: ResourceKind::Vehicle, id: s("y2"), current_stop: None, parent_station: None },
        IncludedResource { kind: ResourceKind::Stop, id: s("70005"), current_stop: None, parent_station: Some(s("place-c")) },
        IncludedResource { kind: ResourceKind::Stop, id: s("1519"), current_stop: None, parent_station: None },
        IncludedResource { kind: ResourceKind::Other, id: s("r"), current_stop: Some(s("x")), parent_station: Some(s("y")) },
    ];
    let (vehicles, parents) = build_lookup_tables(&included);
    assert_eq!(vehicles.get(&s("y1")), Some(s("70001")));
    assert_eq!(vehicles.get(&s("y2")), None);
    assert_eq!(vehicles.len(), 1);
    assert_eq!(parents.get(&s("70005")), Some(s("place-c")));
    assert_eq!(parents.get(&s("1519")), Some(s("1519")));
    assert_eq!(parents.get(&s("r")), None);
}

fn prediction(trip: &str, arr: Option<&str>, dep: Option<&str>, vehicle: Option<&str>, at_stop: Option<&str>) -> PredictionRecord {
    PredictionRecord {
        arrival_time: arr.map(s),
        departure_time: dep.map(s),
        trip_id: s(trip),
        vehicle_id: vehicle.map(s),
        stop_id: at_stop.map(s),
    }
}

fn schedule(trip: &str, arr: Option<&str>, dep: Option<&str>) -> ScheduleRecord {
    ScheduleRecord { arrival_time: arr.map(s), departure_time: dep.map(s), trip_id: s(trip) }
}

#[test]
fn unresolved_ids_are_deduplicated() {
    let mut vehicles = IdTable::new();
    vehicles.insert(s("y1"), s("70001"));
    vehicles.insert(s("y2"), s("70003"));
    let mut parents = IdTable::new();
    parents.insert(s("70003"), s("place-b"));
    let preds = vec![
        prediction("t1", None, None, Some("y1"), Some("70001")),
        prediction("t2", None, None, Some("y2"), Some("70009")),
        prediction("t3", None, None, None, Some("70009")),
        prediction("t4", None, None, None, None),
    ];
    let mut ids = unresolved_stop_ids(&vehicles, &preds, &parents);
    ids.sort();
    assert_eq!(ids, vec![s("70001"), s("70009")]);
    add_resolved_parents(&mut parents, &vec![(s("70001"), Some(s("place-a"))), (s("70009"), None)]);
    assert_eq!(parents.get(&s("70001")), Some(s("place-a")));
    assert_eq!(parents.get(&s("70009")), Some(s("70009")));
    assert!(unresolved_stop_ids(&vehicles, &preds, &parents).is_empty());
}

#[test]
fn merge_joins_by_trip() {
    let mut vehicles = IdTable::new();
    vehicles.insert(s("y1"), s("70001"));
    let mut parents = IdTable::new();
    parents.insert(s("70001"), s("place-a"));
    parents.insert(s("70005"), s("place-c"));
    let route = vec![s("place-a"), s("place-b"), s("place-c")];
    let schedules = vec![
        schedule("t1", Some("2024-01-01T08:00:00Z"), Some("2024-01-01T08:01:00Z")),
        schedule("t2", None, Some("2024-01-01T08:10:00Z")),
        schedule("t3", None, None),
        schedule("t4", Some("garbage"), None),
    ];
    let preds = vec![
        prediction("t1", Some("2024-01-01T08:03:00Z"), None, Some("y1"), Some("70005")),
        prediction("t9", Some("2024-01-01T08:04:00Z"), None, None, None),
    ];
    let rows = merge_rows(&stop(false), &schedules, &preds, &vehicles, &parents, &route);
    assert_eq!(rows.len(), 2);
    assert_eq!(rows[0].scheduled().map(|m| m.utc), Some(EIGHT));
    assert_eq!(rows[0].predicted().map(|m| m.utc), Some(EIGHT + 180));
    assert_eq!(rows[0].stops_away(), Some(2));
    assert_eq!(rows[1].scheduled().map(|m| m.utc), Some(EIGHT + 600));
    assert_eq!(rows[1].predicted(), None);
    assert_eq!(rows[1].stops_away(), None);
}

#[test]
fn merge_at_origin_uses_departures() {
    let vehicles = IdTable::new();
    let parents = IdTable::new();
    let schedules = vec![
        schedule("t1", Some("2024-01-01T08:00:00Z"), Some("2024-01-01T08:01:00Z")),
        schedule("t2", Some("2024-01-01T08:05:00Z"), None),
    ];
    let preds = vec![
        prediction("t1", Some("2024-01-01T08:02:00Z"), Some("2024-01-01T08:03:00Z"), None, None),
        prediction("t1", Some("2024-01-01T08:06:00Z"), Some("2024-01-01T08:07:00Z"), None, None),
    ];
    let rows = merge_rows(&stop(true), &schedules, &preds, &vehicles, &parents, &vec![]);
    assert_eq!(rows.len(), 1);
    assert_eq!(rows[0].scheduled().map(|m| m.utc), Some(EIGHT + 60));
    assert_eq!(rows[0].predicted().map(|m| m.utc), Some(EIGHT + 420));
}

#[test]
fn parse_time_reads_rfc3339() {
    let m = parse_time(Some(s("2024-01-01T08:00:00+02:00"))).unwrap();
    assert_eq!(m.utc, EIGHT - 7200);
    assert!(m.offset > -86400 && m.offset < 86400);
    assert_eq!(parse_time(Some(s("08:00"))), None);
    assert_eq!(parse_time(None), None);
}

#[test]
fn minutes_round_toward_zero() {
    assert_eq!(minutes_between(at(EIGHT + 119), now()), 1);
    assert_eq!(minutes_between(at(EIGHT - 119), now()), -1);
    assert_eq!(minutes_between(at(EIGHT - 59), now()), 0);
    assert_eq!(minutes_between(at(i64::MIN), at(i64::MAX)), -307445734561825860);
}

#[test]
fn time_formats() {
    assert_eq!(format_time_compact(at(EIGHT + 30), now()), "08:00");
    assert_eq!(format_time_compact(mins(5), now()), "08:05 (in 5m)");
    assert_eq!(format_time_compact(mins(-12), now()), "07:48 (12m ago)");
    assert_eq!(format_time_compact_with_seconds(at(EIGHT + 125), now(), true), "08:02:05 (in 2m)");
    let shifted = Moment { utc: EIGHT, nanos: 0, offset: -5 * 3600 };
    assert_eq!(format_time_compact(shifted, now()), "03:00");
    let before_epoch = Moment { utc: -1, nanos: 0, offset: 0 };
    assert_eq!(format_time_compact_with_seconds(before_epoch, before_epoch, true), "23:59:59");
}

#[test]
fn row_formats() {
    assert_eq!(format_row(&sched(5), now(), false), "📅 08:05 (in 5m)");
    assert_eq!(format_row(&live(Some(1), 3, Some(1)), now(), false), "🟢 08:03 (in 3m) (1 stop)");
    assert_eq!(format_row(&live(None, 3, Some(4)), now(), true), "🟢 08:03:00 (in 3m) (4 stops)");
    assert_eq!(format_row(&live(None, 0, Some(0)), now(), false), "🟢 08:00");
}

#[test]
fn stop_data_takes_three_rows() {
    let rows = vec![sched(1), live(None, 2, None), live(None, 3, None), sched(4)];
    let d = format_stop_data("Kenmore", &rows, now(), true);
    assert_eq!(d.name, "Kenmore");
    assert_eq!(d.times, vec![s("📅 08:01 (in 1m)"), s("🟢 08:02:00 (in 2m)"), s("🟢 08:03 (in 3m)")]);
    let empty = format_stop_data("Kenmore", &vec![], now(), true);
    assert_eq!(empty.times, vec![s("No upcoming trips")]);
}

#[test]
fn seconds_only_on_first_live_row_of_board() {
    let stops = vec![
        StopRows { name: s("A"), rows: vec![sched(1), sched(2), sched(3), live(None, 4, None)] },
        StopRows { name: s("B"), rows: vec![sched(1), live(None, 2, None), live(None, 3, None)] },
        StopRows { name: s("C"), rows: vec![live(None, 1, None)] },
    ];
    let out = format_stops(&stops, now());
    let with_seconds: Vec<&String> = out.iter().flat_map(|d| d.times.iter()).filter(|t| t.matches(':').count() == 2).collect();
    assert_eq!(with_seconds, vec![&s("🟢 08:02:00 (in 2m)")]);
    assert_eq!(out[2].times, vec![s("🟢 08:01 (in 1m)")]);
}

#[test]
fn glyph_counts_two_columns() {
    assert_eq!(display_width("🟢 abcdefghi"), 12);
    assert_eq!(display_width("📅"), 2);
    assert_eq!(display_width(""), 0);
    assert_eq!(pad_to_width("🟢ab", 6), "🟢ab  ");
    assert_eq!(pad_to_width("abcdef", 3), "abcdef");
}

#[test]
fn names_wrap_at_column_width() {
    assert_eq!(split_words("  Pearl St \t@ Brookline  "), vec![s("Pearl"), s("St"), s("@"), s("Brookline")]);
    assert_eq!(
        wrap_name("Pearl St @ Brookline Village (outbound)"),
        vec![s("Pearl St @ Brookline Village"), s("(outbound)")]
    );
    assert_eq!(wrap_name("Kenmore (outbound)"), vec![s("Kenmore (outbound)")]);
    assert!(wrap_name("   ").is_empty());
}

#[test]
fn grid_lays_out_columns() {
    let a = format_stop_data("Kenmore (outbound)", &vec![sched(5)], now(), true);
    let b = format_stop_data("Pearl St @ Brookline Village (outbound)", &vec![], now(), true);
    let lines = render_grid("Route 60:", &vec![a, b]);
    let pad = |t: &str, w: usize| format!("{}{}", t, " ".repeat(w));
    assert_eq!(lines.len(), 5);
    assert_eq!(lines[0], "Route 60:");
    assert_eq!(lines[1], format!("{}  {}  ", pad("Kenmore (outbound)", 14), pad("Pearl St @ Brookline Village", 4)));
    assert_eq!(lines[2], format!("{}  {}  ", " ".repeat(32), pad("(outbound)", 22)));
    assert_eq!(lines[3], format!("{}  {}  ", pad("📅 08:05 (in 5m)", 16), pad("No upcoming trips", 15)));
    assert_eq!(lines[4], "");
    let none = render_grid("Empty:", &vec![]);
    assert_eq!(none, vec![s("Empty:"), s(""), s("")]);
}

#[test]
fn end_to_end_single_scheduled_trip() {
    let schedules = vec![schedule("t1", Some("2024-01-01T08:00:00Z"), None)];
    let rows = merge_rows(&stop(false), &schedules, &vec![], &IdTable::new(), &IdTable::new(), &vec![]);
    let local = rows[0].scheduled().unwrap();
    let now = Moment { utc: EIGHT - 300, nanos: 0, offset: local.offset };
    let rows = filter_rows(sort_rows(rows, now), now);
    assert_eq!(rows.len(), 1);
    let d = format_stop_data("Stop", &rows, now, true);
    let secs = (EIGHT + local.offset as i64).rem_euclid(86400);
    let expected = format!("📅 {:02}:{:02} (in 5m)", secs / 3600, (secs % 3600) / 60);
    assert_eq!(d.times, vec![expected]);
}

#[test]
fn name_of_one_full_width_word_takes_one_line() {
    let word = "a".repeat(32);
    assert_eq!(wrap_name(&word), vec![word.clone()]);
    assert_eq!(wrap_name(&format!("{} b", word)), vec![word.clone(), s("b")]);
    assert_eq!(wrap_name(&format!("b {}", "c".repeat(40))), vec![s("b"), "c".repeat(40)]);
    assert_eq!(wrap_name(&format!("{} {}", "a".repeat(15), "b".repeat(16))), vec![format!("{} {}", "a".repeat(15), "b".repeat(16))]);
    let d = departure_board::display::StopDisplay { name: word.clone(), times: vec![] };
    let lines = render_grid("T", &vec![d]);
    assert_eq!(lines, vec![s("T"), format!("{}  ", word), s("")]);
}

#[test]
fn minutes_count_nanoseconds() {
    let now = Moment { utc: EIGHT, nanos: 500_000_000, offset: 0 };
    assert_eq!(minutes_between(at(EIGHT + 60), now), 0);
    assert_eq!(minutes_between(at(EIGHT + 61), now), 1);
    assert_eq!(format_time_compact(at(EIGHT + 60), now), "08:01");
    assert_eq!(format_time_compact(at(EIGHT + 300), now), "08:05 (in 4m)");
    let m = parse_time(Some(s("2024-01-01T08:00:00.25Z"))).unwrap();
    assert_eq!(m.utc, EIGHT);
    assert_eq!(m.nanos, 250_000_000);
}

#[test]
fn departure_rows_are_filtered_and_sorted() {
    let schedules = vec![
        schedule("t1", Some("2024-01-01T08:09:00Z"), None),
        schedule("t2", Some("2024-01-01T07:50:00Z"), None),
        schedule("t3", Some("2024-01-01T08:02:00Z"), None),
    ];
    let preds = vec![prediction("t1", Some("2024-01-01T08:04:00Z"), None, None, None)];
    let rows = compute_departure_rows(&stop(false), &schedules, &preds, &IdTable::new(), &IdTable::new(), &vec![], now());
    assert_eq!(rows.len(), 2);
    assert_eq!(rows[0].scheduled().map(|m| m.utc), Some(EIGHT + 120));
    assert_eq!(rows[1].predicted().map(|m| m.utc), Some(EIGHT + 240));
}
