use vstd::prelude::*;

verus! {

/// A stop that the board monitors.
pub struct StopConfig {
    pub route_id: String,
    pub stop_id: String,
    pub direction_id: i32,
    /// Trips start here: departure times count rather than arrival times.
    pub is_origin: bool,
}

/// One scheduled stop event of a trip.
pub struct ScheduleRecord {
    pub arrival_time: Option<String>,
    pub departure_time: Option<String>,
    pub trip_id: String,
}

/// One live stop event of a trip.
pub struct PredictionRecord {
    pub arrival_time: Option<String>,
    pub departure_time: Option<String>,
    pub trip_id: String,
    /// The vehicle that serves the trip.
    pub vehicle_id: Option<String>,
    /// The stop (platform) that the prediction is for.
    pub stop_id: Option<String>,
}

/// The kind of a resource sent along with the predictions.
#[derive(Clone, Copy, Debug, PartialEq, Eq, Structural)]
pub enum ResourceKind {
    Vehicle,
    Stop,
    Other,
}

/// A resource sent along with the predictions: a vehicle with the stop it is
/// at, or a stop with its parent station.
pub struct IncludedResource {
    pub kind: ResourceKind,
    pub id: String,
    /// For a vehicle: the stop it is currently at.
    pub current_stop: Option<String>,
    /// For a stop: its parent station.
    pub parent_station: Option<String>,
}

/// The time that counts at a stop: the departure at an origin, else the
/// arrival, falling back to the departure.
pub open spec fn chosen_time(arrival: Option<String>, departure: Option<String>, is_origin: bool) -> Option<Seq<char>> {
    if !is_origin && arrival.is_some() {
        Some(arrival.unwrap()@)
    } else {
        match departure {
            Some(d) => Some(d@),
            None => None,
        }
    }
}

/// The time that counts at a stop: the departure at an origin, else the
/// arrival, falling back to the departure.
pub fn choose_time(arrival: &Option<String>, departure: &Option<String>, is_origin: bool) -> (r: Option<String>)
    ensures
        r.is_some() == chosen_time(*arrival, *departure, is_origin).is_some(),
        r.is_some() ==> r.unwrap()@ == chosen_time(*arrival, *departure, is_origin).unwrap(),
{
    if !is_origin && arrival.is_some() {
        match arrival {
            Some(a) => Some(a.clone()),
            None => None,
        }
    } else {
        match departure {
            Some(d) => Some(d.clone()),
            None => None,
        }
    }
}

} // verus!
