use vstd::prelude::*;
use crate::time::Moment;

verus! {

/// One candidate departure at a stop: an optional scheduled time, an optional
/// predicted (live) time and an optional count of stops that the vehicle is
/// away. At least one of the two times is always present.
#[derive(Clone, Copy, Debug)]
pub struct DepartureRow {
    scheduled: Option<Moment>,
    predicted: Option<Moment>,
    stops_away: Option<i32>,
}

impl DepartureRow {
    #[verifier::type_invariant]
    spec fn has_time(self) -> bool {
        self.scheduled.is_some() || self.predicted.is_some()
    }

    pub closed spec fn scheduled_spec(self) -> Option<Moment> {
        self.scheduled
    }

    pub closed spec fn predicted_spec(self) -> Option<Moment> {
        self.predicted
    }

    pub closed spec fn stops_away_spec(self) -> Option<i32> {
        self.stops_away
    }

    /// A row from its parts; `None` where both times are missing.
    pub fn new(scheduled: Option<Moment>, predicted: Option<Moment>, stops_away: Option<i32>) -> (r: Option<DepartureRow>)
        ensures
            r.is_some() <==> (scheduled.is_some() || predicted.is_some()),
            r.is_some() ==> r.unwrap().scheduled_spec() == scheduled,
            r.is_some() ==> r.unwrap().predicted_spec() == predicted,
            r.is_some() ==> r.unwrap().stops_away_spec() == stops_away,
    {
        if scheduled.is_some() || predicted.is_some() {
            Some(DepartureRow { scheduled, predicted, stops_away })
        } else {
            None
        }
    }

    /// The scheduled time; where it is missing, the row has a predicted time.
    pub fn scheduled(&self) -> (r: Option<Moment>)
        ensures
            r == self.scheduled_spec(),
            r.is_none() ==> self.predicted_spec().is_some(),
    {
        proof {
            use_type_invariant(self);
        }
        self.scheduled
    }

    /// The predicted time; where it is missing, the row has a scheduled time.
    pub fn predicted(&self) -> (r: Option<Moment>)
        ensures
            r == self.predicted_spec(),
            r.is_none() ==> self.scheduled_spec().is_some(),
    {
        proof {
            use_type_invariant(self);
        }
        self.predicted
    }

    pub fn stops_away(&self) -> (r: Option<i32>)
        ensures
            r == self.stops_away_spec(),
    {
        self.stops_away
    }
}

} // verus!
