use vstd::prelude::*;
use crate::lookup::{lookup, IdTable};

verus! {

/// Upper bound on a plausible count of stops between a vehicle and its target.
pub const MAX_STOPS_AWAY: usize = 20;

/// The parent station of a stop, or the stop itself where none is known.
pub open spec fn parent_of(parents: Seq<(Seq<char>, Seq<char>)>, id: Seq<char>) -> Seq<char> {
    match lookup(parents, id) {
        Some(p) => p,
        None => id,
    }
}

/// The first position of `id` in the route's stop sequence.
pub open spec fn first_position(route: Seq<String>, id: Seq<char>) -> Option<int>
    decreases route.len(),
{
    if route.len() == 0 {
        None
    } else {
        match first_position(route.drop_last(), id) {
            Some(i) => Some(i),
            None => if route.last()@ == id {
                Some(route.len() - 1)
            } else {
                None
            },
        }
    }
}

/// The distance between two positions on a route, where it is at least one
/// stop and at most the plausible bound.
pub open spec fn plausible_distance(from: int, to: int) -> Option<int> {
    let d = if to >= from {
        to - from
    } else {
        from - to
    };
    if 0 < d && d <= MAX_STOPS_AWAY {
        Some(d)
    } else {
        None
    }
}

/// How many stops a vehicle at `vehicle_stop` is from `target_stop`, both
/// taken to their parent stations and placed on the route.
pub open spec fn stops_between(
    parents: Seq<(Seq<char>, Seq<char>)>,
    route: Seq<String>,
    vehicle_stop: Seq<char>,
    target_stop: Seq<char>,
) -> Option<int> {
    match (
        first_position(route, parent_of(parents, vehicle_stop)),
        first_position(route, parent_of(parents, target_stop)),
    ) {
        (Some(v), Some(t)) => plausible_distance(v, t),
        _ => None,
    }
}

/// The parent station of a stop, or the stop itself where none is known.
pub fn to_parent(parents: &IdTable, id: &String) -> (r: String)
    ensures
        r@ == parent_of(parents@, id@),
{
    match parents.get(id) {
        Some(p) => p,
        None => id.clone(),
    }
}

/// The first position of `id` in `route`.
pub fn route_position(route: &Vec<String>, id: &String) -> (r: Option<usize>)
    ensures
        r.is_some() == first_position(route@, id@).is_some(),
        r.is_some() ==> r.unwrap() as int == first_position(route@, id@).unwrap(),
{
    let mut i: usize = 0;
    assert(route@.take(0) =~= Seq::<String>::empty());
    while i < route.len()
        invariant
            i <= route@.len(),
            first_position(route@.take(i as int), id@).is_none(),
        decreases route@.len() - i,
    {
        assert(route@.take(i as int + 1).drop_last() =~= route@.take(i as int));
        if route[i] == *id {
            assert(route@.take(i as int + 1).last() == route@[i as int]);
            let r = Some(i);
            proof {
                lemma_first_position_extends(route@, id@, i as int + 1);
            }
            return r;
        }
        i = i + 1;
    }
    assert(route@.take(i as int) =~= route@);
    None
}

/// A position found in a prefix of the route stays the first one in the route.
proof fn lemma_first_position_extends(route: Seq<String>, id: Seq<char>, n: int)
    requires
        0 <= n <= route.len(),
        first_position(route.take(n), id).is_some(),
    ensures
        first_position(route, id) == first_position(route.take(n), id),
    decreases route.len() - n,
{
    if n < route.len() {
        assert(route.take(n + 1).drop_last() =~= route.take(n));
        lemma_first_position_extends(route, id, n + 1);
    } else {
        assert(route.take(n) =~= route);
    }
}

/// The distance between two route positions, kept only where it lies between
/// one and the plausible bound.
pub fn bounded_distance(vehicle_index: usize, target_index: usize) -> (r: Option<i32>)
    ensures
        r.is_some() == plausible_distance(vehicle_index as int, target_index as int).is_some(),
        r.is_some() ==> r.unwrap() as int == plausible_distance(vehicle_index as int, target_index as int).unwrap(),
{
    let d: usize = if target_index >= vehicle_index {
        target_index - vehicle_index
    } else {
        vehicle_index - target_index
    };
    if d > 0 && d <= MAX_STOPS_AWAY {
        Some(d as i32)
    } else {
        None
    }
}

/// How many stops a vehicle at `vehicle_stop` is from `target_stop` along the
/// route; `None` where either is not on it or the count is implausible.
pub fn stops_away(parents: &IdTable, route: &Vec<String>, vehicle_stop: &String, target_stop: &String) -> (r: Option<i32>)
    ensures
        r.is_some() == stops_between(parents@, route@, vehicle_stop@, target_stop@).is_some(),
        r.is_some() ==> r.unwrap() as int == stops_between(parents@, route@, vehicle_stop@, target_stop@).unwrap(),
{
    let v_parent = to_parent(parents, vehicle_stop);
    let t_parent = to_parent(parents, target_stop);
    match (route_position(route, &v_parent), route_position(route, &t_parent)) {
        (Some(vi), Some(ti)) => bounded_distance(vi, ti),
        _ => None,
    }
}

} // verus!
