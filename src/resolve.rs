use vstd::prelude::*;
use crate::lookup::{lemma_entry_has_value, lookup, IdTable};
use crate::records::{IncludedResource, PredictionRecord, ResourceKind};

verus! {

/// The vehicle positions that the included resources give, in order:
/// each vehicle with a known current stop.
pub open spec fn vehicle_entries(inc: Seq<IncludedResource>) -> Seq<(Seq<char>, Seq<char>)>
    decreases inc.len(),
{
    if inc.len() == 0 {
        Seq::empty()
    } else {
        let r = inc.last();
        let rest = vehicle_entries(inc.drop_last());
        if r.kind == ResourceKind::Vehicle && r.current_stop.is_some() {
            rest.push((r.id@, r.current_stop.unwrap()@))
        } else {
            rest
        }
    }
}

/// The parent stations that the included resources give, in order: each
/// stop with its parent, or with itself where it has none.
pub open spec fn parent_entries(inc: Seq<IncludedResource>) -> Seq<(Seq<char>, Seq<char>)>
    decreases inc.len(),
{
    if inc.len() == 0 {
        Seq::empty()
    } else {
        let r = inc.last();
        let rest = parent_entries(inc.drop_last());
        if r.kind == ResourceKind::Stop {
            rest.push((r.id@, parent_or_self(r.id, r.parent_station)))
        } else {
            rest
        }
    }
}

/// A stop's parent station, or the stop itself.
pub open spec fn parent_or_self(id: String, parent: Option<String>) -> Seq<char> {
    match parent {
        Some(p) => p@,
        None => id@,
    }
}

/// Whether `ids` holds `id`.
pub open spec fn holds_id(ids: Seq<String>, id: Seq<char>) -> bool {
    exists|j: int| 0 <= j < ids.len() && #[trigger] ids[j]@ == id
}

/// Whether no identifier occurs twice in `ids`.
pub open spec fn distinct_ids(ids: Seq<String>) -> bool {
    forall|i: int, j: int| 0 <= i < j < ids.len() ==> ids[i]@ != ids[j]@
}

/// Whether `id` is a stop that the proximity count may look up: the current
/// stop of a vehicle, or the target stop of a prediction.
pub open spec fn wanted_stop(
    vehicles: Seq<(Seq<char>, Seq<char>)>,
    predictions: Seq<PredictionRecord>,
    id: Seq<char>,
) -> bool {
    (exists|k: Seq<char>| #[trigger] lookup(vehicles, k) == Some(id)) || (exists|j: int|
        0 <= j < predictions.len() && #[trigger] predictions[j].stop_id.is_some()
            && predictions[j].stop_id.unwrap()@ == id)
}

/// Builds the vehicle position table and the stop parent table from the
/// resources sent along with the predictions.
pub fn build_lookup_tables(included: &Vec<IncludedResource>) -> (r: (IdTable, IdTable))
    ensures
        r.0@ == vehicle_entries(included@),
        r.1@ == parent_entries(included@),
{
    let mut vehicles = IdTable::new();
    let mut parents = IdTable::new();
    let mut i: usize = 0;
    while i < included.len()
        invariant
            i <= included@.len(),
            vehicles@ == vehicle_entries(included@.take(i as int)),
            parents@ == parent_entries(included@.take(i as int)),
        decreases included@.len() - i,
    {
        assert(included@.take(i as int + 1).drop_last() =~= included@.take(i as int));
        let inc = &included[i];
        match inc.kind {
            ResourceKind::Vehicle => {
                match &inc.current_stop {
                    Some(s) => vehicles.insert(inc.id.clone(), s.clone()),
                    None => {},
                }
            },
            ResourceKind::Stop => {
                let parent = match &inc.parent_station {
                    Some(p) => p.clone(),
                    None => inc.id.clone(),
                };
                parents.insert(inc.id.clone(), parent);
            },
            ResourceKind::Other => {},
        }
        i = i + 1;
    }
    assert(included@.take(i as int) =~= included@);
    (vehicles, parents)
}

/// Appends `id` unless `ids` already holds it.
fn push_unique(ids: &mut Vec<String>, id: String)
    requires
        distinct_ids(old(ids)@),
    ensures
        distinct_ids(final(ids)@),
        forall|x: Seq<char>| holds_id(final(ids)@, x) <==> (holds_id(old(ids)@, x) || x == id@),
{
    let mut j: usize = 0;
    while j < ids.len()
        invariant
            j <= ids@.len(),
            ids@ == old(ids)@,
            distinct_ids(ids@),
            forall|k: int| 0 <= k < j ==> ids@[k]@ != id@,
        decreases ids@.len() - j,
    {
        if ids[j] == id {
            assert forall|x: Seq<char>| holds_id(ids@, x) <==> (holds_id(ids@, x) || x == id@) by {
                if x == id@ {
                    assert(ids@[j as int]@ == x);
                }
            }
            return;
        }
        j = j + 1;
    }
    let ghost before = ids@;
    ids.push(id);
    assert forall|x: Seq<char>| holds_id(ids@, x) <==> (holds_id(before, x) || x == ids@.last()@) by {
        if holds_id(ids@, x) {
            let k = choose|k: int| 0 <= k < ids@.len() && #[trigger] ids@[k]@ == x;
            if k < before.len() {
                assert(before[k]@ == x);
            }
        }
        if holds_id(before, x) {
            let k = choose|k: int| 0 <= k < before.len() && #[trigger] before[k]@ == x;
            assert(ids@[k]@ == x);
        }
        if x == ids@.last()@ {
            assert(ids@[ids@.len() - 1]@ == x);
        }
    }
}

/// The stops that the proximity count may look up and that have no parent
/// station recorded yet, each once: what a single batched lookup must resolve.
pub fn unresolved_stop_ids(vehicles: &IdTable, predictions: &Vec<PredictionRecord>, parents: &IdTable) -> (r: Vec<String>)
    ensures
        distinct_ids(r@),
        forall|id: Seq<char>|
            holds_id(r@, id) <==> (wanted_stop(vehicles@, predictions@, id) && lookup(parents@, id).is_none()),
{
    let mut ids: Vec<String> = Vec::new();
    let mut i: usize = 0;
    while i < vehicles.len()
        invariant
            i <= vehicles@.len(),
            distinct_ids(ids@),
            forall|x: Seq<char>|
                holds_id(ids@, x) ==> (wanted_stop(vehicles@, predictions@, x) && lookup(parents@, x).is_none()),
            forall|k: int|
                0 <= k < i && #[trigger] lookup(parents@, lookup(vehicles@, vehicles@[k].0).unwrap()).is_none()
                    ==> holds_id(ids@, lookup(vehicles@, vehicles@[k].0).unwrap()),
        decreases vehicles@.len() - i,
    {
        let key = vehicles.key_at(i);
        proof {
            lemma_entry_has_value(vehicles@, i as int);
        }
        match vehicles.get(&key) {
            Some(stop) => {
                if !parents.contains_key(&stop) {
                    let ghost s = stop@;
                    assert(lookup(vehicles@, key@) == Some(s));
                    push_unique(&mut ids, stop);
                    assert(holds_id(ids@, s));
                }
            },
            None => {},
        }
        i = i + 1;
    }
    let mut p: usize = 0;
    while p < predictions.len()
        invariant
            p <= predictions@.len(),
            distinct_ids(ids@),
            forall|x: Seq<char>|
                holds_id(ids@, x) ==> (wanted_stop(vehicles@, predictions@, x) && lookup(parents@, x).is_none()),
            forall|k: int|
                0 <= k < vehicles@.len() && #[trigger] lookup(parents@, lookup(vehicles@, vehicles@[k].0).unwrap()).is_none()
                    ==> holds_id(ids@, lookup(vehicles@, vehicles@[k].0).unwrap()),
            forall|k: int|
                0 <= k < p && #[trigger] predictions@[k].stop_id.is_some()
                    && lookup(parents@, predictions@[k].stop_id.unwrap()@).is_none()
                    ==> holds_id(ids@, predictions@[k].stop_id.unwrap()@),
        decreases predictions@.len() - p,
    {
        match &predictions[p].stop_id {
            Some(stop) => {
                if !parents.contains_key(stop) {
                    assert(predictions@[p as int].stop_id.is_some());
                    push_unique(&mut ids, stop.clone());
                }
            },
            None => {},
        }
        p = p + 1;
    }
    assert forall|id: Seq<char>|
        wanted_stop(vehicles@, predictions@, id) && lookup(parents@, id).is_none() implies holds_id(ids@, id) by {
        if exists|k: Seq<char>| #[trigger] lookup(vehicles@, k) == Some(id) {
            let k = choose|k: Seq<char>| #[trigger] lookup(vehicles@, k) == Some(id);
            let e = lemma_key_has_entry(vehicles@, k);
            assert(lookup(parents@, lookup(vehicles@, vehicles@[e].0).unwrap()).is_none());
        } else {
            let j = choose|j: int|
                0 <= j < predictions@.len() && #[trigger] predictions@[j].stop_id.is_some()
                    && predictions@[j].stop_id.unwrap()@ == id;
        }
    }
    ids
}

/// A key that a table holds a value for has an entry there.
proof fn lemma_key_has_entry(entries: Seq<(Seq<char>, Seq<char>)>, key: Seq<char>) -> (i: int)
    requires
        lookup(entries, key).is_some(),
    ensures
        0 <= i < entries.len(),
        entries[i].0 == key,
    decreases entries.len(),
{
    if entries.last().0 == key {
        entries.len() - 1
    } else {
        lemma_key_has_entry(entries.drop_last(), key)
    }
}

/// Records what a batched lookup found: each stop with its parent station, or
/// with itself where it has none.
pub fn add_resolved_parents(parents: &mut IdTable, resolved: &Vec<(String, Option<String>)>)
    ensures
        final(parents)@ == old(parents)@ + resolved@.map_values(
            |e: (String, Option<String>)| (e.0@, parent_or_self(e.0, e.1)),
        ),
{
    let mut i: usize = 0;
    while i < resolved.len()
        invariant
            i <= resolved@.len(),
            parents@ == old(parents)@ + resolved@.take(i as int).map_values(
                |e: (String, Option<String>)| (e.0@, parent_or_self(e.0, e.1)),
            ),
        decreases resolved@.len() - i,
    {
        let (id, parent) = &resolved[i];
        let value = match parent {
            Some(p) => p.clone(),
            None => id.clone(),
        };
        parents.insert(id.clone(), value);
        assert(resolved@.take(i as int + 1).map_values(
            |e: (String, Option<String>)| (e.0@, parent_or_self(e.0, e.1)),
        ) =~= resolved@.take(i as int).map_values(
            |e: (String, Option<String>)| (e.0@, parent_or_self(e.0, e.1)),
        ).push((resolved@[i as int].0@, parent_or_self(resolved@[i as int].0, resolved@[i as int].1))));
        i = i + 1;
    }
    assert(resolved@.take(i as int) =~= resolved@);
}

} // verus!
