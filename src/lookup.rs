use vstd::prelude::*;

verus! {

/// The value that `entries` holds for `key`: the last entry with that key wins,
/// as when the entries are inserted into a map one after another.
pub open spec fn lookup(entries: Seq<(Seq<char>, Seq<char>)>, key: Seq<char>) -> Option<Seq<char>>
    decreases entries.len(),
{
    if entries.len() == 0 {
        None
    } else if entries.last().0 == key {
        Some(entries.last().1)
    } else {
        lookup(entries.drop_last(), key)
    }
}

/// A table from one identifier to another (a vehicle to its current stop, a
/// stop to its parent station). Inserting a key again replaces its value.
pub struct IdTable {
    entries: Vec<(String, String)>,
}

impl View for IdTable {
    type V = Seq<(Seq<char>, Seq<char>)>;

    closed spec fn view(&self) -> Seq<(Seq<char>, Seq<char>)> {
        self.entries@.map_values(|e: (String, String)| (e.0@, e.1@))
    }
}

impl IdTable {
    /// The value held for `key`.
    pub open spec fn get_spec(self, key: Seq<char>) -> Option<Seq<char>> {
        lookup(self@, key)
    }

    pub fn new() -> (t: IdTable)
        ensures
            forall|k: Seq<char>| (#[trigger] t.get_spec(k)).is_none(),
            t@.len() == 0,
    {
        let t = IdTable { entries: Vec::new() };
        assert(t@ =~= Seq::<(Seq<char>, Seq<char>)>::empty());
        t
    }

    /// Records `value` for `key`, replacing what was held for it.
    pub fn insert(&mut self, key: String, value: String)
        ensures
            final(self)@ == old(self)@.push((key@, value@)),
            forall|k: Seq<char>|
                #[trigger] final(self).get_spec(k) == if k == key@ {
                    Some(value@)
                } else {
                    old(self).get_spec(k)
                },
    {
        let ghost kv = key@;
        let ghost vv = value@;
        self.entries.push((key, value));
        assert(self@ =~= old(self)@.push((kv, vv)));
        assert(self@.drop_last() =~= old(self)@);
    }

    /// The value held for `key`, if any.
    pub fn get(&self, key: &String) -> (r: Option<String>)
        ensures
            r.is_some() == self.get_spec(key@).is_some(),
            r.is_some() ==> r.unwrap()@ == self.get_spec(key@).unwrap(),
    {
        let mut i: usize = self.entries.len();
        assert(self@.take(i as int) =~= self@);
        while i > 0
            invariant
                i <= self.entries.len(),
                self@.len() == self.entries@.len(),
                lookup(self@, key@) == lookup(self@.take(i as int), key@),
            decreases i,
        {
            let ghost before = self@.take(i as int);
            i = i - 1;
            assert(before.drop_last() =~= self@.take(i as int));
            assert(before.last() == self@[i as int]);
            assert(self@[i as int] == (self.entries@[i as int].0@, self.entries@[i as int].1@));
            if self.entries[i].0 == *key {
                return Some(self.entries[i].1.clone());
            }
        }
        None
    }

    /// Whether a value is held for `key`.
    pub fn contains_key(&self, key: &String) -> (r: bool)
        ensures
            r == self.get_spec(key@).is_some(),
    {
        self.get(key).is_some()
    }

    /// The number of entries recorded.
    pub fn len(&self) -> (r: usize)
        ensures
            r == self@.len(),
    {
        self.entries.len()
    }

    /// The key of the `i`-th entry.
    pub fn key_at(&self, i: usize) -> (r: String)
        requires
            i < self@.len(),
        ensures
            r@ == self@[i as int].0,
    {
        self.entries[i].0.clone()
    }
}

/// Where an identifier has an entry in a lookup table, some value is held for it.
pub proof fn lemma_entry_has_value(entries: Seq<(Seq<char>, Seq<char>)>, i: int)
    requires
        0 <= i < entries.len(),
    ensures
        lookup(entries, entries[i].0).is_some(),
    decreases entries.len(),
{
    if entries.last().0 != entries[i].0 {
        assert(i != entries.len() - 1);
        lemma_entry_has_value(entries.drop_last(), i);
    }
}

} // verus!
