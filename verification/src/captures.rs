//! A map from the names of captures to the values they took.

use vstd::prelude::*;

verus! {

/// The map that a list of entries writes: each entry, in order, sets the
/// value of its name.
pub open spec fn entries_map(entries: Seq<(String, String)>) -> Map<Seq<char>, Seq<char>>
    decreases entries.len(),
{
    if entries.len() == 0 {
        Map::empty()
    } else {
        entries_map(entries.drop_last()).insert(entries.last().0@, entries.last().1@)
    }
}

/// The values of named captures, by name.
#[derive(Debug)]
pub struct CaptureMap {
    entries: Vec<(String, String)>,
}

impl View for CaptureMap {
    type V = Map<Seq<char>, Seq<char>>;

    closed spec fn view(&self) -> Map<Seq<char>, Seq<char>> {
        entries_map(self.entries@)
    }
}

impl CaptureMap {
    /// A map without entries.
    pub fn new() -> (r: Self)
        ensures
            r@ == Map::<Seq<char>, Seq<char>>::empty(),
    {
        CaptureMap { entries: Vec::new() }
    }

    /// Sets the value of `name` to `value`, whether or not it had one.
    pub fn insert(&mut self, name: String, value: String)
        ensures
            final(self)@ == old(self)@.insert(name@, value@),
    {
        let ghost before = self.entries@;
        self.entries.push((name, value));
        assert(self.entries@.drop_last() =~= before);
    }

    /// The value of `name`, if it has one.
    pub fn get(&self, name: &str) -> (r: Option<&String>)
        ensures
            match r {
                Some(value) => self@.contains_key(name@) && self@[name@] == value@,
                None => !self@.contains_key(name@),
            },
    {
        let key = String::from_str(name);
        let mut j: usize = self.entries.len();
        assert(self.entries@.take(j as int) =~= self.entries@);
        while j > 0
            invariant
                j <= self.entries.len(),
                key@ == name@,
                self@.contains_key(name@) == entries_map(self.entries@.take(j as int)).contains_key(
                    name@,
                ),
                self@.contains_key(name@) ==> self@[name@] == entries_map(
                    self.entries@.take(j as int),
                )[name@],
            decreases j,
        {
            let ghost front = self.entries@.take(j as int);
            assert(front.drop_last() =~= self.entries@.take(j - 1));
            assert(front.last() == self.entries@[j - 1]);
            if self.entries[j - 1].0 == key {
                return Some(&self.entries[j - 1].1);
            }
            j = j - 1;
        }
        None
    }

    /// Whether `name` has a value.
    pub fn contains_key(&self, name: &str) -> (r: bool)
        ensures
            r == self@.contains_key(name@),
    {
        self.get(name).is_some()
    }

    /// Takes the value of `name` out of the map, if it has one.
    pub fn remove(&mut self, name: &str) -> (r: Option<String>)
        ensures
            final(self)@ == old(self)@.remove(name@),
            match r {
                Some(value) => old(self)@.contains_key(name@) && old(self)@[name@] == value@,
                None => !old(self)@.contains_key(name@),
            },
    {
        let found = match self.get(name) {
            Some(value) => Some(value.clone()),
            None => None,
        };
        let key = String::from_str(name);
        let mut kept: Vec<(String, String)> = Vec::new();
        let mut j: usize = 0;
        assert(self.entries@.take(0) =~= Seq::<(String, String)>::empty());
        while j < self.entries.len()
            invariant
                j <= self.entries.len(),
                key@ == name@,
                self.entries == old(self).entries,
                entries_map(kept@) == entries_map(self.entries@.take(j as int)).remove(name@),
            decreases self.entries.len() - j,
        {
            let ghost front = self.entries@.take(j + 1);
            assert(front.drop_last() =~= self.entries@.take(j as int));
            assert(front.last() == self.entries@[j as int]);
            if !(self.entries[j].0 == key) {
                let ghost before = kept@;
                let entry = (self.entries[j].0.clone(), self.entries[j].1.clone());
                kept.push(entry);
                assert(kept@.drop_last() =~= before);
                assert(entries_map(kept@) =~= entries_map(front).remove(name@));
            } else {
                assert(entries_map(kept@) =~= entries_map(front).remove(name@));
            }
            j += 1;
        }
        assert(self.entries@.take(self.entries.len() as int) =~= self.entries@);
        self.entries = kept;
        found
    }
}

} // verus!
