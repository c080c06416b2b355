use vstd::prelude::*;

use crate::model::SourceKey;
use crate::state::{SourceId, SourcePosition};

verus! {

/// A lookup table from a source to its position. No source is in it twice.
#[derive(Debug)]
pub struct SourceTable {
    entries: Vec<(SourceId, SourcePosition)>,
}

impl View for SourceTable {
    type V = Map<SourceKey, SourcePosition>;

    closed spec fn view(&self) -> Map<SourceKey, SourcePosition> {
        Map::new(
            |key: SourceKey| self.keys().contains(key),
            |key: SourceKey| self.entries@[self.keys().index_of(key)].1,
        )
    }
}

impl Clone for SourceTable {
    fn clone(&self) -> (copy: Self)
        ensures
            copy@ == self@,
    {
        proof {
            use_type_invariant(&*self);
        }
        let mut entries: Vec<(SourceId, SourcePosition)> = Vec::new();
        let mut i: usize = 0;
        while i < self.entries.len()
            invariant
                i <= self.entries.len(),
                entries@.len() == i,
                forall|j: int|
                    0 <= j < i ==> (#[trigger] entries@[j]).0@ == self.entries@[j].0@
                        && entries@[j].1 == self.entries@[j].1,
            decreases self.entries.len() - i,
        {
            entries.push((self.entries[i].0.clone(), self.entries[i].1));
            i += 1;
        }
        let ghost keys = Seq::new(entries@.len(), |j: int| entries@[j].0@);
        assert(keys =~= self.keys());
        let copy = SourceTable { entries };
        assert(copy.keys() =~= self.keys());
        assert(copy@ =~= self@) by {
            assert forall|key: SourceKey| self.keys().contains(key) implies copy@[key]
                == self@[key] by {
                assert(self.keys()[self.keys().index_of(key)] == key);
            }
        }
        copy
    }
}

impl SourceTable {
    spec fn keys(&self) -> Seq<SourceKey> {
        Seq::new(self.entries@.len(), |i: int| self.entries@[i].0@)
    }

    #[verifier::type_invariant]
    spec fn no_source_twice(&self) -> bool {
        self.keys().no_duplicates()
    }

    /// The entries of the table, in some order.
    pub closed spec fn listing(&self) -> Seq<(SourceKey, SourcePosition)> {
        Seq::new(self.entries@.len(), |i: int| (self.entries@[i].0@, self.entries@[i].1))
    }

    /// Every source in the table has an entry.
    pub proof fn lemma_listed(&self, key: SourceKey)
        requires
            self@.dom().contains(key),
        ensures
            exists|i: int|
                0 <= i < self.listing().len() && #[trigger] self.listing()[i] == (key, self@[key]),
    {
        let i = self.keys().index_of(key);
        assert(self.keys()[i] == key);
        assert(self.listing()[i] == (key, self@[key]));
    }

    /// The entry at an index.
    pub fn entry(&self, i: usize) -> (entry: (&SourceId, SourcePosition))
        requires
            i < self.listing().len(),
        ensures
            (entry.0@, entry.1) == self.listing()[i as int],
            self@.contains_pair(entry.0@, entry.1),
    {
        proof {
            use_type_invariant(&*self);
            assert(self.keys()[i as int] == self.entries@[i as int].0@);
        }
        (&self.entries[i].0, self.entries[i].1)
    }

    /// A table without entries.
    pub fn new() -> (table: Self)
        ensures
            table@ == Map::<SourceKey, SourcePosition>::empty(),
    {
        let table = SourceTable { entries: Vec::new() };
        assert(table@ =~= Map::empty());
        table
    }

    /// The number of sources in the table.
    pub fn len(&self) -> (len: usize)
        ensures
            self@.dom().finite(),
            len == self@.len(),
            len == self.listing().len(),
    {
        proof {
            use_type_invariant(&*self);
            self.keys().unique_seq_to_set();
            assert(self@.dom() =~= self.keys().to_set());
        }
        self.entries.len()
    }

    /// The position of a source, if it has one.
    pub fn get(&self, id: &SourceId) -> (position: Option<SourcePosition>)
        ensures
            position == (if self@.dom().contains(id@) { Some(self@[id@]) } else { None }),
    {
        proof {
            use_type_invariant(&*self);
        }
        let mut i: usize = 0;
        while i < self.entries.len()
            invariant
                i <= self.entries.len(),
                self.keys().no_duplicates(),
                forall|j: int| 0 <= j < i ==> self.keys()[j] != id@,
            decreases self.entries.len() - i,
        {
            if self.entries[i].0.same(id) {
                assert(self.keys()[i as int] == id@);
                return Some(self.entries[i].1);
            }
            i += 1;
        }
        assert(!self.keys().contains(id@));
        None
    }

    /// Adds a source that is not in the table yet.
    pub fn add(&mut self, id: SourceId, position: SourcePosition)
        requires
            !old(self)@.dom().contains(id@),
        ensures
            final(self)@ == old(self)@.insert(id@, position),
    {
        proof {
            use_type_invariant(&*self);
        }
        let ghost before = *self;
        let ghost key = id@;
        let mut entries: Vec<(SourceId, SourcePosition)> = Vec::new();
        std::mem::swap(&mut entries, &mut self.entries);
        entries.push((id, position));
        let ghost keys = Seq::new(entries@.len(), |i: int| entries@[i].0@);
        assert(keys =~= before.keys().push(key));
        self.entries = entries;
        assert(self.keys() =~= keys);
        assert(self@ =~= before@.insert(key, position)) by {
            assert(keys[before.keys().len() as int] == key);
            assert forall|k: SourceKey| keys.contains(k) implies k == key || before.keys().contains(
                k,
            ) by {}
            assert forall|k: SourceKey| before.keys().contains(k) implies keys.contains(k) by {
                assert(keys[before.keys().index_of(k)] == k);
            }
        }
    }
}

} // verus!
