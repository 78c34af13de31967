//! A small map from pairs of texts to indices, for the checks that follow a
//! request chain (`method`, `cursor`) across exchanges.

use vstd::prelude::*;
use crate::text::text_eq;

verus! {

/// A map keyed by a pair of texts.
pub struct KeyMap {
    entries: Vec<(String, String, usize)>,
}

/// The key of an entry, as plain text.
pub open spec fn entry_key(e: (String, String, usize)) -> (Seq<char>, Seq<char>) {
    (e.0@, e.1@)
}

/// The map the entries describe, later entries winning.
pub open spec fn entries_map(entries: Seq<(String, String, usize)>) -> Map<(Seq<char>, Seq<char>), usize>
    decreases entries.len(),
{
    if entries.len() == 0 {
        Map::empty()
    } else {
        entries_map(entries.drop_last()).insert(entry_key(entries.last()), entries.last().2)
    }
}

/// No key occurs twice.
pub open spec fn keys_unique(entries: Seq<(String, String, usize)>) -> bool {
    forall|a: int, b: int| 0 <= a < b < entries.len() ==> entry_key(entries[a]) != entry_key(entries[b])
}

proof fn lemma_map_has(entries: Seq<(String, String, usize)>, j: int)
    requires
        keys_unique(entries),
        0 <= j < entries.len(),
    ensures
        entries_map(entries).contains_key(entry_key(entries[j])),
        entries_map(entries)[entry_key(entries[j])] == entries[j].2,
    decreases entries.len(),
{
    if j < entries.len() - 1 {
        lemma_map_has(entries.drop_last(), j);
    }
}

proof fn lemma_map_lacks(entries: Seq<(String, String, usize)>, k: (Seq<char>, Seq<char>))
    requires
        forall|j: int| 0 <= j < entries.len() ==> entry_key(entries[j]) != k,
    ensures
        !entries_map(entries).contains_key(k),
    decreases entries.len(),
{
    if entries.len() > 0 {
        lemma_map_lacks(entries.drop_last(), k);
    }
}

proof fn lemma_map_remove(entries: Seq<(String, String, usize)>, j: int)
    requires
        keys_unique(entries),
        0 <= j < entries.len(),
    ensures
        entries_map(entries.remove(j)) == entries_map(entries).remove(entry_key(entries[j])),
    decreases entries.len(),
{
    let k = entry_key(entries[j]);
    if j == entries.len() - 1 {
        assert(entries.remove(j) =~= entries.drop_last());
        assert forall|i: int| 0 <= i < entries.drop_last().len() implies entry_key(entries.drop_last()[i]) != k by {}
        lemma_map_lacks(entries.drop_last(), k);
        assert(entries_map(entries.drop_last()) =~= entries_map(entries).remove(k));
    } else {
        lemma_map_remove(entries.drop_last(), j);
        assert(entries.remove(j).drop_last() =~= entries.drop_last().remove(j));
        assert(entries.remove(j).last() == entries.last());
        assert(entries_map(entries.remove(j)) =~= entries_map(entries).remove(k));
    }
}

proof fn lemma_map_update(entries: Seq<(String, String, usize)>, j: int, v: (String, String, usize))
    requires
        keys_unique(entries),
        0 <= j < entries.len(),
        entry_key(v) == entry_key(entries[j]),
    ensures
        entries_map(entries.update(j, v)) == entries_map(entries).insert(entry_key(v), v.2),
    decreases entries.len(),
{
    if j == entries.len() - 1 {
        assert(entries.update(j, v).drop_last() =~= entries.drop_last());
        assert(entries_map(entries.update(j, v)) =~= entries_map(entries).insert(entry_key(v), v.2));
    } else {
        lemma_map_update(entries.drop_last(), j, v);
        assert(entries.update(j, v).drop_last() =~= entries.drop_last().update(j, v));
        assert(entries_map(entries.update(j, v)) =~= entries_map(entries).insert(entry_key(v), v.2));
    }
}

impl KeyMap {
    /// The map's contents.
    pub closed spec fn view_map(self) -> Map<(Seq<char>, Seq<char>), usize> {
        entries_map(self.entries@)
    }

    #[verifier::type_invariant]
    closed spec fn unique(self) -> bool {
        keys_unique(self.entries@)
    }

    /// An empty map.
    pub fn new() -> (m: Self)
        ensures
            m.view_map() == Map::<(Seq<char>, Seq<char>), usize>::empty(),
    {
        KeyMap { entries: Vec::new() }
    }

    fn position(&self, a: &str, b: &str) -> (r: Option<usize>)
        ensures
            r matches Some(j) ==> j < self.entries@.len() && entry_key(self.entries@[j as int]) == (a@, b@),
            r is None ==> forall|j: int| 0 <= j < self.entries@.len() ==> entry_key(self.entries@[j]) != (a@, b@),
    {
        let mut j: usize = 0;
        while j < self.entries.len()
            invariant
                j <= self.entries@.len(),
                forall|i: int| 0 <= i < j ==> entry_key(self.entries@[i]) != (a@, b@),
            decreases self.entries@.len() - j,
        {
            if text_eq(self.entries[j].0.as_str(), a) && text_eq(self.entries[j].1.as_str(), b) {
                return Some(j);
            }
            j = j + 1;
        }
        None
    }

    /// Whether there is an entry for `(a, b)`.
    pub fn contains(&self, a: &str, b: &str) -> (r: bool)
        ensures
            r == self.view_map().contains_key((a@, b@)),
    {
        proof { use_type_invariant(self); }
        match self.position(a, b) {
            Some(j) => {
                proof { lemma_map_has(self.entries@, j as int); }
                true
            },
            None => {
                proof { lemma_map_lacks(self.entries@, (a@, b@)); }
                false
            },
        }
    }

    /// Removes the entry for `(a, b)`, returning its value.
    pub fn remove(&mut self, a: &str, b: &str) -> (r: Option<usize>)
        ensures
            r == (if old(self).view_map().contains_key((a@, b@)) { Some(old(self).view_map()[(a@, b@)]) } else { None::<usize> }),
            final(self).view_map() == old(self).view_map().remove((a@, b@)),
    {
        proof { use_type_invariant(&*self); }
        match self.position(a, b) {
            Some(j) => {
                proof {
                    lemma_map_has(self.entries@, j as int);
                    lemma_map_remove(self.entries@, j as int);
                }
                let entries = self.take_entries();
                let mut entries = entries;
                let (_, _, v) = entries.remove(j);
                self.put_entries(entries);
                Some(v)
            },
            None => {
                proof {
                    lemma_map_lacks(self.entries@, (a@, b@));
                    assert(self.view_map().remove((a@, b@)) =~= self.view_map());
                }
                None
            },
        }
    }

    /// Sets the entry for `(a, b)` to `v`.
    pub fn insert(&mut self, a: String, b: String, v: usize)
        ensures
            final(self).view_map() == old(self).view_map().insert((a@, b@), v),
    {
        proof { use_type_invariant(&*self); }
        match self.position(a.as_str(), b.as_str()) {
            Some(j) => {
                proof { lemma_map_update(self.entries@, j as int, (a, b, v)); }
                let mut entries = self.take_entries();
                entries.set(j, (a, b, v));
                self.put_entries(entries);
            },
            None => {
                let mut entries = self.take_entries();
                entries.push((a, b, v));
                proof {
                    assert(entries@.drop_last() =~= old(self).entries@);
                }
                self.put_entries(entries);
            },
        }
    }

    fn take_entries(&mut self) -> (e: Vec<(String, String, usize)>)
        ensures
            e@ == old(self).entries@,
            final(self).entries@.len() == 0,
    {
        proof { use_type_invariant(&*self); }
        let mut fresh = KeyMap { entries: Vec::new() };
        std::mem::swap(self, &mut fresh);
        fresh.entries
    }

    fn put_entries(&mut self, e: Vec<(String, String, usize)>)
        requires
            keys_unique(e@),
        ensures
            final(self).entries@ == e@,
    {
        *self = KeyMap { entries: e };
    }
}

} // verus!
