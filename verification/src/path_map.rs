//! A collection of entries keyed by path, kept in the order of insertion.

use crate::keyed::{
    distinct_keys, has_key, keys_of, keys_overlap, lemma_joined_distinct, lemma_placed_distinct,
    lemma_position_of, lemma_with_prefix_distinct, placed, position_of, with_prefix,
};
use crate::path::join_path;
use crate::text::texts_of;
use vstd::prelude::*;

verus! {

/// Entries keyed by path. No two entries have the same key, and the entries
/// keep the order in which they were added.
pub struct PathMap<V: View> {
    entries: Vec<(String, V)>,
}

/// The entries as the contracts see them: each key by its characters, each
/// value by its view.
pub open spec fn keyed_by_text<V: View>(entries: Seq<(String, V)>) -> Seq<(Seq<char>, V::V)> {
    Seq::new(entries.len(), |i: int| (entries[i].0@, entries[i].1@))
}

impl<V: View> View for PathMap<V> {
    type V = Seq<(Seq<char>, V::V)>;

    closed spec fn view(&self) -> Seq<(Seq<char>, V::V)> {
        keyed_by_text(self.entries@)
    }
}

impl<V: View> PathMap<V> {
    #[verifier::type_invariant]
    spec fn keyed(&self) -> bool {
        distinct_keys(self@)
    }

    /// Creates a map without entries.
    pub fn new() -> (map: PathMap<V>)
        ensures
            map@ == Seq::<(Seq<char>, V::V)>::empty(),
    {
        let entries: Vec<(String, V)> = Vec::new();
        proof {
            assert(keyed_by_text(entries@) =~= Seq::<(Seq<char>, V::V)>::empty());
        }
        PathMap { entries }
    }

    /// Returns the number of entries, no two of which have the same key.
    pub fn len(&self) -> (len: usize)
        ensures
            len == self@.len(),
            distinct_keys(self@),
    {
        proof {
            use_type_invariant(self);
        }
        self.entries.len()
    }

    /// Returns the key of the entry at `index`.
    pub fn key_at(&self, index: usize) -> (key: &String)
        requires
            index < self@.len(),
        ensures
            key@ == self@[index as int].0,
    {
        &self.entries[index].0
    }

    /// Returns the value of the entry at `index`.
    pub fn value_at(&self, index: usize) -> (value: &V)
        requires
            index < self@.len(),
        ensures
            value@ == self@[index as int].1,
    {
        &self.entries[index].1
    }

    /// Returns the position of the entry with the key `key`.
    pub fn position(&self, key: &str) -> (found: Option<usize>)
        ensures
            found is Some <==> has_key(self@, key@),
            found matches Some(index) ==> index < self@.len() && index == position_of(self@, key@)
                && self@[index as int].0 == key@,
    {
        proof {
            lemma_position_of(self@, key@);
        }
        let wanted = key.to_owned();
        let mut index: usize = 0;
        while index < self.entries.len()
            invariant
                index <= self.entries@.len(),
                wanted@ == key@,
                forall|i: int| 0 <= i < index ==> (#[trigger] self@[i]).0 != key@,
            decreases self.entries@.len() - index,
        {
            if self.entries[index].0 == wanted {
                proof {
                    let first = position_of(self@, key@);
                    lemma_position_of(self@, key@);
                    assert(self@[index as int].0 == key@);
                    assert(has_key(self@, key@));
                    assert(self@[first].0 == key@);
                    assert(first == index);
                }
                return Some(index);
            }
            index = index + 1;
        }
        None
    }

    /// Checks whether an entry has the key `key`.
    pub fn contains_key(&self, key: &str) -> (found: bool)
        ensures
            found == has_key(self@, key@),
    {
        self.position(key).is_some()
    }

    /// Returns the value of the entry with the key `key`.
    pub fn get(&self, key: &str) -> (value: Option<&V>)
        ensures
            value is Some <==> has_key(self@, key@),
            value matches Some(v) ==> v@ == self@[position_of(self@, key@)].1,
    {
        proof {
            lemma_position_of(self@, key@);
        }
        match self.position(key) {
            Some(index) => Some(&self.entries[index].1),
            None => None,
        }
    }

    /// Places `value` under `key`: in place of the entry that has the key, or
    /// as a new last entry where none has it.
    pub fn insert(self, key: String, value: V) -> (map: PathMap<V>)
        ensures
            map@ == placed(self@, key@, value@),
    {
        proof {
            use_type_invariant(&self);
            lemma_position_of(self@, key@);
        }
        let found = self.position(key.as_str());
        let ghost before = self@;
        let mut entries = self.entries;
        match found {
            Some(index) => {
                entries[index] = (key, value);
            },
            None => {
                entries.push((key, value));
            },
        }
        proof {
            assert(keyed_by_text(entries@) =~= placed(before, key@, value@));
            lemma_placed_distinct(before, key@, value@);
        }
        PathMap { entries }
    }

    /// Returns the keys, in order.
    pub fn keys(&self) -> (keys: Vec<String>)
        ensures
            texts_of(keys@) == keys_of(self@),
    {
        let mut keys: Vec<String> = Vec::new();
        let mut index: usize = 0;
        while index < self.entries.len()
            invariant
                index <= self.entries@.len(),
                keys@.len() == index,
                forall|i: int| 0 <= i < index ==> (#[trigger] keys@[i])@ == self@[i].0,
            decreases self.entries@.len() - index,
        {
            keys.push(self.entries[index].0.clone());
            index = index + 1;
        }
        proof {
            assert(texts_of(keys@) =~= keys_of(self@));
        }
        keys
    }

    /// Makes a map of `entries`, whose keys differ from one another.
    pub(crate) fn from_entries(entries: Vec<(String, V)>) -> (map: PathMap<V>)
        requires
            distinct_keys(keyed_by_text(entries@)),
        ensures
            map@ == keyed_by_text(entries@),
    {
        PathMap { entries }
    }

    /// Gives up the entries, in order.
    pub fn into_entries(self) -> (entries: Vec<(String, V)>)
        ensures
            keyed_by_text(entries@) == self@,
            distinct_keys(self@),
    {
        proof {
            use_type_invariant(&self);
        }
        self.entries
    }

    /// Checks whether a key of `other` is also a key of this map.
    pub fn overlaps<W: View>(&self, other: &PathMap<W>) -> (found: bool)
        ensures
            found == keys_overlap(self@, other@),
    {
        let mut index: usize = 0;
        while index < other.len()
            invariant
                index <= other@.len(),
                forall|i: int| 0 <= i < index ==> !has_key(self@, (#[trigger] other@[i]).0),
            decreases other@.len() - index,
        {
            if self.contains_key(other.key_at(index).as_str()) {
                return true;
            }
            index = index + 1;
        }
        false
    }

    /// Puts the entries of `other` behind those of this map.
    pub(crate) fn join(self, other: PathMap<V>) -> (map: PathMap<V>)
        requires
            !keys_overlap(self@, other@),
        ensures
            map@ == self@ + other@,
    {
        proof {
            use_type_invariant(&self);
            use_type_invariant(&other);
            lemma_joined_distinct(self@, other@);
        }
        let ghost left = self@;
        let ghost right = other@;
        let mut entries = self.entries;
        let mut added = other.entries;
        entries.append(&mut added);
        proof {
            assert(keyed_by_text(entries@) =~= left + right);
        }
        PathMap { entries }
    }

    /// Puts `prefix` before the key of each entry.
    pub fn prefixed(self, prefix: &str) -> (map: PathMap<V>)
        ensures
            map@ == with_prefix(self@, prefix@),
    {
        proof {
            use_type_invariant(&self);
            lemma_with_prefix_distinct(self@, prefix@);
        }
        let ghost before = self@;
        let mut entries: Vec<(String, V)> = Vec::new();
        for entry in taken: self.entries.into_iter()
            invariant
                entries@.len() == taken.index(),
                taken.seq().len() == before.len(),
                keyed_by_text(taken.seq()) == before,
                forall|i: int|
                    0 <= i < entries@.len() ==> (#[trigger] entries@[i]).0@ == prefix@ + before[i].0
                        && entries@[i].1@ == before[i].1,
        {
            assert(keyed_by_text(taken.seq())[taken.index()] == before[taken.index()]);
            let (key, value) = entry;
            entries.push((join_path(prefix, key.as_str()), value));
        }
        proof {
            assert(keyed_by_text(entries@) =~= with_prefix(before, prefix@));
        }
        PathMap { entries }
    }
}

} // verus!
