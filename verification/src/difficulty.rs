//! The charts of a song by the name of their difficulty.

use vstd::prelude::*;
use crate::note::MapKey;
use crate::text::bytes_eq;

verus! {

/// The notes stored under one name.
#[derive(Debug)]
pub struct Difficulty {
    pub name: Vec<u8>,
    pub keys: Vec<MapKey>,
}

/// A map from the name of a difficulty to its notes. Storing under a name
/// that is present replaces what was stored.
///
/// The entries are kept in the order in which they were stored; a later
/// entry hides an earlier one of the same name.
#[derive(Debug)]
pub struct DifficultyMap {
    pub entries: Vec<Difficulty>,
}

/// The map that a list of entries stands for.
pub open spec fn map_of(entries: Seq<Difficulty>) -> Map<Seq<u8>, Seq<MapKey>>
    decreases entries.len(),
{
    if entries.len() == 0 {
        Map::empty()
    } else {
        map_of(entries.drop_last()).insert(entries.last().name@, entries.last().keys@)
    }
}

impl View for DifficultyMap {
    type V = Map<Seq<u8>, Seq<MapKey>>;

    open spec fn view(&self) -> Map<Seq<u8>, Seq<MapKey>> {
        map_of(self.entries@)
    }
}

/// Entry `i` is the last one stored under `name`.
pub open spec fn is_last_named(entries: Seq<Difficulty>, name: Seq<u8>, i: int) -> bool {
    &&& 0 <= i < entries.len()
    &&& entries[i].name@ == name
    &&& forall|j: int| i < j < entries.len() ==> (#[trigger] entries[j]).name@ != name
}

/// A name is present where an entry carries it, and its notes are those of
/// the last such entry.
pub proof fn lemma_map_of(entries: Seq<Difficulty>, name: Seq<u8>)
    ensures
        map_of(entries).contains_key(name) <==> exists|i: int|
            0 <= i < entries.len() && (#[trigger] entries[i]).name@ == name,
        forall|i: int|
            is_last_named(entries, name, i) ==> map_of(entries)[name] == (#[trigger] entries[i]).keys@,
    decreases entries.len(),
{
    if entries.len() > 0 {
        let before = entries.drop_last();
        lemma_map_of(before, name);
        if entries.last().name@ == name {
            assert(entries[entries.len() - 1].name@ == name);
        } else {
            if map_of(entries).contains_key(name) {
                let i = choose|i: int| 0 <= i < before.len() && (#[trigger] before[i]).name@ == name;
                assert(entries[i].name@ == name);
            }
            if exists|i: int| 0 <= i < entries.len() && (#[trigger] entries[i]).name@ == name {
                let i = choose|i: int|
                    0 <= i < entries.len() && (#[trigger] entries[i]).name@ == name;
                assert(before[i].name@ == name);
            }
        }
        assert forall|i: int| is_last_named(entries, name, i) implies map_of(entries)[name] == (
        #[trigger] entries[i]).keys@ by {
            if i < entries.len() - 1 {
                assert(entries.last().name@ != name);
                assert(is_last_named(before, name, i)) by {
                    assert forall|j: int| i < j < before.len() implies (#[trigger] before[j]).name@
                        != name by {
                        assert(entries[j].name@ != name);
                    }
                }
                assert(before[i] == entries[i]);
            }
        }
    }
}

impl DifficultyMap {
    /// A map without entries.
    pub fn new() -> (map: DifficultyMap)
        ensures
            map@ == Map::<Seq<u8>, Seq<MapKey>>::empty(),
    {
        DifficultyMap { entries: Vec::new() }
    }

    /// Stores `keys` under `name`.
    pub fn insert(&mut self, name: Vec<u8>, keys: Vec<MapKey>)
        ensures
            final(self)@ == old(self)@.insert(name@, keys@),
    {
        self.entries.push(Difficulty { name, keys });
        assert(self.entries@.drop_last() =~= old(self).entries@);
    }

    /// The notes stored under `name`.
    pub fn get(&self, name: &[u8]) -> (r: Option<&Vec<MapKey>>)
        ensures
            match r {
                Some(keys) => self@.contains_key(name@) && self@[name@] == keys@,
                None => !self@.contains_key(name@),
            },
    {
        let mut i: usize = self.entries.len();
        while i > 0
            invariant
                i <= self.entries.len(),
                forall|j: int| i <= j < self.entries.len() ==> (#[trigger] self.entries@[j]).name@
                    != name@,
            decreases i,
        {
            i -= 1;
            if bytes_eq(self.entries[i].name.as_slice(), name) {
                proof {
                    lemma_map_of(self.entries@, name@);
                    assert(is_last_named(self.entries@, name@, i as int));
                }
                return Some(&self.entries[i].keys);
            }
        }
        proof {
            lemma_map_of(self.entries@, name@);
        }
        None
    }

    /// Reports whether notes are stored under `name`.
    pub fn contains_key(&self, name: &[u8]) -> (r: bool)
        ensures
            r == self@.contains_key(name@),
    {
        self.get(name).is_some()
    }
}

} // verus!
