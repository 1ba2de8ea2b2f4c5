//! A small map from strings to values, kept in the order of registration.
//!
//! The tables of a router hold a handful of entries that are written once
//! and then only read, so a lookup walks them. A key that is registered
//! again shadows the earlier registration.
use vstd::prelude::*;
use crate::text::same_chars;

verus! {

/// One registration: a key, as its characters, and what is registered for it.
pub struct Entry<V> {
    /// The characters of the key.
    pub key: Vec<char>,
    /// What is registered for the key.
    pub value: V,
}

/// The map that registrations make, the later ones over the earlier ones.
pub open spec fn map_of<V>(entries: Seq<Entry<V>>) -> Map<Seq<char>, V>
    decreases entries.len(),
{
    if entries.len() == 0 {
        Map::empty()
    } else {
        map_of(entries.drop_last()).insert(entries.last().key@, entries.last().value)
    }
}

/// A key is in the map exactly when some registration has it, and its value
/// is that of the last such registration.
pub proof fn lemma_map_of<V>(entries: Seq<Entry<V>>, key: Seq<char>)
    ensures
        map_of(entries).contains_key(key) <==> exists|i: int|
            0 <= i < entries.len() && (#[trigger] entries[i]).key@ == key,
        forall|i: int|
            0 <= i < entries.len() && (#[trigger] entries[i]).key@ == key && (forall|j: int|
                i < j < entries.len() ==> (#[trigger] entries[j]).key@ != key) ==> map_of(
                entries,
            )[key] == entries[i].value,
    decreases entries.len(),
{
    if entries.len() > 0 {
        let rest = entries.drop_last();
        lemma_map_of(rest, key);
        if exists|i: int| 0 <= i < rest.len() && (#[trigger] rest[i]).key@ == key {
            let i = choose|i: int| 0 <= i < rest.len() && (#[trigger] rest[i]).key@ == key;
            assert(entries[i].key@ == key);
        }
        if exists|i: int| 0 <= i < entries.len() && (#[trigger] entries[i]).key@ == key {
            let i = choose|i: int| 0 <= i < entries.len() && (#[trigger] entries[i]).key@ == key;
            if i < rest.len() {
                assert(rest[i].key@ == key);
            }
        }
        assert forall|i: int|
            0 <= i < entries.len() && (#[trigger] entries[i]).key@ == key && (forall|j: int|
                i < j < entries.len() ==> (#[trigger] entries[j]).key@ != key) implies map_of(
            entries,
        )[key] == entries[i].value by {
            if i < rest.len() {
                assert(entries[entries.len() - 1].key@ != key);
                assert(rest[i].key@ == key);
                assert forall|j: int| i < j < rest.len() implies (#[trigger] rest[j]).key@
                    != key by {
                    assert(entries[j].key@ != key);
                }
            }
        }
    }
}

/// A map from strings to values.
pub struct Table<V> {
    entries: Vec<Entry<V>>,
}

impl<V> View for Table<V> {
    type V = Map<Seq<char>, V>;

    closed spec fn view(&self) -> Map<Seq<char>, V> {
        map_of(self.entries@)
    }
}

impl<V> Table<V> {
    /// The table that holds nothing.
    pub fn new() -> (r: Table<V>)
        ensures
            r@ == Map::<Seq<char>, V>::empty(),
    {
        Table { entries: Vec::new() }
    }

    /// Registers `value` for `key`, in place of what was registered for it.
    pub fn insert(&mut self, key: Vec<char>, value: V)
        ensures
            final(self)@ == old(self)@.insert(key@, value),
    {
        self.entries.push(Entry { key, value });
        proof {
            assert(final(self).entries@.drop_last() =~= old(self).entries@);
        }
    }

    /// What is registered for `key`, if anything.
    pub fn get(&self, key: &[char]) -> (r: Option<&V>)
        ensures
            match r {
                Some(v) => self@.contains_key(key@) && *v == self@[key@],
                None => !self@.contains_key(key@),
            },
    {
        let mut i: usize = self.entries.len();
        while i > 0
            invariant
                i <= self.entries.len(),
                forall|j: int| i <= j < self.entries.len() ==> (#[trigger] self.entries@[j]).key@ != key@,
            decreases i,
        {
            i -= 1;
            if same_chars(self.entries[i].key.as_slice(), key) {
                proof {
                    lemma_map_of(self.entries@, key@);
                    assert(self.entries@[i as int].key@ == key@);
                }
                return Some(&self.entries[i].value);
            }
        }
        proof {
            lemma_map_of(self.entries@, key@);
        }
        None
    }

    /// Whether something is registered for `key`.
    pub fn contains_key(&self, key: &[char]) -> (r: bool)
        ensures
            r == self@.contains_key(key@),
    {
        self.get(key).is_some()
    }
}

} // verus!
