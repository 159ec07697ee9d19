//! A map from names to values that remembers the order in which the names
//! were first inserted.

use crate::names::{insert_name, name_at, names_of, new_names, position};
use indexmap::IndexSet;
use vstd::prelude::*;

verus! {

/// A name-keyed map that keeps insertion order.
///
/// The names live in an insertion-ordered set, which gives each its position;
/// the values live in a vector, each at the position of its name. The set is
/// the one collection that is taken on trust: what it holds has one name, for
/// every type of value, and what is said of the values is proved here.
#[derive(Debug)]
pub struct OrderedMap<V> {
    entries: Entries<V>,
}

#[derive(Debug)]
struct Entries<V> {
    names: IndexSet<String>,
    values: Vec<V>,
}

fn no_entries<V>() -> (entries: Entries<V>)
    ensures
        names_of(entries.names) == Seq::<Seq<char>>::empty(),
        entries.values@ == Seq::<V>::empty(),
{
    Entries { names: new_names(), values: Vec::new() }
}

/// Adds or replaces one entry in a set of names and the vector of values that
/// goes with it.
fn put<V>(names: &mut IndexSet<String>, values: &mut Vec<V>, name: String, value: V)
    requires
        names_of(*old(names)).len() == old(values)@.len(),
        names_of(*old(names)).no_duplicates(),
    ensures
        names_of(*final(names)).len() == final(values)@.len(),
        names_of(*final(names)).no_duplicates(),
        names_of(*old(names)).contains(name@) ==> {
            &&& names_of(*final(names)) == names_of(*old(names))
            &&& final(values)@ == old(values)@.update(
                names_of(*old(names)).index_of(name@),
                value,
            )
        },
        !names_of(*old(names)).contains(name@) ==> {
            &&& names_of(*final(names)) == names_of(*old(names)).push(name@)
            &&& final(values)@ == old(values)@.push(value)
        },
{
    let ghost key = name@;
    let ghost before = names_of(*names);
    let (index, added) = insert_name(names, name);
    if added {
        values.push(value);
        proof {
            assert forall|i: int, j: int|
                0 <= i < before.push(key).len() && 0 <= j < before.push(key).len() && i != j
                implies before.push(key)[i] != before.push(key)[j] by {
                if i < before.len() {
                    assert(before.contains(before[i]));
                }
                if j < before.len() {
                    assert(before.contains(before[j]));
                }
            }
        }
    } else {
        proof {
            before.index_of_first_ensures(key);
        }
        values[index] = value;
    }
}

impl<V> OrderedMap<V> {
    #[verifier::type_invariant]
    spec fn inv(self) -> bool {
        &&& names_of(self.entries.names).len() == self.entries.values@.len()
        &&& names_of(self.entries.names).no_duplicates()
    }

    /// The names, in insertion order.
    pub closed spec fn names(self) -> Seq<Seq<char>> {
        names_of(self.entries.names)
    }

    /// The values, each at the position of its name.
    pub closed spec fn values(self) -> Seq<V> {
        self.entries.values@
    }

    /// Every name has a value, and no name occurs twice.
    pub open spec fn wf(self) -> bool {
        &&& self.names().len() == self.values().len()
        &&& self.names().no_duplicates()
    }

    /// Whether `name` is bound.
    pub open spec fn has(self, name: Seq<char>) -> bool {
        self.names().contains(name)
    }

    /// The value bound to `name`, where there is one.
    pub open spec fn lookup(self, name: Seq<char>) -> Option<V> {
        if self.names().contains(name) {
            Some(self.values()[self.names().index_of(name)])
        } else {
            None
        }
    }

    /// The map after `name` is bound to `value`: a new name goes to the end,
    /// a name already bound keeps its place.
    pub open spec fn bound(self, name: Seq<char>, value: V, after: Self) -> bool {
        if self.names().contains(name) {
            &&& after.names() == self.names()
            &&& after.values() == self.values().update(self.names().index_of(name), value)
        } else {
            &&& after.names() == self.names().push(name)
            &&& after.values() == self.values().push(value)
        }
    }

    /// Every map is well formed. Calling this makes the fact known to Verus.
    pub fn well_formed(&self)
        ensures
            self.wf(),
    {
        proof {
            use_type_invariant(self);
        }
    }

    /// A map without entries.
    pub fn new() -> (map: Self)
        ensures
            map.names() == Seq::<Seq<char>>::empty(),
            map.values() == Seq::<V>::empty(),
    {
        OrderedMap { entries: no_entries() }
    }

    /// The number of entries.
    pub fn len(&self) -> (n: usize)
        ensures
            n == self.names().len(),
            n == self.values().len(),
    {
        proof {
            use_type_invariant(self);
        }
        self.entries.values.len()
    }

    /// Binds `name` to `value`, replacing the value that it had if any.
    pub fn insert(&mut self, name: String, value: V)
        ensures
            old(self).bound(name@, value, *final(self)),
            final(self).wf(),
            final(self).lookup(name@) == Some(value),
            forall|other: Seq<char>|
                other != name@ ==> final(self).lookup(other) == old(self).lookup(other),
    {
        proof {
            use_type_invariant(&*self);
        }
        let ghost before = *self;
        let ghost key = name@;
        let mut entries = no_entries();
        std::mem::swap(&mut entries, &mut self.entries);
        put(&mut entries.names, &mut entries.values, name, value);
        self.entries = entries;
        proof {
            let old_names = before.names();
            let new_names = self.names();
            assert(self.names().contains(key)) by {
                if old_names.contains(key) {
                } else {
                    assert(new_names[old_names.len() as int] == key);
                }
            }
            assert forall|other: Seq<char>| other != key implies self.lookup(other)
                == before.lookup(other) by {
                if old_names.contains(key) {
                } else {
                    if old_names.contains(other) {
                        let i = old_names.index_of(other);
                        assert(new_names[i] == other);
                    }
                    if new_names.contains(other) {
                        let j = new_names.index_of(other);
                        assert(j < old_names.len());
                        assert(old_names[j] == other);
                    }
                }
            }
        }
    }

    /// The value bound to `name`.
    pub fn get(&self, name: &str) -> (found: Option<&V>)
        ensures
            match found {
                Some(value) => self.lookup(name@) == Some(*value),
                None => self.lookup(name@) is None,
            },
    {
        proof {
            use_type_invariant(self);
        }
        match position(&self.entries.names, name) {
            Some(i) => Some(&self.entries.values[i]),
            None => None,
        }
    }

    /// Whether `name` is bound.
    pub fn contains_key(&self, name: &str) -> (found: bool)
        ensures
            found == self.has(name@),
    {
        position(&self.entries.names, name).is_some()
    }

    /// The entry at position `index`, counting from the first inserted.
    pub fn get_index(&self, index: usize) -> (found: Option<(&String, &V)>)
        ensures
            match found {
                Some((name, value)) => {
                    &&& index < self.names().len()
                    &&& name@ == self.names()[index as int]
                    &&& *value == self.values()[index as int]
                },
                None => index >= self.names().len(),
            },
    {
        proof {
            use_type_invariant(self);
        }
        match name_at(&self.entries.names, index) {
            Some(name) => Some((name, &self.entries.values[index])),
            None => None,
        }
    }
}

} // verus!
