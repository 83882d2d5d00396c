//! Named entries in the order in which they were declared.
//!
//! A [`Table`] is the namespace of one container: the types of a scope, the
//! fields of a format, the variants of a sum type. A [`FunctionTable`] is the
//! same for the functions of a scope. No name occurs twice in a table, and
//! each entry carries the identifier it was issued when it was inserted: 0
//! for the first, 1 for the second, and so on. A table is its own identifier
//! builder: the next identifier is the number of entries it holds, so
//! identifiers are dense and never reused.

use vstd::prelude::*;
use super::{Function, SpecFunction};
use crate::text::Text;

verus! {

/// One entry of a table.
#[derive(Debug, PartialEq, Eq)]
pub struct Entry<T> {
    pub id: usize,
    pub name: String,
    pub value: T,
}

/// The names of `entries`, in order.
pub open spec fn entry_names<T>(entries: Seq<Entry<T>>) -> Seq<Text> {
    Seq::new(entries.len(), |i: int| entries[i].name@)
}

/// The values of `entries`, in order.
pub open spec fn entry_values<T>(entries: Seq<Entry<T>>) -> Seq<T> {
    Seq::new(entries.len(), |i: int| entries[i].value)
}

/// Each entry has its index as identifier, and no two entries share a name.
pub open spec fn entries_in_order<T>(entries: Seq<Entry<T>>) -> bool {
    &&& forall|i: int| 0 <= i < entries.len() ==> (#[trigger] entries[i]).id == i
    &&& entry_names(entries).no_duplicates()
}

/// The index of the entry called `name`, if there is one.
fn find<T>(entries: &Vec<Entry<T>>, name: &String) -> (id: Option<usize>)
    ensures
        match id {
            Some(id) => id < entries.len() && entry_names(entries@)[id as int] == name@,
            None => !entry_names(entries@).contains(name@),
        },
{
    let mut i: usize = 0;
    while i < entries.len()
        invariant
            i <= entries.len(),
            forall|j: int| 0 <= j < i ==> entry_names(entries@)[j] != name@,
        decreases entries.len() - i,
    {
        if entries[i].name == *name {
            return Some(i);
        }
        i = i + 1;
    }
    None
}

/// Adds an entry at the end under the identifier that is next, unless an
/// entry of that name is there already.
fn append<T>(entries: &mut Vec<Entry<T>>, name: String, value: T) -> (id: Option<usize>)
    requires
        entries_in_order(old(entries)@),
    ensures
        entries_in_order(final(entries)@),
        match id {
            Some(id) => {
                &&& !entry_names(old(entries)@).contains(name@)
                &&& id == old(entries).len()
                &&& final(entries)@ == old(entries)@.push(Entry { id, name, value })
            },
            None => entry_names(old(entries)@).contains(name@) && final(entries)@ == old(entries)@,
        },
{
    if find(entries, &name).is_some() {
        return None;
    }
    let id = entries.len();
    entries.push(Entry { id, name, value });
    assert(entry_names(entries@) =~= entry_names(old(entries)@).push(name@));
    Some(id)
}

/// Named values in insertion order, without a repeated name.
#[derive(Debug, PartialEq, Eq)]
pub struct Table<T> {
    entries: Vec<Entry<T>>,
}

impl<T> Table<T> {
    #[verifier::type_invariant]
    spec fn well_formed(self) -> bool {
        entries_in_order(self.entries@)
    }

    /// The names of the entries, in insertion order. The identifier of an
    /// entry is its index in this sequence.
    pub closed spec fn names(&self) -> Seq<Text> {
        entry_names(self.entries@)
    }

    /// The values of the entries, in insertion order.
    pub closed spec fn values(&self) -> Seq<T> {
        entry_values(self.entries@)
    }

    /// There are as many values as names.
    pub proof fn lemma_lengths(&self)
        ensures
            self.values().len() == self.names().len(),
    {
    }

    /// An empty table.
    pub fn new() -> (table: Self)
        ensures
            table.names() == Seq::<Text>::empty(),
            table.values() == Seq::<T>::empty(),
    {
        let entries: Vec<Entry<T>> = Vec::new();
        assert(entry_names(entries@) =~= Seq::<Text>::empty());
        assert(entry_values(entries@) =~= Seq::<T>::empty());
        Table { entries }
    }

    /// The number of entries.
    pub fn len(&self) -> (len: usize)
        ensures
            len == self.names().len(),
            len == self.values().len(),
    {
        self.entries.len()
    }

    /// Whether the table has no entry.
    pub fn is_empty(&self) -> (empty: bool)
        ensures
            empty == (self.names().len() == 0),
    {
        self.entries.len() == 0
    }

    /// The entry with identifier `id`.
    pub fn entry(&self, id: usize) -> (entry: &Entry<T>)
        requires
            id < self.names().len(),
        ensures
            entry.id == id,
            entry.name@ == self.names()[id as int],
            entry.value == self.values()[id as int],
    {
        proof {
            use_type_invariant(self);
        }
        &self.entries[id]
    }

    /// The identifier of the entry called `name`, if there is one.
    pub fn position(&self, name: &String) -> (id: Option<usize>)
        ensures
            self.names().no_duplicates(),
            match id {
                Some(id) => id < self.names().len() && self.names()[id as int] == name@,
                None => !self.names().contains(name@),
            },
    {
        proof {
            use_type_invariant(self);
        }
        find(&self.entries, name)
    }

    /// Whether an entry is called `name`.
    pub fn contains_key(&self, name: &String) -> (found: bool)
        ensures
            found == self.names().contains(name@),
    {
        self.position(name).is_some()
    }

    /// Adds an entry at the end under a name that is not in the table yet,
    /// and returns the identifier issued to it. Where the name is already
    /// there, the table stays as it is and `None` is returned: the entry
    /// that came first stays.
    pub fn insert(&mut self, name: String, value: T) -> (id: Option<usize>)
        ensures
            final(self).names().no_duplicates(),
            match id {
                Some(id) => {
                    &&& !old(self).names().contains(name@)
                    &&& id == old(self).names().len()
                    &&& final(self).names() == old(self).names().push(name@)
                    &&& final(self).values() == old(self).values().push(value)
                },
                None => old(self).names().contains(name@)
                    && final(self).names() == old(self).names()
                    && final(self).values() == old(self).values(),
            },
    {
        proof {
            use_type_invariant(&*self);
        }
        let mut entries: Vec<Entry<T>> = Vec::new();
        assert(entry_names(entries@) =~= Seq::<Text>::empty());
        std::mem::swap(&mut entries, &mut self.entries);
        let id = append(&mut entries, name, value);
        self.entries = entries;
        proof {
            if id is Some {
                assert(self.names() =~= old(self).names().push(name@));
                assert(self.values() =~= old(self).values().push(value));
            }
        }
        id
    }
}

/// A table is seen as its entries in insertion order, each a name and the
/// view of its value.
impl<T: View> View for Table<T> {
    type V = Seq<(Text, T::V)>;

    open spec fn view(&self) -> Seq<(Text, T::V)> {
        Seq::new(self.names().len(), |i: int| (self.names()[i], self.values()[i]@))
    }
}

/// The names of a sequence of named values, in order.
pub open spec fn names_of<V>(entries: Seq<(Text, V)>) -> Seq<Text> {
    Seq::new(entries.len(), |i: int| entries[i].0)
}

impl<T: View> Table<T> {
    /// The names of the view of a table are the names of the table.
    pub proof fn lemma_view_names(&self)
        ensures
            names_of(self@) == self.names(),
    {
        assert(names_of(self@) =~= self.names());
    }
}

/// The functions of a scope in declaration order, without a repeated name.
#[derive(Debug, PartialEq, Eq)]
pub struct FunctionTable {
    entries: Vec<Entry<Function>>,
}

impl FunctionTable {
    #[verifier::type_invariant]
    spec fn well_formed(self) -> bool {
        entries_in_order(self.entries@)
    }

    /// The names of the functions, in declaration order.
    pub closed spec fn names(&self) -> Seq<Text> {
        entry_names(self.entries@)
    }

    /// The functions, in declaration order.
    pub closed spec fn values(&self) -> Seq<Function> {
        entry_values(self.entries@)
    }

    /// An empty table.
    pub fn new() -> (table: Self)
        ensures
            table@ == Seq::<(Text, SpecFunction)>::empty(),
    {
        let entries: Vec<Entry<Function>> = Vec::new();
        assert(entry_names(entries@) =~= Seq::<Text>::empty());
        let table = FunctionTable { entries };
        assert(table@ =~= Seq::<(Text, SpecFunction)>::empty());
        table
    }

    /// The number of functions.
    pub fn len(&self) -> (len: usize)
        ensures
            len == self@.len(),
    {
        self.entries.len()
    }

    /// The entry with identifier `id`.
    pub fn entry(&self, id: usize) -> (entry: &Entry<Function>)
        requires
            id < self@.len(),
        ensures
            entry.id == id,
            (entry.name@, entry.value@) == self@[id as int],
    {
        proof {
            use_type_invariant(self);
        }
        &self.entries[id]
    }

    /// The identifier of the function called `name`, if there is one.
    pub fn position(&self, name: &String) -> (id: Option<usize>)
        ensures
            match id {
                Some(id) => id < self@.len() && self@[id as int].0 == name@,
                None => forall|i: int| 0 <= i < self@.len() ==> (#[trigger] self@[i]).0 != name@,
            },
    {
        let id = find(&self.entries, name);
        proof {
            if id is None {
                assert forall|i: int| 0 <= i < self@.len() implies (#[trigger] self@[i]).0
                    != name@ by {
                    assert(entry_names(self.entries@)[i] == self@[i].0);
                }
            }
        }
        id
    }

    /// Adds a function at the end under a name that is not in the table yet,
    /// and returns the identifier issued to it. Where the name is already
    /// there, the table stays as it is and `None` is returned.
    pub fn insert(&mut self, name: String, value: Function) -> (id: Option<usize>)
        ensures
            match id {
                Some(id) => {
                    &&& forall|i: int|
                        0 <= i < old(self)@.len() ==> (#[trigger] old(self)@[i]).0 != name@
                    &&& id == old(self)@.len()
                    &&& final(self)@ == old(self)@.push((name@, value@))
                },
                None => {
                    &&& exists|i: int| 0 <= i < old(self)@.len() && (#[trigger] old(self)@[i]).0
                        == name@
                    &&& final(self)@ == old(self)@
                },
            },
    {
        proof {
            use_type_invariant(&*self);
        }
        let mut entries: Vec<Entry<Function>> = Vec::new();
        assert(entry_names(entries@) =~= Seq::<Text>::empty());
        std::mem::swap(&mut entries, &mut self.entries);
        let ghost before = entries@;
        let id = append(&mut entries, name, value);
        self.entries = entries;
        proof {
            if id is Some {
                assert(self@ =~= old(self)@.push((name@, value@)));
                assert forall|i: int| 0 <= i < old(self)@.len()
                    implies (#[trigger] old(self)@[i]).0 != name@ by {
                    assert(entry_names(before)[i] == old(self)@[i].0);
                }
            } else {
                let i = choose|i: int|
                    0 <= i < entry_names(before).len() && entry_names(before)[i] == name@;
                assert(old(self)@[i].0 == name@);
                assert(self@ =~= old(self)@);
            }
        }
        id
    }
}

impl View for FunctionTable {
    type V = Seq<(Text, SpecFunction)>;

    closed spec fn view(&self) -> Seq<(Text, SpecFunction)>
        decreases self,
    {
        Seq::new(
            self.entries.len() as nat,
            |i: int|
                if 0 <= i < self.entries.len() {
                    (self.entries[i].name@, self.entries[i].value@)
                } else {
                    arbitrary()
                },
        )
    }
}

} // verus!
