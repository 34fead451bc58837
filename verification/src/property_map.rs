//! An insertion-ordered table from names to properties, looked up either by
//! exact name or under ASCII case folding.

use vstd::prelude::*;
use crate::names::{name_matches, names_match};
use crate::property::{Property, PropertyView};

verus! {

/// The mathematical content of a property table: its entries in insertion
/// order, each a key and a property.
pub type Entries = Seq<(Seq<char>, PropertyView)>;

/// No key occurs twice.
pub open spec fn distinct_keys(entries: Entries) -> bool {
    forall|i: int, j: int|
        0 <= i < entries.len() && 0 <= j < entries.len() && i != j ==> (#[trigger] entries[i]).0 != (
        #[trigger] entries[j]).0
}

/// Entry `i` answers to `name`, and no earlier entry does.
pub open spec fn is_first_match(entries: Entries, name: Seq<char>, case_sensitive: bool, i: int) -> bool {
    &&& 0 <= i < entries.len()
    &&& name_matches(entries[i].0, name, case_sensitive)
    &&& forall|j: int| 0 <= j < i ==> !name_matches((#[trigger] entries[j]).0, name, case_sensitive)
}

/// The place of the entry that a lookup of `name` finds: the first inserted
/// among those that answer to it.
pub open spec fn position(entries: Entries, name: Seq<char>, case_sensitive: bool) -> Option<int> {
    if exists|i: int| is_first_match(entries, name, case_sensitive, i) {
        Some(choose|i: int| is_first_match(entries, name, case_sensitive, i))
    } else {
        None
    }
}

/// Whether a lookup of `name` finds an entry.
pub open spec fn has_key(entries: Entries, name: Seq<char>, case_sensitive: bool) -> bool {
    position(entries, name, case_sensitive) is Some
}

/// The property that a lookup of `name` finds.
pub open spec fn lookup(entries: Entries, name: Seq<char>, case_sensitive: bool) -> Option<PropertyView> {
    match position(entries, name, case_sensitive) {
        Some(i) => Some(entries[i].1),
        None => None,
    }
}

/// The table after an insertion: the property replaces the one found under
/// the name, whose key and place stay, or else goes to the end under `name`.
pub open spec fn inserted(entries: Entries, name: Seq<char>, property: PropertyView, case_sensitive: bool) -> Entries {
    match position(entries, name, case_sensitive) {
        Some(i) => entries.update(i, (entries[i].0, property)),
        None => entries.push((name, property)),
    }
}

/// The table after a removal: without the entry found under the name, the
/// others in their order.
pub open spec fn removed(entries: Entries, name: Seq<char>, case_sensitive: bool) -> Entries {
    match position(entries, name, case_sensitive) {
        Some(i) => entries.remove(i),
        None => entries,
    }
}

/// The keys of a table, in insertion order.
pub open spec fn keys(entries: Entries) -> Seq<Seq<char>> {
    Seq::new(entries.len(), |i: int| entries[i].0)
}

/// What `position` finds is the first match, and it finds nothing only when
/// no entry matches.
pub proof fn lemma_position(entries: Entries, name: Seq<char>, case_sensitive: bool)
    ensures
        match position(entries, name, case_sensitive) {
            Some(i) => is_first_match(entries, name, case_sensitive, i),
            None => forall|j: int|
                0 <= j < entries.len() ==> !name_matches(
                    (#[trigger] entries[j]).0,
                    name,
                    case_sensitive,
                ),
        },
{
    if position(entries, name, case_sensitive) is None {
        assert forall|j: int| 0 <= j < entries.len() implies !name_matches(
            (#[trigger] entries[j]).0,
            name,
            case_sensitive,
        ) by {
            if name_matches(entries[j].0, name, case_sensitive) {
                lemma_some_match(entries, name, case_sensitive, j);
            }
        }
    }
}

/// Where some entry up to `j` matches, there is a first one.
proof fn lemma_some_match(entries: Entries, name: Seq<char>, case_sensitive: bool, j: int)
    requires
        0 <= j < entries.len(),
        name_matches(entries[j].0, name, case_sensitive),
    ensures
        exists|i: int| is_first_match(entries, name, case_sensitive, i),
    decreases j,
{
    if exists|k: int| 0 <= k < j && name_matches(entries[k].0, name, case_sensitive) {
        let k = choose|k: int| 0 <= k < j && name_matches(entries[k].0, name, case_sensitive);
        lemma_some_match(entries, name, case_sensitive, k);
    } else {
        assert(is_first_match(entries, name, case_sensitive, j));
    }
}

/// The first match is the one that `position` finds.
pub proof fn lemma_position_is(entries: Entries, name: Seq<char>, case_sensitive: bool, i: int)
    requires
        is_first_match(entries, name, case_sensitive, i),
    ensures
        position(entries, name, case_sensitive) == Some(i),
{
    let k = choose|k: int| is_first_match(entries, name, case_sensitive, k);
    if k < i {
        assert(!name_matches(entries[k].0, name, case_sensitive));
    } else if i < k {
        assert(!name_matches(entries[i].0, name, case_sensitive));
    }
}

/// Insertion keeps the keys distinct.
pub proof fn lemma_inserted_distinct(entries: Entries, name: Seq<char>, property: PropertyView, case_sensitive: bool)
    requires
        distinct_keys(entries),
    ensures
        distinct_keys(inserted(entries, name, property, case_sensitive)),
{
    lemma_position(entries, name, case_sensitive);
    let after = inserted(entries, name, property, case_sensitive);
    match position(entries, name, case_sensitive) {
        Some(i) => {
            assert forall|a: int, b: int|
                0 <= a < after.len() && 0 <= b < after.len() && a != b implies (#[trigger] after[a]).0 != (
            #[trigger] after[b]).0 by {
                assert(after[a].0 == entries[a].0);
                assert(after[b].0 == entries[b].0);
            }
        },
        None => {
            assert forall|a: int, b: int|
                0 <= a < after.len() && 0 <= b < after.len() && a != b implies (#[trigger] after[a]).0 != (
            #[trigger] after[b]).0 by {
                if a < entries.len() && b < entries.len() {
                    assert(after[a].0 == entries[a].0);
                    assert(after[b].0 == entries[b].0);
                } else if a < entries.len() {
                    assert(!name_matches(entries[a].0, name, case_sensitive));
                } else {
                    assert(!name_matches(entries[b].0, name, case_sensitive));
                }
            }
        },
    }
}

/// Removal keeps the keys distinct.
pub proof fn lemma_removed_distinct(entries: Entries, name: Seq<char>, case_sensitive: bool)
    requires
        distinct_keys(entries),
    ensures
        distinct_keys(removed(entries, name, case_sensitive)),
{
    lemma_position(entries, name, case_sensitive);
    let after = removed(entries, name, case_sensitive);
    match position(entries, name, case_sensitive) {
        Some(i) => {
            assert forall|a: int, b: int|
                0 <= a < after.len() && 0 <= b < after.len() && a != b implies (#[trigger] after[a]).0 != (
            #[trigger] after[b]).0 by {
                let a0 = if a < i { a } else { a + 1 };
                let b0 = if b < i { b } else { b + 1 };
                assert(after[a] == entries[a0]);
                assert(after[b] == entries[b0]);
            }
        },
        None => {},
    }
}

/// A lookup goes by the keys alone: two tables with the same keys in the
/// same order find the same place.
pub proof fn lemma_position_by_keys(a: Entries, b: Entries, name: Seq<char>, case_sensitive: bool)
    requires
        a.len() == b.len(),
        forall|i: int| 0 <= i < a.len() ==> (#[trigger] a[i]).0 == b[i].0,
    ensures
        position(a, name, case_sensitive) == position(b, name, case_sensitive),
{
    lemma_position(a, name, case_sensitive);
    match position(a, name, case_sensitive) {
        Some(i) => {
            assert(b[i].0 == a[i].0);
            assert forall|j: int| 0 <= j < i implies !name_matches((#[trigger] b[j]).0, name, case_sensitive) by {
                assert(b[j].0 == a[j].0);
            }
            lemma_position_is(b, name, case_sensitive, i);
        },
        None => {
            lemma_position(b, name, case_sensitive);
            if position(b, name, case_sensitive) is Some {
                let k = position(b, name, case_sensitive)->0;
                assert(a[k].0 == b[k].0);
            }
        },
    }
}

/// A lookup in a table with one more entry at its end finds what it found
/// before, or else the new entry if that answers to the name.
pub proof fn lemma_position_push(
    entries: Entries,
    key: Seq<char>,
    property: PropertyView,
    name: Seq<char>,
    case_sensitive: bool,
)
    ensures
        position(entries.push((key, property)), name, case_sensitive) == match position(
            entries,
            name,
            case_sensitive,
        ) {
            Some(i) => Some(i),
            None => if name_matches(key, name, case_sensitive) {
                Some(entries.len() as int)
            } else {
                None
            },
        },
{
    let after = entries.push((key, property));
    lemma_position(entries, name, case_sensitive);
    match position(entries, name, case_sensitive) {
        Some(i) => {
            assert(after[i] == entries[i]);
            assert forall|j: int| 0 <= j < i implies !name_matches(
                (#[trigger] after[j]).0,
                name,
                case_sensitive,
            ) by {
                assert(after[j] == entries[j]);
            }
            lemma_position_is(after, name, case_sensitive, i);
        },
        None => {
            assert forall|j: int| 0 <= j < entries.len() implies !name_matches(
                (#[trigger] after[j]).0,
                name,
                case_sensitive,
            ) by {
                assert(after[j] == entries[j]);
            }
            if name_matches(key, name, case_sensitive) {
                lemma_position_is(after, name, case_sensitive, entries.len() as int);
            } else {
                lemma_position(after, name, case_sensitive);
                if position(after, name, case_sensitive) is Some {
                    let k = position(after, name, case_sensitive)->0;
                    assert(k < entries.len() ==> after[k] == entries[k]);
                }
            }
        },
    }
}

/// An exact lookup in a table with distinct keys, after the entry at a place
/// went: the name of that entry is found no more, every other as before.
pub proof fn lemma_lookup_remove(entries: Entries, i: int, name: Seq<char>)
    requires
        distinct_keys(entries),
        0 <= i < entries.len(),
    ensures
        lookup(entries.remove(i), name, true) == if name == entries[i].0 {
            None
        } else {
            lookup(entries, name, true)
        },
{
    let after = entries.remove(i);
    lemma_position(entries, name, true);
    lemma_position(after, name, true);
    if name == entries[i].0 {
        if position(after, name, true) is Some {
            let k = position(after, name, true)->0;
            let k0 = if k < i { k } else { k + 1 };
            assert(after[k] == entries[k0]);
        }
    } else {
        match position(entries, name, true) {
            Some(j) => {
                let j1 = if j < i { j } else { j - 1 };
                assert(after[j1] == entries[j]);
                assert forall|m: int| 0 <= m < j1 implies !name_matches((#[trigger] after[m]).0, name, true) by {
                    let m0 = if m < i { m } else { m + 1 };
                    assert(after[m] == entries[m0]);
                    assert(entries[m0].0 != entries[j].0);
                }
                lemma_position_is(after, name, true, j1);
            },
            None => {
                if position(after, name, true) is Some {
                    let k = position(after, name, true)->0;
                    let k0 = if k < i { k } else { k + 1 };
                    assert(after[k] == entries[k0]);
                }
            },
        }
    }
}

/// A lookup that found an entry finds the same entry after another entry
/// went.
pub proof fn lemma_lookup_remove_other(entries: Entries, i: int, name: Seq<char>, case_sensitive: bool)
    requires
        0 <= i < entries.len(),
        position(entries, name, case_sensitive) matches Some(j) && j != i,
    ensures
        lookup(entries.remove(i), name, case_sensitive) == lookup(entries, name, case_sensitive),
        position(entries.remove(i), name, case_sensitive) == Some(
            if position(entries, name, case_sensitive)->0 < i {
                position(entries, name, case_sensitive)->0
            } else {
                position(entries, name, case_sensitive)->0 - 1
            },
        ),
{
    let after = entries.remove(i);
    lemma_position(entries, name, case_sensitive);
    let j = position(entries, name, case_sensitive)->0;
    let j1 = if j < i { j } else { j - 1 };
    assert(after[j1] == entries[j]);
    assert forall|m: int| 0 <= m < j1 implies !name_matches((#[trigger] after[m]).0, name, case_sensitive) by {
        let m0 = if m < i { m } else { m + 1 };
        assert(after[m] == entries[m0]);
    }
    lemma_position_is(after, name, case_sensitive, j1);
}

/// A lookup that found nothing finds nothing after an entry went.
pub proof fn lemma_remove_finds_none(entries: Entries, i: int, name: Seq<char>, case_sensitive: bool)
    requires
        0 <= i < entries.len(),
        position(entries, name, case_sensitive) is None,
    ensures
        position(entries.remove(i), name, case_sensitive) is None,
{
    let after = entries.remove(i);
    lemma_position(entries, name, case_sensitive);
    lemma_position(after, name, case_sensitive);
    if position(after, name, case_sensitive) is Some {
        let k = position(after, name, case_sensitive)->0;
        let k0 = if k < i { k } else { k + 1 };
        assert(after[k] == entries[k0]);
    }
}

/// What a lookup finds: the place of an entry, or that there is none.
#[derive(Clone, Copy, Debug, PartialEq, Eq, Structural)]
pub enum Entry {
    Occupied(usize),
    Vacant,
}

/// A property table.
#[derive(Debug)]
pub struct PropertyMap {
    slots: Vec<(String, Property)>,
}

impl View for PropertyMap {
    type V = Entries;

    closed spec fn view(&self) -> Entries {
        Seq::new(self.slots@.len(), |i: int| (self.slots@[i].0@, self.slots@[i].1@))
    }
}

impl PropertyMap {
    /// The keys of the table are distinct.
    pub open spec fn wf(&self) -> bool {
        distinct_keys(self@)
    }

    /// An empty table.
    pub fn new() -> (r: PropertyMap)
        ensures
            r@ == Seq::<(Seq<char>, PropertyView)>::empty(),
            r.wf(),
    {
        let r = PropertyMap { slots: Vec::new() };
        assert(r@ =~= Seq::<(Seq<char>, PropertyView)>::empty());
        r
    }

    /// The number of entries.
    pub fn len(&self) -> (r: usize)
        ensures
            r == self@.len(),
    {
        self.slots.len()
    }

    /// The key of the entry at a place, in insertion order.
    pub fn key_at(&self, index: usize) -> (r: &str)
        requires
            index < self@.len(),
        ensures
            r@ == self@[index as int].0,
    {
        self.slots[index].0.as_str()
    }

    /// The property of the entry at a place, in insertion order.
    pub fn property_at(&self, index: usize) -> (r: &Property)
        requires
            index < self@.len(),
        ensures
            r@ == self@[index as int].1,
    {
        &self.slots[index].1
    }

    /// The property of the entry at a place, to be changed where it stands.
    pub fn property_at_mut(&mut self, index: usize) -> (r: &mut Property)
        requires
            index < old(self)@.len(),
        ensures
            r@ == old(self)@[index as int].1,
            final(self)@ == old(self)@.update(
                index as int,
                (old(self)@[index as int].0, final(r)@),
            ),
    {
        let ghost before = self@;
        let r = &mut self.slots[index].1;
        proof {
            assert(after_borrow(self)@ =~= before.update(index as int, (before[index as int].0, final(r)@)));
        }
        r
    }

    /// Looks a name up, and says where its entry stands.
    pub fn entry(&self, name: &str, case_sensitive: bool) -> (r: Entry)
        ensures
            match r {
                Entry::Occupied(i) => position(self@, name@, case_sensitive) == Some(i as int),
                Entry::Vacant => position(self@, name@, case_sensitive) is None,
            },
    {
        let mut i: usize = 0;
        while i < self.slots.len()
            invariant
                0 <= i <= self.slots@.len(),
                forall|j: int| 0 <= j < i ==> !name_matches((#[trigger] self@[j]).0, name@, case_sensitive),
            decreases self.slots@.len() - i,
        {
            if names_match(self.slots[i].0.as_str(), name, case_sensitive) {
                proof {
                    assert(is_first_match(self@, name@, case_sensitive, i as int));
                    lemma_position_is(self@, name@, case_sensitive, i as int);
                }
                return Entry::Occupied(i);
            }
            i += 1;
        }
        proof {
            lemma_position(self@, name@, case_sensitive);
            if position(self@, name@, case_sensitive) is Some {
                let k = position(self@, name@, case_sensitive)->0;
                assert(!name_matches(self@[k].0, name@, case_sensitive));
            }
        }
        Entry::Vacant
    }

    /// Whether a lookup of the name finds an entry.
    pub fn contains_key(&self, name: &str, case_sensitive: bool) -> (r: bool)
        ensures
            r == has_key(self@, name@, case_sensitive),
    {
        match self.entry(name, case_sensitive) {
            Entry::Occupied(_) => true,
            Entry::Vacant => false,
        }
    }

    /// The property found under a name.
    pub fn get(&self, name: &str, case_sensitive: bool) -> (r: Option<&Property>)
        ensures
            match r {
                Some(p) => lookup(self@, name@, case_sensitive) == Some(p@),
                None => lookup(self@, name@, case_sensitive) is None,
            },
    {
        match self.entry(name, case_sensitive) {
            Entry::Occupied(i) => Some(&self.slots[i].1),
            Entry::Vacant => None,
        }
    }

    /// The property found under a name, to be changed where it stands.
    pub fn get_mut(&mut self, name: &str, case_sensitive: bool) -> (r: Option<&mut Property>)
        ensures
            match r {
                Some(p) => position(old(self)@, name@, case_sensitive) matches Some(i) && p@ == old(self)@[i].1
                    && final(self)@ == old(self)@.update(i, (old(self)@[i].0, final(p)@)),
                None => position(old(self)@, name@, case_sensitive) is None && final(self)@ == old(self)@,
            },
    {
        match self.entry(name, case_sensitive) {
            Entry::Occupied(i) => Some(self.property_at_mut(i)),
            Entry::Vacant => None,
        }
    }

    /// Inserts or replaces, and returns the property that was replaced.
    pub fn insert(&mut self, name: &str, property: Property, case_sensitive: bool) -> (r: Option<Property>)
        requires
            old(self).wf(),
        ensures
            final(self).wf(),
            final(self)@ == inserted(old(self)@, name@, property@, case_sensitive),
            match r {
                Some(p) => lookup(old(self)@, name@, case_sensitive) == Some(p@),
                None => lookup(old(self)@, name@, case_sensitive) is None,
            },
    {
        proof {
            lemma_inserted_distinct(self@, name@, property@, case_sensitive);
        }
        match self.entry(name, case_sensitive) {
            Entry::Occupied(i) => {
                let ghost before = self@;
                let ghost incoming = property@;
                let mut previous = property;
                core::mem::swap(&mut self.slots[i].1, &mut previous);
                assert(self@ =~= before.update(i as int, (before[i as int].0, incoming)));
                Some(previous)
            },
            Entry::Vacant => {
                let ghost before = self@;
                self.slots.push((name.to_owned(), property));
                assert(self@ =~= before.push((name@, property@)));
                None
            },
        }
    }

    /// Adds an entry at the end, under a name that no key equals.
    pub fn insert_vacant(&mut self, name: &str, property: Property)
        requires
            old(self).wf(),
            forall|j: int| 0 <= j < old(self)@.len() ==> (#[trigger] old(self)@[j]).0 != name@,
        ensures
            final(self).wf(),
            final(self)@ == old(self)@.push((name@, property@)),
    {
        let ghost before = self@;
        self.slots.push((name.to_owned(), property));
        assert(self@ =~= before.push((name@, property@)));
    }

    /// Removes the entry at a place; the others keep their order.
    pub fn remove_at(&mut self, index: usize) -> (r: Property)
        requires
            old(self).wf(),
            index < old(self)@.len(),
        ensures
            final(self).wf(),
            final(self)@ == old(self)@.remove(index as int),
            r@ == old(self)@[index as int].1,
    {
        let ghost before = self@;
        let gone = self.slots.remove(index);
        assert(self@ =~= before.remove(index as int));
        proof {
            let after = self@;
            assert forall|a: int, b: int|
                0 <= a < after.len() && 0 <= b < after.len() && a != b implies (#[trigger] after[a]).0 != (
            #[trigger] after[b]).0 by {
                let a0 = if a < index { a } else { a + 1 };
                let b0 = if b < index { b } else { b + 1 };
                assert(after[a] == before[a0]);
                assert(after[b] == before[b0]);
            }
        }
        gone.1
    }

    /// Removes the entry found under a name, and returns its property.
    pub fn remove(&mut self, name: &str, case_sensitive: bool) -> (r: Option<Property>)
        requires
            old(self).wf(),
        ensures
            final(self).wf(),
            final(self)@ == removed(old(self)@, name@, case_sensitive),
            match r {
                Some(p) => lookup(old(self)@, name@, case_sensitive) == Some(p@),
                None => lookup(old(self)@, name@, case_sensitive) is None,
            },
    {
        match self.entry(name, case_sensitive) {
            Entry::Occupied(i) => Some(self.remove_at(i)),
            Entry::Vacant => None,
        }
    }
}

} // verus!
