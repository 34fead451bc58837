//! The state of one script object: its property table, prototype link, array
//! overlay, type tag and interface list, with the operations that touch
//! nothing but the object itself.

use vstd::prelude::*;
use crate::names::{index_key, index_name};
use crate::number::{length_bits, number_of_length};
use crate::property::{Attribute, AttributeSet, Property, PropertyView};
use crate::property_map::{
    distinct_keys, has_key, inserted, lemma_inserted_distinct, lemma_position,
    lemma_removed_distinct, lookup, position, removed, Entries, Entry, PropertyMap,
};
use crate::value::{option_view, values_view, Executable, Object, Value, ValueView};

verus! {

/// The type tag of an object that nobody has tagged otherwise.
pub const TYPE_OF_OBJECT: &'static str = "object";

/// How an object keeps its indexed slots.
#[derive(Debug)]
pub enum ArrayStorage {
    /// Dense: the vector holds the slots `0..len`.
    Vector(Vec<Value>),
    /// The object only has a length; its slots are properties named by index.
    Properties { length: usize },
}

/// The mathematical content of an [`ArrayStorage`].
pub enum ArrayView {
    Vector(Seq<ValueView>),
    Properties { length: usize },
}

impl View for ArrayStorage {
    type V = ArrayView;

    open spec fn view(&self) -> ArrayView {
        match self {
            ArrayStorage::Vector(v) => ArrayView::Vector(values_view(v@)),
            ArrayStorage::Properties { length } => ArrayView::Properties { length: *length },
        }
    }
}

/// The value of the `length` property that mirrors an array length.
pub open spec fn length_value(n: usize) -> ValueView {
    ValueView::Number(number_of_length(n as nat) as u64)
}

/// The name of the `length` property.
pub open spec fn length_key() -> Seq<char> {
    "length"@
}

/// The attributes of a mirrored property when it is first made.
pub open spec fn native_attributes(enumerable: bool) -> AttributeSet {
    if enumerable {
        AttributeSet::spec_empty()
    } else {
        AttributeSet::spec_only(Attribute::DontEnum)
    }
}

/// Whether a lookup of the name under folding finds the entry that the exact
/// lookup finds, or both find none.
pub open spec fn found_exactly(entries: Entries, name: Seq<char>) -> bool {
    position(entries, name, false) == position(entries, name, true)
}

/// A property table after the array state was mirrored into it under `name`
/// (looked up under folding). A stored property there takes the value, or
/// goes when there is none; a missing one is made under the name, with the
/// attributes of a mirrored property; an accessor is left alone.
pub open spec fn synced(entries: Entries, name: Seq<char>, value: Option<ValueView>, enumerable: bool) -> Entries {
    match position(entries, name, false) {
        Some(i) => match entries[i].1 {
            PropertyView::Stored { attributes, .. } => match value {
                None => entries.remove(i),
                Some(v) => entries.update(
                    i,
                    (entries[i].0, PropertyView::Stored { value: v, attributes }),
                ),
            },
            PropertyView::Virtual { .. } => entries,
        },
        None => match value {
            Some(v) => entries.push(
                (name, PropertyView::Stored { value: v, attributes: native_attributes(enumerable) }),
            ),
            None => entries,
        },
    }
}

/// Whether an entry stays when the slots `from..to` are lost: every entry
/// but a stored property under the name of one of those indices.
pub open spec fn outlives(from: int, to: int) -> spec_fn((Seq<char>, PropertyView)) -> bool {
    |entry: (Seq<char>, PropertyView)|
        !(entry.1 is Stored && exists|i: usize| from <= i < to && entry.0 == #[trigger] index_key(i))
}

/// A property table without the mirrored entries of the slots `from..to`:
/// the entries that stay, in their order.
pub open spec fn unmirrored(entries: Entries, from: int, to: int) -> Entries {
    entries.filter(outlives(from, to))
}

/// A property table after the mirrored entries of the indices `from..to`
/// were taken out one by one, lowest index first.
pub open spec fn unmirrored_in_steps(entries: Entries, from: int, to: int) -> Entries
    decreases to - from,
{
    if from >= to || from < 0 || from > usize::MAX {
        entries
    } else {
        unmirrored_in_steps(synced(entries, index_key(from as usize), None, true), from + 1, to)
    }
}

/// A vector of slots cut or padded with `Undefined` to a length.
pub open spec fn resized(slots: Seq<ValueView>, n: int) -> Seq<ValueView> {
    Seq::new(n as nat, |i: int| if i < slots.len() { slots[i] } else { ValueView::Undefined })
}

/// What is found under `length` is a stored, hidden property that holds the
/// length.
pub open spec fn mirrors_length(found: Option<PropertyView>, length: nat) -> bool {
    match found {
        Some(PropertyView::Stored { value, attributes }) => value == length_value(length as usize)
            && attributes.has(Attribute::DontEnum),
        _ => false,
    }
}

/// What is found under `length` is a stored, hidden property, whatever it
/// holds.
pub open spec fn hidden_stored(found: Option<PropertyView>) -> bool {
    match found {
        Some(PropertyView::Stored { attributes, .. }) => attributes.has(Attribute::DontEnum),
        _ => false,
    }
}

/// What is found under the name of an index is nothing, or a stored property
/// that holds the slot at the index.
pub open spec fn mirrors_slot(found: Option<PropertyView>, slots: Seq<ValueView>, index: usize) -> bool {
    match found {
        None => true,
        Some(PropertyView::Stored { value, .. }) => index < slots.len() && value == slots[index as int],
        Some(PropertyView::Virtual { .. }) => false,
    }
}

/// The mathematical content of a [`ScriptObjectData`].
pub struct ObjectState {
    pub prototype: Option<Object>,
    pub values: Entries,
    pub interfaces: Seq<Object>,
    pub type_of: Seq<char>,
    pub array: ArrayView,
}

impl ObjectState {
    /// A fresh object without properties.
    pub open spec fn fresh(prototype: Option<Object>) -> ObjectState {
        ObjectState {
            prototype,
            values: Seq::empty(),
            interfaces: Seq::empty(),
            type_of: TYPE_OF_OBJECT@,
            array: ArrayView::Properties { length: 0 },
        }
    }

    /// A fresh array: no slots, and a hidden `length` property of zero.
    pub open spec fn fresh_array(prototype: Option<Object>) -> ObjectState {
        ObjectState {
            prototype,
            values: synced(Seq::empty(), length_key(), Some(length_value(0)), false),
            interfaces: Seq::empty(),
            type_of: TYPE_OF_OBJECT@,
            array: ArrayView::Vector(Seq::empty()),
        }
    }

    /// The object with another property table.
    pub open spec fn with_values(self, values: Entries) -> ObjectState {
        ObjectState { values, ..self }
    }

    /// The object after a piece of array state was mirrored under a name.
    pub open spec fn sync_native_property(self, name: Seq<char>, value: Option<ValueView>, enumerable: bool) -> ObjectState {
        self.with_values(synced(self.values, name, value, enumerable))
    }

    /// The length of the array overlay.
    pub open spec fn length(self) -> nat {
        match self.array {
            ArrayView::Vector(slots) => slots.len(),
            ArrayView::Properties { length } => length as nat,
        }
    }

    /// The object after its length was set: a vector is cut or padded, and
    /// the mirrored entries of the slots cut away go; the `length` property
    /// takes the new length.
    pub open spec fn set_length(self, n: usize) -> ObjectState {
        let (array, values) = match self.array {
            ArrayView::Vector(slots) => (
                ArrayView::Vector(resized(slots, n as int)),
                unmirrored(self.values, n as int, slots.len() as int),
            ),
            ArrayView::Properties { .. } => (ArrayView::Properties { length: n }, self.values),
        };
        ObjectState { array, values: synced(values, length_key(), Some(length_value(n)), false), ..self }
    }

    /// The slot at an index, as the object answers for it: a slot of the
    /// vector, or below the length the stored property under the index's
    /// name, and `Undefined` where there is neither.
    pub open spec fn array_element(self, index: usize) -> ValueView {
        match self.array {
            ArrayView::Vector(slots) => if index < slots.len() {
                slots[index as int]
            } else {
                ValueView::Undefined
            },
            ArrayView::Properties { length } => if index < length {
                match lookup(self.values, index_key(index), false) {
                    Some(PropertyView::Stored { value, .. }) => value,
                    _ => ValueView::Undefined,
                }
            } else {
                ValueView::Undefined
            },
        }
    }

    /// The slots `0..length` as the object answers for them.
    pub open spec fn array_values(self) -> Seq<ValueView> {
        Seq::new(self.length(), |i: int| self.array_element(i as usize))
    }

    /// The object after a slot was written: the value is mirrored under the
    /// index name; a vector grows to hold the slot, takes the value, and has
    /// its length mirrored.
    pub open spec fn set_array_element(self, index: usize, value: ValueView) -> ObjectState {
        let values = synced(self.values, index_key(index), Some(value), true);
        match self.array {
            ArrayView::Vector(slots) => {
                let grown = if index >= slots.len() {
                    resized(slots, index + 1)
                } else {
                    slots
                };
                let after = grown.update(index as int, value);
                ObjectState {
                    array: ArrayView::Vector(after),
                    values: synced(values, length_key(), Some(length_value(after.len() as usize)), false),
                    ..self
                }
            },
            ArrayView::Properties { .. } => ObjectState { values, ..self },
        }
    }

    /// The object after a slot of its vector was emptied: the slot holds
    /// `Undefined` and its mirrored entry is gone; the length stays.
    pub open spec fn delete_array_element(self, index: usize) -> ObjectState {
        match self.array {
            ArrayView::Vector(slots) => if index < slots.len() {
                ObjectState {
                    array: ArrayView::Vector(slots.update(index as int, ValueView::Undefined)),
                    values: synced(self.values, index_key(index), None, true),
                    ..self
                }
            } else {
                self
            },
            ArrayView::Properties { .. } => self,
        }
    }

    /// Whether the write of a value under `length`, after the length was
    /// set, finds no property of the object under that name: so it is where
    /// names are compared as written and the length went to a property whose
    /// key differs from `length` in case.
    pub open spec fn length_write_walks(self, case_sensitive: bool) -> bool {
        &&& case_sensitive
        &&& has_key(self.values, length_key(), false)
        &&& !has_key(self.values, length_key(), true)
    }

    /// The property table mirrors the slots of an array: a property under
    /// the name of an index is a stored one that holds the slot at that
    /// index, and the `length` property, which a lookup finds first in either
    /// mode, is stored and hidden. This much holds of an array whatever was
    /// written to it, also under `length`.
    pub open spec fn slots_mirrored(self) -> bool {
        self.array matches ArrayView::Vector(slots) ==> {
            &&& found_exactly(self.values, length_key())
            &&& hidden_stored(lookup(self.values, length_key(), true))
            &&& forall|index: usize|
                mirrors_slot(#[trigger] lookup(self.values, index_key(index), true), slots, index)
        }
    }

    /// The property table mirrors the vector of an array: the hidden
    /// `length` property, which a lookup finds first in either mode, holds
    /// the vector's length, and a property under the name of an index is a
    /// stored one that holds the slot at that index. An object that is no
    /// array has nothing to mirror.
    pub open spec fn mirrored(self) -> bool {
        self.array matches ArrayView::Vector(slots) ==> {
            &&& found_exactly(self.values, length_key())
            &&& mirrors_length(lookup(self.values, length_key(), true), slots.len())
            &&& forall|index: usize|
                mirrors_slot(#[trigger] lookup(self.values, index_key(index), true), slots, index)
        }
    }

    /// An accessor holds the name.
    pub open spec fn has_own_virtual(self, name: Seq<char>, case_sensitive: bool) -> bool {
        match lookup(self.values, name, case_sensitive) {
            Some(p) => p.is_virtual(),
            None => false,
        }
    }

    /// An enumerable property holds the name.
    pub open spec fn is_property_enumerable(self, name: Seq<char>, case_sensitive: bool) -> bool {
        match lookup(self.values, name, case_sensitive) {
            Some(p) => p.is_enumerable(),
            None => false,
        }
    }

    /// The setter of the accessor found under a name, if there is one.
    pub open spec fn call_setter(self, name: Seq<char>, case_sensitive: bool) -> Option<Executable> {
        match lookup(self.values, name, case_sensitive) {
            Some(p) => p.setter(),
            None => None,
        }
    }

    /// Whether a removal under this name takes anything away.
    pub open spec fn can_delete(self, name: Seq<char>, case_sensitive: bool) -> bool {
        match lookup(self.values, name, case_sensitive) {
            Some(p) => p.can_delete(),
            None => false,
        }
    }

    /// The object after a removal: without the property, if it may be deleted.
    pub open spec fn delete(self, name: Seq<char>, case_sensitive: bool) -> ObjectState {
        if self.can_delete(name, case_sensitive) {
            self.with_values(removed(self.values, name, case_sensitive))
        } else {
            self
        }
    }

    /// The object after a write to its own table: the property found takes
    /// the write, or a plain stored property is made.
    pub open spec fn write_own(self, name: Seq<char>, value: ValueView, case_sensitive: bool) -> ObjectState {
        match position(self.values, name, case_sensitive) {
            Some(i) => self.with_values(
                self.values.update(i, (self.values[i].0, self.values[i].1.written(value))),
            ),
            None => self.with_values(
                self.values.push(
                    (name, PropertyView::Stored { value, attributes: AttributeSet::spec_empty() }),
                ),
            ),
        }
    }

    /// The object after a stored property was made under an exact name.
    pub open spec fn define_value(self, name: Seq<char>, value: ValueView, attributes: AttributeSet) -> ObjectState {
        self.with_values(inserted(self.values, name, PropertyView::Stored { value, attributes }, true))
    }

    /// The object after an accessor was made under a name.
    pub open spec fn add_property(
        self,
        name: Seq<char>,
        get: Executable,
        set: Option<Executable>,
        attributes: AttributeSet,
        case_sensitive: bool,
    ) -> ObjectState {
        self.with_values(
            inserted(self.values, name, PropertyView::Virtual { get, set, attributes }, case_sensitive),
        )
    }

    /// The object after the attributes of one property (found under folding)
    /// or of all were changed: `clear` is taken away, `set` is added.
    pub open spec fn set_attributes(self, name: Option<Seq<char>>, set: AttributeSet, clear: AttributeSet) -> ObjectState {
        match name {
            None => self.with_values(
                Seq::new(
                    self.values.len(),
                    |i: int|
                        (
                            self.values[i].0,
                            self.values[i].1.with_attributes(
                                self.values[i].1.attributes().spec_apply(set, clear),
                            ),
                        ),
                ),
            ),
            Some(n) => match position(self.values, n, false) {
                Some(i) => self.with_values(
                    self.values.update(
                        i,
                        (
                            self.values[i].0,
                            self.values[i].1.with_attributes(
                                self.values[i].1.attributes().spec_apply(set, clear),
                            ),
                        ),
                    ),
                ),
                None => self,
            },
        }
    }
}

/// The name of an index is neither `length` nor the prototype's name.
pub proof fn lemma_index_key_plain(index: usize)
    ensures
        index_key(index) != length_key(),
        index_key(index) != proto_key(),
{
    crate::names::lemma_decimal_digits(index as nat);
    reveal_strlit("length");
    reveal_strlit("__proto__");
    let k = index_key(index);
    assert(crate::names::is_digit(k[0]));
    assert(length_key()[0] == 'l');
    assert(proto_key()[0] == '_');
}

/// The name that stands for the prototype link and is never listed.
pub open spec fn proto_key() -> Seq<char> {
    "__proto__"@
}

/// The keys of the enumerable entries, in insertion order, the prototype's
/// name left out.
pub open spec fn enumerable_keys(entries: Entries) -> Seq<Seq<char>>
    decreases entries.len(),
{
    if entries.len() == 0 {
        Seq::empty()
    } else {
        let rest = enumerable_keys(entries.drop_last());
        let last = entries.last();
        if last.1.is_enumerable() && last.0 != proto_key() {
            rest.push(last.0)
        } else {
            rest
        }
    }
}

/// A table in which no entry matches a name holds no key equal to it.
pub proof fn lemma_vacant_no_key(entries: Entries, name: Seq<char>, case_sensitive: bool)
    requires
        position(entries, name, case_sensitive) is None,
    ensures
        forall|j: int| 0 <= j < entries.len() ==> (#[trigger] entries[j]).0 != name,
{
    lemma_position(entries, name, case_sensitive);
    assert forall|j: int| 0 <= j < entries.len() implies (#[trigger] entries[j]).0 != name by {
        assert(!crate::names::name_matches(entries[j].0, name, case_sensitive));
    }
}

/// Mirroring keeps the keys distinct.
pub proof fn lemma_synced_distinct(entries: Entries, name: Seq<char>, value: Option<ValueView>, enumerable: bool)
    requires
        distinct_keys(entries),
    ensures
        distinct_keys(synced(entries, name, value, enumerable)),
{
    lemma_position(entries, name, false);
    match position(entries, name, false) {
        Some(i) => {
            match entries[i].1 {
                PropertyView::Stored { attributes, .. } => match value {
                    None => {
                        lemma_removed_distinct(entries, name, false);
                    },
                    Some(v) => {
                        lemma_inserted_distinct(
                            entries,
                            name,
                            PropertyView::Stored { value: v, attributes },
                            false,
                        );
                    },
                },
                PropertyView::Virtual { .. } => {},
            }
        },
        None => {
            match value {
                Some(v) => {
                    lemma_inserted_distinct(
                        entries,
                        name,
                        PropertyView::Stored { value: v, attributes: native_attributes(enumerable) },
                        false,
                    );
                },
                None => {},
            }
        },
    }
}

/// After a value was mirrored under a name, a lookup under folding finds a
/// property; an exact lookup finds one unless the value went to a property
/// whose key differs from the name in case.
pub proof fn lemma_synced_present(entries: Entries, name: Seq<char>, value: ValueView, enumerable: bool)
    ensures
        has_key(synced(entries, name, Some(value), enumerable), name, false),
        has_key(synced(entries, name, Some(value), enumerable), name, true) == (!has_key(entries, name, false)
            || has_key(entries, name, true)),
{
    let after = synced(entries, name, Some(value), enumerable);
    lemma_position(entries, name, false);
    lemma_position(entries, name, true);
    match position(entries, name, false) {
        Some(i) => {
            assert(after.len() == entries.len());
            assert forall|j: int| 0 <= j < after.len() implies (#[trigger] after[j]).0 == entries[j].0 by {}
            crate::property_map::lemma_position_by_keys(after, entries, name, false);
            crate::property_map::lemma_position_by_keys(after, entries, name, true);
        },
        None => {
            let made = PropertyView::Stored { value, attributes: native_attributes(enumerable) };
            crate::property_map::lemma_position_push(entries, name, made, name, false);
            crate::property_map::lemma_position_push(entries, name, made, name, true);
            if position(entries, name, true) is Some {
                let k = position(entries, name, true)->0;
                assert(crate::names::name_matches(entries[k].0, name, false));
            }
        },
    }
}

/// Under the name of an index, a lookup finds the same with and without
/// folding.
pub proof fn lemma_exact_is_enough(entries: Entries, index: usize, case_sensitive: bool)
    ensures
        position(entries, index_key(index), case_sensitive) == position(entries, index_key(index), true),
        found_exactly(entries, index_key(index)),
{
    let key = index_key(index);
    lemma_position(entries, key, true);
    assert forall|j: int| 0 <= j < entries.len() implies crate::names::name_matches(
        (#[trigger] entries[j]).0,
        key,
        false,
    ) == crate::names::name_matches(entries[j].0, key, true) by {
        crate::names::lemma_index_key_rigid(entries[j].0, index, false);
        crate::names::lemma_index_key_rigid(entries[j].0, index, true);
    }
    match position(entries, key, true) {
        Some(i) => {
            crate::property_map::lemma_position_is(entries, key, false, i);
        },
        None => {
            lemma_position(entries, key, false);
        },
    }
}

/// An exact lookup after a value was mirrored, or a mirrored entry taken
/// out, under a key that folding finds where the exact lookup does: under
/// that key a stored property has the value or is gone, an accessor stays, a
/// missing property is made; under any other name nothing changes.
pub proof fn lemma_synced_lookup(
    entries: Entries,
    key: Seq<char>,
    value: Option<ValueView>,
    enumerable: bool,
    name: Seq<char>,
)
    requires
        distinct_keys(entries),
        found_exactly(entries, key),
    ensures
        lookup(synced(entries, key, value, enumerable), name, true) == if name == key {
            match lookup(entries, key, true) {
                Some(PropertyView::Stored { attributes, .. }) => match value {
                    Some(v) => Some(PropertyView::Stored { value: v, attributes }),
                    None => None,
                },
                Some(PropertyView::Virtual { get, set, attributes }) => Some(
                    PropertyView::Virtual { get, set, attributes },
                ),
                None => match value {
                    Some(v) => Some(
                        PropertyView::Stored { value: v, attributes: native_attributes(enumerable) },
                    ),
                    None => None,
                },
            }
        } else {
            lookup(entries, name, true)
        },
{
    let after = synced(entries, key, value, enumerable);
    lemma_position(entries, key, true);
    lemma_position(entries, name, true);
    match position(entries, key, true) {
        Some(i) => {
            match entries[i].1 {
                PropertyView::Stored { attributes, .. } => match value {
                    None => {
                        crate::property_map::lemma_lookup_remove(entries, i, name);
                    },
                    Some(v) => {
                        crate::property_map::lemma_position_by_keys(entries, after, name, true);
                    },
                },
                PropertyView::Virtual { .. } => {},
            }
        },
        None => {
            match value {
                Some(v) => {
                    crate::property_map::lemma_position_push(
                        entries,
                        key,
                        PropertyView::Stored { value: v, attributes: native_attributes(enumerable) },
                        name,
                        true,
                    );
                    if position(entries, name, true) is Some {
                        let j = position(entries, name, true)->0;
                        assert(after[j] == entries[j]);
                    }
                },
                None => {},
            }
        },
    }
}

/// An exact lookup after the mirrored entries of the indices `from..to`
/// were taken out: a stored property under the name of one of them is gone,
/// everything else is as before.
proof fn lemma_steps_lookup(entries: Entries, from: int, to: int, name: Seq<char>)
    requires
        distinct_keys(entries),
        0 <= from,
    ensures
        lookup(unmirrored_in_steps(entries, from, to), name, true) == if lookup(entries, name, true) matches Some(
            PropertyView::Stored { .. },
        ) && exists|i: usize| from <= i < to && name == #[trigger] index_key(i) {
            None
        } else {
            lookup(entries, name, true)
        },
    decreases to - from,
{
    if from >= to || from > usize::MAX {
        if from > usize::MAX {
            assert(!exists|i: usize| from <= i < to && name == #[trigger] index_key(i));
        }
    } else {
        let key = index_key(from as usize);
        let next = synced(entries, key, None, true);
        lemma_synced_distinct(entries, key, None, true);
        lemma_exact_is_enough(entries, from as usize, false);
        lemma_synced_lookup(entries, key, None, true, name);
        lemma_steps_lookup(next, from + 1, to, name);
        let in_range = exists|i: usize| from <= i < to && name == #[trigger] index_key(i);
        let in_rest = exists|i: usize| from + 1 <= i < to && name == #[trigger] index_key(i);
        if name == key {
            assert(from <= (from as usize) < to && name == index_key(from as usize));
        } else {
            if in_range {
                let i = choose|i: usize| from <= i < to && name == #[trigger] index_key(i);
                assert(from + 1 <= i < to && name == index_key(i));
            }
            if in_rest {
                let i = choose|i: usize| from + 1 <= i < to && name == #[trigger] index_key(i);
                assert(from <= i < to && name == index_key(i));
            }
        }
    }
}

/// Mirroring never touches an accessor: a lookup, in either mode, that found
/// an accessor finds it as it was.
pub proof fn lemma_synced_keeps_accessor(
    entries: Entries,
    key: Seq<char>,
    value: Option<ValueView>,
    enumerable: bool,
    name: Seq<char>,
    case_sensitive: bool,
)
    requires
        lookup(entries, name, case_sensitive) matches Some(PropertyView::Virtual { .. }),
    ensures
        lookup(synced(entries, key, value, enumerable), name, case_sensitive) == lookup(
            entries,
            name,
            case_sensitive,
        ),
{
    let after = synced(entries, key, value, enumerable);
    lemma_position(entries, key, false);
    lemma_position(entries, name, case_sensitive);
    let j = position(entries, name, case_sensitive)->0;
    match position(entries, key, false) {
        Some(i) => {
            match entries[i].1 {
                PropertyView::Stored { attributes, .. } => match value {
                    None => {
                        crate::property_map::lemma_lookup_remove_other(entries, i, name, case_sensitive);
                    },
                    Some(v) => {
                        crate::property_map::lemma_position_by_keys(entries, after, name, case_sensitive);
                        assert(after[j] == entries[j]);
                    },
                },
                PropertyView::Virtual { .. } => {},
            }
        },
        None => {
            match value {
                Some(v) => {
                    crate::property_map::lemma_position_push(
                        entries,
                        key,
                        PropertyView::Stored { value: v, attributes: native_attributes(enumerable) },
                        name,
                        case_sensitive,
                    );
                    assert(after[j] == entries[j]);
                },
                None => {},
            }
        },
    }
}

/// Taking mirrored entries out never touches an accessor.
proof fn lemma_steps_keep_accessor(
    entries: Entries,
    from: int,
    to: int,
    name: Seq<char>,
    case_sensitive: bool,
)
    requires
        lookup(entries, name, case_sensitive) matches Some(PropertyView::Virtual { .. }),
    ensures
        lookup(unmirrored_in_steps(entries, from, to), name, case_sensitive) == lookup(
            entries,
            name,
            case_sensitive,
        ),
    decreases to - from,
{
    if from >= to || from < 0 || from > usize::MAX {
    } else {
        let key = index_key(from as usize);
        lemma_synced_keeps_accessor(entries, key, None, true, name, case_sensitive);
        lemma_steps_keep_accessor(synced(entries, key, None, true), from + 1, to, name, case_sensitive);
    }
}

/// Taking mirrored entries out keeps the keys distinct.
proof fn lemma_steps_distinct(entries: Entries, from: int, to: int)
    requires
        distinct_keys(entries),
    ensures
        distinct_keys(unmirrored_in_steps(entries, from, to)),
    decreases to - from,
{
    if from >= to || from < 0 || from > usize::MAX {
    } else {
        lemma_synced_distinct(entries, index_key(from as usize), None, true);
        lemma_steps_distinct(synced(entries, index_key(from as usize), None, true), from + 1, to);
    }
}

/// Two conditions that agree on every element of a sequence keep the same.
pub proof fn lemma_filter_same<A>(s: Seq<A>, first: spec_fn(A) -> bool, second: spec_fn(A) -> bool)
    requires
        forall|i: int| 0 <= i < s.len() ==> first(#[trigger] s[i]) == second(s[i]),
    ensures
        s.filter(first) == s.filter(second),
    decreases s.len(),
{
    reveal(Seq::filter);
    if s.len() > 0 {
        let front = s.drop_last();
        assert forall|i: int| 0 <= i < front.len() implies first(#[trigger] front[i]) == second(front[i]) by {
            assert(front[i] == s[i]);
        }
        lemma_filter_same(front, first, second);
        assert(first(s[s.len() - 1]) == second(s[s.len() - 1]));
    }
}

/// A condition that every element meets keeps the whole sequence.
pub proof fn lemma_filter_all<A>(s: Seq<A>, condition: spec_fn(A) -> bool)
    requires
        forall|i: int| 0 <= i < s.len() ==> condition(#[trigger] s[i]),
    ensures
        s.filter(condition) == s,
    decreases s.len(),
{
    reveal(Seq::filter);
    if s.len() > 0 {
        let front = s.drop_last();
        assert forall|i: int| 0 <= i < front.len() implies condition(#[trigger] front[i]) by {
            assert(front[i] == s[i]);
        }
        lemma_filter_all(front, condition);
        assert(condition(s[s.len() - 1]));
        assert(front.push(s.last()) =~= s);
    }
}

/// An element that fails a condition can go before or after the others are
/// kept: the result is the same.
pub proof fn lemma_filter_remove<A>(s: Seq<A>, i: int, condition: spec_fn(A) -> bool)
    requires
        0 <= i < s.len(),
        !condition(s[i]),
    ensures
        s.remove(i).filter(condition) == s.filter(condition),
{
    let a = s.take(i);
    let x = seq![s[i]];
    let b = s.skip(i + 1);
    assert(s =~= a + x + b);
    assert(s.remove(i) =~= a + b);
    Seq::filter_distributes_over_add(a + x, b, condition);
    Seq::filter_distributes_over_add(a, x, condition);
    Seq::filter_distributes_over_add(a, b, condition);
    assert(x.filter(condition) =~= Seq::<A>::empty()) by {
        reveal(Seq::filter);
        assert(x.drop_last() =~= Seq::<A>::empty());
        assert(x.drop_last().filter(condition) =~= Seq::<A>::empty());
    }
    assert(a.filter(condition) + x.filter(condition) =~= a.filter(condition));
}

/// Taking the mirrored entries out one by one leaves the entries that
/// outlive the slots.
pub proof fn lemma_unmirrored_in_steps(entries: Entries, from: int, to: int)
    requires
        distinct_keys(entries),
        0 <= from,
    ensures
        unmirrored_in_steps(entries, from, to) == unmirrored(entries, from, to),
    decreases to - from,
{
    if from >= to || from > usize::MAX {
        assert forall|i: int| 0 <= i < entries.len() implies outlives(from, to)(#[trigger] entries[i]) by {}
        lemma_filter_all(entries, outlives(from, to));
    } else {
        let key = index_key(from as usize);
        let next = synced(entries, key, None, true);
        lemma_synced_distinct(entries, key, None, true);
        lemma_unmirrored_in_steps(next, from + 1, to);
        lemma_exact_is_enough(entries, from as usize, false);
        lemma_position(entries, key, true);
        let gone = position(entries, key, true) matches Some(i) && entries[i].1 is Stored;
        if gone {
            let i = position(entries, key, true)->0;
            assert(from <= (from as usize) < to && entries[i].0 == index_key(from as usize));
            assert(!outlives(from, to)(entries[i]));
            lemma_filter_remove(entries, i, outlives(from, to));
            assert forall|j: int| 0 <= j < next.len() implies outlives(from, to)(#[trigger] next[j]) == outlives(
                from + 1,
                to,
            )(next[j]) by {
                let j0 = if j < i { j } else { j + 1 };
                assert(next[j] == entries[j0]);
                assert(entries[j0].0 != entries[i].0);
                lemma_outlives_step(next[j], from, to);
            }
        } else {
            assert forall|j: int| 0 <= j < next.len() implies outlives(from, to)(#[trigger] next[j]) == outlives(
                from + 1,
                to,
            )(next[j]) by {
                if next[j].0 == key {
                    let i = position(entries, key, true)->0;
                    assert(i == j) by {
                        if i != j {
                            assert(entries[i].0 != entries[j].0);
                        }
                    }
                }
                lemma_outlives_step(next[j], from, to);
            }
        }
        lemma_filter_same(next, outlives(from, to), outlives(from + 1, to));
    }
}

/// An entry outlives the slots `from..to` exactly when it outlives the slots
/// after `from` and is not the mirror of `from` itself.
proof fn lemma_outlives_step(entry: (Seq<char>, PropertyView), from: int, to: int)
    requires
        0 <= from <= usize::MAX,
        from < to,
    ensures
        outlives(from, to)(entry) == (outlives(from + 1, to)(entry) && !(entry.1 is Stored && entry.0
            == index_key(from as usize))),
{
    let wide = exists|i: usize| from <= i < to && entry.0 == #[trigger] index_key(i);
    let narrow = exists|i: usize| from + 1 <= i < to && entry.0 == #[trigger] index_key(i);
    if wide {
        let i = choose|i: usize| from <= i < to && entry.0 == #[trigger] index_key(i);
        if i != from {
            assert(from + 1 <= i < to && entry.0 == index_key(i));
        }
    }
    if narrow {
        let i = choose|i: usize| from + 1 <= i < to && entry.0 == #[trigger] index_key(i);
        assert(from <= i < to && entry.0 == index_key(i));
    }
    if entry.0 == index_key(from as usize) {
        assert(from <= (from as usize) < to && entry.0 == index_key(from as usize));
    }
}

/// An exact lookup in a table without the mirrored entries of the slots
/// `from..to`: a stored property under the name of one of those indices is
/// gone, everything else is as before.
pub proof fn lemma_unmirrored_lookup(entries: Entries, from: int, to: int, name: Seq<char>)
    requires
        distinct_keys(entries),
        0 <= from,
    ensures
        lookup(unmirrored(entries, from, to), name, true) == if lookup(entries, name, true) matches Some(
            PropertyView::Stored { .. },
        ) && exists|i: usize| from <= i < to && name == #[trigger] index_key(i) {
            None
        } else {
            lookup(entries, name, true)
        },
{
    lemma_unmirrored_in_steps(entries, from, to);
    lemma_steps_lookup(entries, from, to, name);
}

/// A table without the mirrored entries of lost slots still holds every
/// accessor: a lookup, in either mode, that found one finds it as it was.
pub proof fn lemma_unmirrored_keeps_accessor(
    entries: Entries,
    from: int,
    to: int,
    name: Seq<char>,
    case_sensitive: bool,
)
    requires
        distinct_keys(entries),
        0 <= from,
        lookup(entries, name, case_sensitive) matches Some(PropertyView::Virtual { .. }),
    ensures
        lookup(unmirrored(entries, from, to), name, case_sensitive) == lookup(entries, name, case_sensitive),
{
    lemma_unmirrored_in_steps(entries, from, to);
    lemma_steps_keep_accessor(entries, from, to, name, case_sensitive);
}

/// A table without the mirrored entries of lost slots has distinct keys.
pub proof fn lemma_unmirrored_distinct(entries: Entries, from: int, to: int)
    requires
        distinct_keys(entries),
        0 <= from,
    ensures
        distinct_keys(unmirrored(entries, from, to)),
{
    lemma_unmirrored_in_steps(entries, from, to);
    lemma_steps_distinct(entries, from, to);
}

/// Mirroring under one name leaves a lookup of another name where it was in
/// both modes, where the other name does not answer to the first under
/// folding.
pub proof fn lemma_synced_keeps_found(
    entries: Entries,
    key: Seq<char>,
    value: Option<ValueView>,
    enumerable: bool,
    name: Seq<char>,
)
    requires
        found_exactly(entries, key),
        found_exactly(entries, name),
        !crate::names::name_matches(key, name, false),
    ensures
        found_exactly(synced(entries, key, value, enumerable), name),
        has_key(synced(entries, key, value, enumerable), name, false) == has_key(entries, name, false),
{
    let after = synced(entries, key, value, enumerable);
    lemma_position(entries, key, false);
    lemma_position(entries, name, false);
    lemma_position(entries, name, true);
    match position(entries, key, false) {
        Some(i) => {
            match entries[i].1 {
                PropertyView::Stored { attributes, .. } => match value {
                    None => {
                        if position(entries, name, false) is Some {
                            let j = position(entries, name, false)->0;
                            assert(entries[i].0 == key);
                            assert(entries[j].0 == name);
                            crate::property_map::lemma_lookup_remove_other(entries, i, name, false);
                            crate::property_map::lemma_lookup_remove_other(entries, i, name, true);
                        } else {
                            crate::property_map::lemma_remove_finds_none(entries, i, name, false);
                            crate::property_map::lemma_remove_finds_none(entries, i, name, true);
                        }
                    },
                    Some(v) => {
                        crate::property_map::lemma_position_by_keys(entries, after, name, false);
                        crate::property_map::lemma_position_by_keys(entries, after, name, true);
                    },
                },
                PropertyView::Virtual { .. } => {},
            }
        },
        None => {
            match value {
                Some(v) => {
                    let made = PropertyView::Stored { value: v, attributes: native_attributes(enumerable) };
                    crate::property_map::lemma_position_push(entries, key, made, name, false);
                    crate::property_map::lemma_position_push(entries, key, made, name, true);
                },
                None => {},
            }
        },
    }
}

/// No name of an index answers to `length`, in either mode.
pub proof fn lemma_index_key_misses_length(index: usize, case_sensitive: bool)
    ensures
        !crate::names::name_matches(index_key(index), length_key(), case_sensitive),
{
    lemma_index_key_plain(index);
    crate::names::lemma_index_key_rigid(length_key(), index, false);
    if crate::names::fold_eq(index_key(index), length_key()) {
        assert(crate::names::fold_eq(length_key(), index_key(index))) by {
            let a = index_key(index);
            let b = length_key();
            assert forall|i: int| 0 <= i < b.len() implies crate::names::fold_char(#[trigger] b[i])
                == crate::names::fold_char(a[i]) by {
                assert(crate::names::fold_char(a[i]) == crate::names::fold_char(b[i]));
            }
        }
    }
}

/// Taking mirrored entries out one by one leaves the lookup of `length`
/// where it was in both modes.
proof fn lemma_steps_keep_length(entries: Entries, from: int, to: int)
    requires
        found_exactly(entries, length_key()),
    ensures
        found_exactly(unmirrored_in_steps(entries, from, to), length_key()),
        has_key(unmirrored_in_steps(entries, from, to), length_key(), false) == has_key(
            entries,
            length_key(),
            false,
        ),
    decreases to - from,
{
    if from >= to || from < 0 || from > usize::MAX {
    } else {
        let key = index_key(from as usize);
        lemma_exact_is_enough(entries, from as usize, false);
        lemma_index_key_misses_length(from as usize, false);
        lemma_synced_keeps_found(entries, key, None, true, length_key());
        lemma_steps_keep_length(synced(entries, key, None, true), from + 1, to);
    }
}

/// A table without the mirrored entries of lost slots finds `length` where
/// the table found it, in both modes.
pub proof fn lemma_unmirrored_keeps_length(entries: Entries, from: int, to: int)
    requires
        distinct_keys(entries),
        0 <= from,
        found_exactly(entries, length_key()),
    ensures
        found_exactly(unmirrored(entries, from, to), length_key()),
        has_key(unmirrored(entries, from, to), length_key(), false) == has_key(entries, length_key(), false),
{
    lemma_unmirrored_in_steps(entries, from, to);
    lemma_steps_keep_length(entries, from, to);
}

/// Taking mirrored entries out one by one keeps what a lookup of `length`
/// finds, in either mode.
proof fn lemma_steps_keep_length_key(entries: Entries, from: int, to: int, case_sensitive: bool)
    ensures
        lookup(unmirrored_in_steps(entries, from, to), length_key(), case_sensitive) == lookup(
            entries,
            length_key(),
            case_sensitive,
        ),
    decreases to - from,
{
    if from >= to || from < 0 || from > usize::MAX {
    } else {
        let key = index_key(from as usize);
        let next = synced(entries, key, None, true);
        lemma_position(entries, key, false);
        lemma_position(entries, length_key(), case_sensitive);
        lemma_exact_is_enough(entries, from as usize, false);
        lemma_index_key_misses_length(from as usize, case_sensitive);
        if next != entries {
            let i = position(entries, key, false)->0;
            assert(entries[i].0 == key);
            if position(entries, length_key(), case_sensitive) is Some {
                crate::property_map::lemma_lookup_remove_other(entries, i, length_key(), case_sensitive);
            } else {
                crate::property_map::lemma_remove_finds_none(entries, i, length_key(), case_sensitive);
            }
        }
        lemma_steps_keep_length_key(next, from + 1, to, case_sensitive);
    }
}

/// A table without the mirrored entries of lost slots finds under `length`
/// what the table found, in either mode.
pub proof fn lemma_unmirrored_keeps_length_lookup(entries: Entries, from: int, to: int, case_sensitive: bool)
    requires
        distinct_keys(entries),
        0 <= from,
    ensures
        lookup(unmirrored(entries, from, to), length_key(), case_sensitive) == lookup(
            entries,
            length_key(),
            case_sensitive,
        ),
{
    lemma_unmirrored_in_steps(entries, from, to);
    lemma_steps_keep_length_key(entries, from, to, case_sensitive);
}

/// An exact lookup of a name finds the same after mirroring under a key that
/// the name does not answer to under folding.
pub proof fn lemma_synced_lookup_other(
    entries: Entries,
    key: Seq<char>,
    value: Option<ValueView>,
    enumerable: bool,
    name: Seq<char>,
)
    requires
        distinct_keys(entries),
        !crate::names::name_matches(name, key, false),
    ensures
        lookup(synced(entries, key, value, enumerable), name, true) == lookup(entries, name, true),
{
    let after = synced(entries, key, value, enumerable);
    lemma_position(entries, key, false);
    lemma_position(entries, name, true);
    match position(entries, key, false) {
        Some(i) => {
            match entries[i].1 {
                PropertyView::Stored { attributes, .. } => match value {
                    None => {
                        crate::property_map::lemma_lookup_remove(entries, i, name);
                    },
                    Some(v) => {
                        crate::property_map::lemma_position_by_keys(entries, after, name, true);
                        if position(entries, name, true) is Some {
                            assert(after[position(entries, name, true)->0] == entries[position(
                                entries,
                                name,
                                true,
                            )->0]);
                        }
                    },
                },
                PropertyView::Virtual { .. } => {},
            }
        },
        None => {
            match value {
                Some(v) => {
                    let made = PropertyView::Stored { value: v, attributes: native_attributes(enumerable) };
                    crate::property_map::lemma_position_push(entries, key, made, name, true);
                    if position(entries, name, true) is Some {
                        assert(after[position(entries, name, true)->0] == entries[position(
                            entries,
                            name,
                            true,
                        )->0]);
                    }
                },
                None => {},
            }
        },
    }
}

/// After a value was mirrored under a key, a lookup of the key under folding
/// finds it: in the stored property that was found, under its attributes, or
/// in a new one; an accessor that was found stays.
pub proof fn lemma_synced_found(entries: Entries, key: Seq<char>, value: ValueView, enumerable: bool)
    ensures
        lookup(synced(entries, key, Some(value), enumerable), key, false) == match lookup(entries, key, false) {
            Some(PropertyView::Stored { attributes, .. }) => Some(PropertyView::Stored { value, attributes }),
            Some(PropertyView::Virtual { get, set, attributes }) => Some(
                PropertyView::Virtual { get, set, attributes },
            ),
            None => Some(PropertyView::Stored { value, attributes: native_attributes(enumerable) }),
        },
        found_exactly(entries, key) ==> found_exactly(synced(entries, key, Some(value), enumerable), key),
{
    let after = synced(entries, key, Some(value), enumerable);
    lemma_position(entries, key, false);
    lemma_position(entries, key, true);
    match position(entries, key, false) {
        Some(i) => {
            assert(after.len() == entries.len());
            assert forall|j: int| 0 <= j < after.len() implies (#[trigger] entries[j]).0 == after[j].0 by {}
            crate::property_map::lemma_position_by_keys(entries, after, key, false);
            crate::property_map::lemma_position_by_keys(entries, after, key, true);
        },
        None => {
            let made = PropertyView::Stored { value, attributes: native_attributes(enumerable) };
            crate::property_map::lemma_position_push(entries, key, made, key, false);
            crate::property_map::lemma_position_push(entries, key, made, key, true);
            if position(entries, key, true) is Some {
                let k = position(entries, key, true)->0;
                assert(crate::names::name_matches(entries[k].0, key, false));
            }
        },
    }
}

/// After the length was set, a lookup of `length` finds a property of the
/// object unless the write of the value has to look further.
pub proof fn lemma_length_present(state: ObjectState, n: usize, case_sensitive: bool)
    requires
        distinct_keys(state.values),
    ensures
        has_key(state.set_length(n).values, length_key(), case_sensitive) == !state.length_write_walks(
            case_sensitive,
        ),
{
    let cut = match state.array {
        ArrayView::Vector(slots) => unmirrored(state.values, n as int, slots.len() as int),
        ArrayView::Properties { .. } => state.values,
    };
    if state.array is Vector {
        let slots = state.array->Vector_0;
        lemma_unmirrored_keeps_length_lookup(state.values, n as int, slots.len() as int, false);
        lemma_unmirrored_keeps_length_lookup(state.values, n as int, slots.len() as int, true);
    }
    lemma_synced_present(cut, length_key(), length_value(n), false);
}

/// The state of one script object.
#[derive(Debug)]
pub struct ScriptObjectData {
    prototype: Option<Object>,
    values: PropertyMap,
    interfaces: Vec<Object>,
    type_of: &'static str,
    array: ArrayStorage,
}

impl View for ScriptObjectData {
    type V = ObjectState;

    closed spec fn view(&self) -> ObjectState {
        ObjectState {
            prototype: self.prototype,
            values: self.values@,
            interfaces: self.interfaces@,
            type_of: self.type_of@,
            array: self.array@,
        }
    }
}

impl ScriptObjectData {
    /// The keys of the property table are distinct.
    pub open spec fn wf(&self) -> bool {
        distinct_keys(self@.values)
    }

    /// An empty object.
    pub fn new(prototype: Option<Object>) -> (r: ScriptObjectData)
        ensures
            r.wf(),
            r@ == ObjectState::fresh(prototype),
    {
        let r = ScriptObjectData {
            prototype,
            values: PropertyMap::new(),
            interfaces: Vec::new(),
            type_of: TYPE_OF_OBJECT,
            array: ArrayStorage::Properties { length: 0 },
        };
        assert(r@.interfaces =~= Seq::empty());
        r
    }

    /// An empty array.
    pub fn new_array(prototype: Option<Object>) -> (r: ScriptObjectData)
        ensures
            r.wf(),
            r@ == ObjectState::fresh_array(prototype),
    {
        let mut r = ScriptObjectData {
            prototype,
            values: PropertyMap::new(),
            interfaces: Vec::new(),
            type_of: TYPE_OF_OBJECT,
            array: ArrayStorage::Vector(Vec::new()),
        };
        assert(r@.interfaces =~= Seq::empty());
        assert(r@.array == ArrayView::Vector(Seq::empty())) by {
            assert(values_view(Seq::<Value>::empty()) =~= Seq::empty());
        }
        r.sync_native_property("length", Some(Value::Number(length_bits(0))), false);
        r
    }

    /// Mirrors a piece of array state into the property table under a name.
    pub fn sync_native_property(&mut self, name: &str, native_value: Option<Value>, is_enumerable: bool)
        requires
            old(self).wf(),
        ensures
            final(self).wf(),
            final(self)@ == old(self)@.sync_native_property(
                name@,
                option_view(native_value),
                is_enumerable,
            ),
    {
        proof {
            lemma_synced_distinct(self@.values, name@, option_view(native_value), is_enumerable);
        }
        match self.values.entry(name, false) {
            Entry::Occupied(i) => {
                if !self.values.property_at(i).is_virtual() {
                    match native_value {
                        None => {
                            self.values.remove_at(i);
                        },
                        Some(v) => {
                            match self.values.property_at_mut(i) {
                                Property::Stored { value, .. } => {
                                    *value = v;
                                },
                                Property::Virtual { .. } => {},
                            }
                        },
                    }
                }
            },
            Entry::Vacant => {
                if let Some(v) = native_value {
                    proof {
                        lemma_vacant_no_key(self@.values, name@, false);
                    }
                    let attributes = if is_enumerable {
                        AttributeSet::empty()
                    } else {
                        AttributeSet::only(Attribute::DontEnum)
                    };
                    self.values.insert_vacant(name, Property::Stored { value: v, attributes });
                }
            },
        }
    }

    /// The length of the array overlay.
    pub fn length(&self) -> (r: usize)
        ensures
            r == self@.length(),
    {
        match &self.array {
            ArrayStorage::Vector(vector) => vector.len(),
            ArrayStorage::Properties { length } => *length,
        }
    }

    /// Sets the length of the array overlay and mirrors it.
    pub fn set_length(&mut self, new_length: usize)
        requires
            old(self).wf(),
        ensures
            final(self).wf(),
            final(self)@ == old(self)@.set_length(new_length),
    {
        let ghost before = self@;
        let mut old_length: usize = new_length;
        match &mut self.array {
            ArrayStorage::Vector(vector) => {
                old_length = vector.len();
                vector.resize(new_length, Value::Undefined);
                assert(values_view(vector@) =~= resized(before.array->Vector_0, new_length as int));
            },
            ArrayStorage::Properties { length } => {
                *length = new_length;
            },
        }
        let mut i: usize = new_length;
        while i < old_length
            invariant
                new_length <= i,
                self.wf(),
                self@.prototype == before.prototype,
                self@.interfaces == before.interfaces,
                self@.type_of == before.type_of,
                before.array is Properties ==> old_length == new_length,
                before.array is Vector ==> old_length == before.array->Vector_0.len(),
                self@.array == before.set_length(new_length).array,
                unmirrored_in_steps(self@.values, i as int, old_length as int) == unmirrored_in_steps(
                    before.values,
                    new_length as int,
                    old_length as int,
                ),
            decreases old_length - i,
        {
            let key = index_name(i);
            self.sync_native_property(key.as_str(), None, true);
            i += 1;
        }
        proof {
            lemma_unmirrored_in_steps(before.values, new_length as int, old_length as int);
        }
        self.sync_native_property("length", Some(Value::Number(length_bits(new_length))), false);
    }

    /// The slot at an index, as the object answers for it.
    pub fn array_element(&self, index: usize) -> (r: Value)
        ensures
            r@ == self@.array_element(index),
    {
        match &self.array {
            ArrayStorage::Vector(vector) => {
                if index < vector.len() {
                    vector[index].clone()
                } else {
                    Value::Undefined
                }
            },
            ArrayStorage::Properties { length } => {
                if index < *length {
                    let key = index_name(index);
                    if let Some(Property::Stored { value, .. }) = self.values.get(key.as_str(), false) {
                        return value.clone();
                    }
                }
                Value::Undefined
            },
        }
    }

    /// The slots `0..length`.
    pub fn array(&self) -> (r: Vec<Value>)
        ensures
            values_view(r@) == self@.array_values(),
    {
        let length = self.length();
        let mut values: Vec<Value> = Vec::new();
        let mut i: usize = 0;
        while i < length
            invariant
                i <= length,
                length == self@.length(),
                values@.len() == i,
                forall|j: int| 0 <= j < i ==> (#[trigger] values@[j])@ == self@.array_element(j as usize),
            decreases length - i,
        {
            values.push(self.array_element(i));
            i += 1;
        }
        assert(values_view(values@) =~= self@.array_values());
        values
    }

    /// Writes a slot and mirrors it; returns the length afterwards.
    pub fn set_array_element(&mut self, index: usize, value: Value) -> (r: usize)
        requires
            old(self).wf(),
            old(self)@.array is Vector ==> index < usize::MAX,
        ensures
            final(self).wf(),
            final(self)@ == old(self)@.set_array_element(index, value@),
            r == final(self)@.length(),
    {
        let ghost before = self@;
        let key = index_name(index);
        self.sync_native_property(key.as_str(), Some(value.clone()), true);
        let mut adjust_length = false;
        let length = match &mut self.array {
            ArrayStorage::Vector(vector) => {
                if index >= vector.len() {
                    vector.resize(index + 1, Value::Undefined);
                }
                vector[index] = value;
                adjust_length = true;
                assert(values_view(vector@) =~= before.set_array_element(index, value@).array->Vector_0);
                vector.len()
            },
            ArrayStorage::Properties { length } => *length,
        };
        if adjust_length {
            self.sync_native_property("length", Some(Value::Number(length_bits(length))), false);
        }
        length
    }

    /// Empties a slot of a vector and takes its mirrored entry out; the
    /// length stays.
    pub fn delete_array_element(&mut self, index: usize)
        requires
            old(self).wf(),
        ensures
            final(self).wf(),
            final(self)@ == old(self)@.delete_array_element(index),
    {
        let ghost before = self@;
        let mut emptied = false;
        if let ArrayStorage::Vector(vector) = &mut self.array {
            if index < vector.len() {
                vector[index] = Value::Undefined;
                assert(values_view(vector@) =~= before.array->Vector_0.update(
                    index as int,
                    ValueView::Undefined,
                ));
                emptied = true;
            }
        }
        if emptied {
            let key = index_name(index);
            self.sync_native_property(key.as_str(), None, true);
        }
    }

    /// The prototype.
    pub fn proto(&self) -> (r: Option<Object>)
        ensures
            r == self@.prototype,
    {
        self.prototype
    }

    /// Sets the prototype.
    pub fn set_proto(&mut self, prototype: Option<Object>)
        ensures
            final(self)@ == (ObjectState { prototype, ..old(self)@ }),
    {
        self.prototype = prototype;
    }

    /// The type tag.
    pub fn type_of(&self) -> (r: &'static str)
        ensures
            r@ == self@.type_of,
    {
        self.type_of
    }

    /// Sets the type tag.
    pub fn set_type_of(&mut self, type_of: &'static str)
        ensures
            final(self)@ == (ObjectState { type_of: type_of@, ..old(self)@ }),
    {
        self.type_of = type_of;
    }

    /// The interfaces that the object implements.
    pub fn interfaces(&self) -> (r: Vec<Object>)
        ensures
            r@ == self@.interfaces,
    {
        let r = self.interfaces.clone();
        assert(r@ =~= self.interfaces@);
        r
    }

    /// Sets the interfaces that the object implements.
    pub fn set_interfaces(&mut self, iface_list: Vec<Object>)
        ensures
            final(self)@ == (ObjectState { interfaces: iface_list@, ..old(self)@ }),
    {
        self.interfaces = iface_list;
    }

    /// Whether the object keeps its slots in a vector.
    pub fn is_array(&self) -> (r: bool)
        ensures
            r == (self@.array is Vector),
    {
        match &self.array {
            ArrayStorage::Vector(_) => true,
            ArrayStorage::Properties { .. } => false,
        }
    }

    /// The own property found under a name.
    pub fn get(&self, name: &str, case_sensitive: bool) -> (r: Option<&Property>)
        ensures
            match r {
                Some(p) => lookup(self@.values, name@, case_sensitive) == Some(p@),
                None => lookup(self@.values, name@, case_sensitive) is None,
            },
    {
        self.values.get(name, case_sensitive)
    }

    /// Whether the object has a property of its own under the name.
    pub fn contains_key(&self, name: &str, case_sensitive: bool) -> (r: bool)
        ensures
            r == has_key(self@.values, name@, case_sensitive),
    {
        self.values.contains_key(name, case_sensitive)
    }

    /// Whether an accessor of the object holds the name.
    pub fn has_own_virtual(&self, name: &str, case_sensitive: bool) -> (r: bool)
        ensures
            r == self@.has_own_virtual(name@, case_sensitive),
    {
        match self.values.get(name, case_sensitive) {
            Some(slot) => slot.is_virtual(),
            None => false,
        }
    }

    /// Whether an enumerable property of the object holds the name.
    pub fn is_property_enumerable(&self, name: &str, case_sensitive: bool) -> (r: bool)
        ensures
            r == self@.is_property_enumerable(name@, case_sensitive),
    {
        match self.values.get(name, case_sensitive) {
            Some(prop) => prop.is_enumerable(),
            None => false,
        }
    }

    /// The setter that a write through the accessor under a name must run.
    pub fn call_setter(&self, name: &str, case_sensitive: bool) -> (r: Option<Executable>)
        ensures
            r == self@.call_setter(name@, case_sensitive),
    {
        match self.values.get(name, case_sensitive) {
            Some(Property::Virtual { set, .. }) => *set,
            _ => None,
        }
    }

    /// Removes a property unless it is missing or may not be deleted.
    pub fn delete(&mut self, name: &str, case_sensitive: bool) -> (r: bool)
        requires
            old(self).wf(),
        ensures
            final(self).wf(),
            r == old(self)@.can_delete(name@, case_sensitive),
            final(self)@ == old(self)@.delete(name@, case_sensitive),
    {
        proof {
            lemma_removed_distinct(self@.values, name@, case_sensitive);
        }
        match self.values.entry(name, case_sensitive) {
            Entry::Occupied(i) => {
                if self.values.property_at(i).can_delete() {
                    self.values.remove_at(i);
                    true
                } else {
                    false
                }
            },
            Entry::Vacant => false,
        }
    }

    /// Writes to the own table, and returns the setter to run if the name
    /// is held by an accessor that has one.
    pub fn write_own(&mut self, name: &str, value: Value, case_sensitive: bool) -> (r: Option<Executable>)
        requires
            old(self).wf(),
        ensures
            final(self).wf(),
            final(self)@ == old(self)@.write_own(name@, value@, case_sensitive),
            r == old(self)@.call_setter(name@, case_sensitive),
    {
        let ghost before = self@.values;
        match self.values.entry(name, case_sensitive) {
            Entry::Occupied(i) => {
                let r = self.values.property_at_mut(i).set(value);
                proof {
                    let after = self@.values;
                    assert forall|a: int, b: int|
                        0 <= a < after.len() && 0 <= b < after.len() && a != b implies (
                    #[trigger] after[a]).0 != (#[trigger] after[b]).0 by {
                        assert(after[a].0 == before[a].0);
                        assert(after[b].0 == before[b].0);
                    }
                }
                r
            },
            Entry::Vacant => {
                proof {
                    lemma_vacant_no_key(before, name@, case_sensitive);
                }
                self.values.insert_vacant(
                    name,
                    Property::Stored { value, attributes: AttributeSet::empty() },
                );
                None
            },
        }
    }

    /// Makes a stored property, in place of whatever the exact name held.
    pub fn define_value(&mut self, name: &str, value: Value, attributes: AttributeSet)
        requires
            old(self).wf(),
        ensures
            final(self).wf(),
            final(self)@ == old(self)@.define_value(name@, value@, attributes),
    {
        self.values.insert(name, Property::Stored { value, attributes }, true);
    }

    /// Makes an accessor, in place of whatever the name held.
    pub fn add_property(
        &mut self,
        name: &str,
        get: Executable,
        set: Option<Executable>,
        attributes: AttributeSet,
        case_sensitive: bool,
    )
        requires
            old(self).wf(),
        ensures
            final(self).wf(),
            final(self)@ == old(self)@.add_property(name@, get, set, attributes, case_sensitive),
    {
        self.values.insert(name, Property::Virtual { get, set, attributes }, case_sensitive);
    }

    /// Changes the attributes of one property, or of all.
    pub fn set_attributes(&mut self, name: Option<&str>, set_attributes: AttributeSet, clear_attributes: AttributeSet)
        requires
            old(self).wf(),
        ensures
            final(self).wf(),
            final(self)@ == old(self)@.set_attributes(
                match name {
                    Some(n) => Some(n@),
                    None => None,
                },
                set_attributes,
                clear_attributes,
            ),
    {
        let ghost before = self@;
        match name {
            None => {
                let count = self.values.len();
                let mut i: usize = 0;
                while i < count
                    invariant
                        i <= count,
                        count == before.values.len(),
                        self@.values.len() == count,
                        self@.prototype == before.prototype,
                        self@.interfaces == before.interfaces,
                        self@.type_of == before.type_of,
                        self@.array == before.array,
                        forall|j: int| 0 <= j < count ==> (#[trigger] self@.values[j]).0 == before.values[j].0,
                        forall|j: int|
                            0 <= j < i ==> (#[trigger] self@.values[j]).1 == before.values[j].1.with_attributes(
                                before.values[j].1.attributes().spec_apply(set_attributes, clear_attributes),
                            ),
                        forall|j: int| i <= j < count ==> (#[trigger] self@.values[j]).1 == before.values[j].1,
                    decreases count - i,
                {
                    let prop = self.values.property_at_mut(i);
                    let new_atts = prop.attributes().difference(clear_attributes).union(set_attributes);
                    prop.set_attributes(new_atts);
                    i += 1;
                }
                assert(self@.values =~= before.set_attributes(None, set_attributes, clear_attributes).values);
            },
            Some(name) => {
                match self.values.entry(name, false) {
                    Entry::Occupied(i) => {
                        let prop = self.values.property_at_mut(i);
                        let new_atts = prop.attributes().difference(clear_attributes).union(set_attributes);
                        prop.set_attributes(new_atts);
                    },
                    Entry::Vacant => {},
                }
            },
        }
        proof {
            let after = self@.values;
            assert forall|a: int, b: int|
                0 <= a < after.len() && 0 <= b < after.len() && a != b implies (#[trigger] after[a]).0 != (
            #[trigger] after[b]).0 by {
                assert(after[a].0 == before.values[a].0);
                assert(after[b].0 == before.values[b].0);
            }
        }
    }

    /// The names that enumeration lists for the object itself.
    pub fn own_keys(&self) -> (r: Vec<String>)
        ensures
            crate::names::names_view(r@) == enumerable_keys(self@.values),
    {
        let mut out: Vec<String> = Vec::new();
        let count = self.values.len();
        let mut i: usize = 0;
        assert(self@.values.take(0) =~= Seq::empty());
        while i < count
            invariant
                i <= count,
                count == self@.values.len(),
                crate::names::names_view(out@) == enumerable_keys(self@.values.take(i as int)),
            decreases count - i,
        {
            let ghost before = out@;
            proof {
                assert(self@.values.take(i + 1).drop_last() =~= self@.values.take(i as int));
            }
            let key = self.values.key_at(i);
            if self.values.property_at(i).is_enumerable() && !crate::names::names_match(key, "__proto__", true) {
                out.push(key.to_owned());
                assert(crate::names::names_view(out@) =~= crate::names::names_view(before).push(key@));
            }
            i += 1;
        }
        assert(self@.values.take(count as int) =~= self@.values);
        out
    }

    /// The names of a list that the object does not shadow, in their order.
    pub fn unshadowed_names(&self, names: &Vec<String>, case_sensitive: bool) -> (r: Vec<String>)
        ensures
            crate::names::names_view(r@) == crate::object::unshadowed(
                crate::names::names_view(names@),
                self@.values,
                case_sensitive,
            ),
    {
        let mut out: Vec<String> = Vec::new();
        let mut i: usize = 0;
        let ghost all = crate::names::names_view(names@);
        assert(all.take(0) =~= Seq::empty());
        assert(crate::names::names_view(out@) =~= Seq::empty());
        while i < names.len()
            invariant
                i <= names@.len(),
                all == crate::names::names_view(names@),
                crate::names::names_view(out@) == crate::object::unshadowed(
                    all.take(i as int),
                    self@.values,
                    case_sensitive,
                ),
            decreases names@.len() - i,
        {
            let ghost before = out@;
            proof {
                assert(all.take(i + 1).drop_last() =~= all.take(i as int));
                assert(all.take(i + 1).last() == names@[i as int]@);
            }
            if !self.values.contains_key(names[i].as_str(), case_sensitive) {
                out.push(names[i].clone());
                assert(crate::names::names_view(out@) =~= crate::names::names_view(before).push(names@[i as int]@));
            }
            i += 1;
        }
        assert(all.take(names@.len() as int) =~= all);
        out
    }
}

} // verus!
