//! What holds of the object model as a whole, proved from the definitions
//! that the contracts of its operations use.

use vstd::prelude::*;
use crate::heap::{CellView, HeapView};
use crate::names::{index_key, is_digit, name_matches, parsed_index};
use crate::object::{first_where, unshadowed, written_length, LookupView, SetOutcomeView};
use crate::object_data::{
    enumerable_keys, found_exactly, lemma_exact_is_enough, lemma_index_key_misses_length,
    lemma_synced_distinct, lemma_synced_found, lemma_synced_keeps_found, lemma_synced_lookup_other,
    lemma_unmirrored_keeps_length, lemma_unmirrored_keeps_length_lookup, lemma_synced_lookup, lemma_unmirrored_distinct,
    lemma_unmirrored_lookup, length_key, length_value, mirrors_slot, native_attributes, proto_key,
    resized, synced, unmirrored, ArrayView, ObjectState,
};
use crate::property::{Attribute, AttributeSet, PropertyView};
use crate::property_map::{
    distinct_keys, has_key, inserted, is_first_match, keys, lemma_lookup_remove, lemma_position,
    lemma_position_by_keys, lemma_position_is, lemma_position_push, lookup, position, Entries,
};
use crate::value::{InvocationView, Object, ScriptObject, SharedObject, ValueView};

verus! {

/// A property that carries `DontDelete` is not deleted: the removal reports
/// failure and leaves the heap, and so every read, as it was.
pub proof fn law_dont_delete(h: HeapView, o: Object, name: Seq<char>, case_sensitive: bool)
    requires
        h.wf(),
        h.has(o),
        lookup(h.state(o).values, name, case_sensitive) matches Some(p) && p.attributes().has(
            Attribute::DontDelete,
        ),
    ensures
        !h.state(o).can_delete(name, case_sensitive),
        h.state(o).delete(name, case_sensitive) == h.state(o),
        h.change(o, h.state(o).delete(name, case_sensitive)) == h,
        h.change(o, h.state(o).delete(name, case_sensitive)).get(o, name, case_sensitive) == h.get(
            o,
            name,
            case_sensitive,
        ),
{
    lemma_change_same(h, o);
}

/// Putting back the state that an object has changes nothing.
pub proof fn lemma_change_same(h: HeapView, o: Object)
    requires
        h.wf(),
        h.has(o),
    ensures
        h.change(o, h.state(o)) == h,
{
    let b = h.base(o);
    match o {
        Object::ScriptObject(s) => {},
        Object::SharedObject(s) => {},
    }
    assert(h.cells[b.index as int] is Script);
    assert(h.change(o, h.state(o)).cells =~= h.cells);
}

/// Two handles of one heap have the same identity exactly when they are the
/// same handle, whatever the kinds of their objects.
pub proof fn law_identity(h: HeapView, a: Object, b: Object)
    requires
        h.has(a),
        h.has(b),
    ensures
        HeapView::address(a) == HeapView::address(b) <==> a == b,
{
}

/// The names that the walk along any chain lists never include the name of
/// the prototype link.
pub proof fn lemma_keys_along_without_proto(h: HeapView, s: Seq<Object>, case_sensitive: bool)
    ensures
        !h.keys_along(s, case_sensitive).contains(proto_key()),
    decreases s.len(),
{
    if s.len() > 0 {
        let own = h.state(s[0]).values;
        let inherited = h.keys_along(s.skip(1), case_sensitive);
        lemma_keys_along_without_proto(h, s.skip(1), case_sensitive);
        lemma_unshadowed(inherited, own, case_sensitive);
        lemma_enumerable_keys(own);
        let all = unshadowed(inherited, own, case_sensitive) + enumerable_keys(own);
        if all.contains(proto_key()) {
            let i = choose|i: int| 0 <= i < all.len() && all[i] == proto_key();
            if i < unshadowed(inherited, own, case_sensitive).len() {
                assert(unshadowed(inherited, own, case_sensitive).contains(all[i]));
            } else {
                assert(enumerable_keys(own).contains(
                    enumerable_keys(own)[i - unshadowed(inherited, own, case_sensitive).len()],
                ));
            }
        }
    }
}

/// Enumeration never lists the name of the prototype link.
pub proof fn law_keys_without_proto(h: HeapView, o: Object, case_sensitive: bool)
    ensures
        !h.get_keys(o, case_sensitive).contains(proto_key()),
{
    lemma_keys_along_without_proto(h, h.chain(o), case_sensitive);
}

/// The names kept are names of the list that the table has no key for, and
/// are as many times in the result as in the list.
pub proof fn lemma_unshadowed(names: Seq<Seq<char>>, entries: Entries, case_sensitive: bool)
    ensures
        forall|n: Seq<char>| #[trigger]
            unshadowed(names, entries, case_sensitive).contains(n) <==> names.contains(n) && !has_key(
                entries,
                n,
                case_sensitive,
            ),
        names.no_duplicates() ==> unshadowed(names, entries, case_sensitive).no_duplicates(),
    decreases names.len(),
{
    if names.len() > 0 {
        let front = names.drop_last();
        let rest = unshadowed(front, entries, case_sensitive);
        let last = names.last();
        let result = unshadowed(names, entries, case_sensitive);
        lemma_unshadowed(front, entries, case_sensitive);
        assert forall|n: Seq<char>| #[trigger] result.contains(n) <==> names.contains(n) && !has_key(
            entries,
            n,
            case_sensitive,
        ) by {
            if result.contains(n) {
                let i = choose|i: int| 0 <= i < result.len() && result[i] == n;
                if i < rest.len() {
                    assert(rest.contains(result[i]));
                    let j = choose|j: int| 0 <= j < front.len() && front[j] == n;
                    assert(names[j] == n);
                } else {
                    assert(names[names.len() - 1] == n);
                }
            }
            if names.contains(n) && !has_key(entries, n, case_sensitive) {
                let j = choose|j: int| 0 <= j < names.len() && names[j] == n;
                if j < front.len() {
                    assert(front[j] == n);
                    assert(rest.contains(n));
                    let i = choose|i: int| 0 <= i < rest.len() && rest[i] == n;
                    assert(result[i] == n);
                } else {
                    assert(result[result.len() - 1] == n);
                }
            }
        }
        if names.no_duplicates() {
            assert(front.no_duplicates());
            if !has_key(entries, last, case_sensitive) {
                assert forall|a: int, b: int| 0 <= a < result.len() && 0 <= b < result.len() && a != b implies result[a]
                    != result[b] by {
                    if a < rest.len() && b < rest.len() {
                    } else {
                        let c = if a < rest.len() { a } else { b };
                        assert(rest.contains(rest[c]));
                        assert(front.contains(rest[c]));
                        let j = choose|j: int| 0 <= j < front.len() && front[j] == rest[c];
                        assert(names[j] == rest[c]);
                    }
                }
            }
        }
    }
}

/// The names listed for a table are keys of enumerable entries, none is the
/// name of the prototype link, and with distinct keys none comes twice.
pub proof fn lemma_enumerable_keys(entries: Entries)
    ensures
        forall|n: Seq<char>| #[trigger]
            enumerable_keys(entries).contains(n) <==> n != proto_key() && exists|i: int|
                0 <= i < entries.len() && (#[trigger] entries[i]).0 == n && entries[i].1.is_enumerable(),
        distinct_keys(entries) ==> enumerable_keys(entries).no_duplicates(),
    decreases entries.len(),
{
    if entries.len() > 0 {
        let front = entries.drop_last();
        let rest = enumerable_keys(front);
        let last = entries.last();
        let result = enumerable_keys(entries);
        lemma_enumerable_keys(front);
        let listed = last.1.is_enumerable() && last.0 != proto_key();
        assert forall|n: Seq<char>| #[trigger] result.contains(n) <==> n != proto_key() && exists|i: int|
            0 <= i < entries.len() && (#[trigger] entries[i]).0 == n && entries[i].1.is_enumerable() by {
            if result.contains(n) {
                let i = choose|i: int| 0 <= i < result.len() && result[i] == n;
                if i < rest.len() {
                    assert(rest.contains(result[i]));
                    let j = choose|j: int|
                        0 <= j < front.len() && (#[trigger] front[j]).0 == n && front[j].1.is_enumerable();
                    assert(entries[j] == front[j]);
                } else {
                    assert(entries[entries.len() - 1].0 == n);
                }
            }
            if n != proto_key() && exists|i: int|
                0 <= i < entries.len() && (#[trigger] entries[i]).0 == n && entries[i].1.is_enumerable() {
                let j = choose|j: int|
                    0 <= j < entries.len() && (#[trigger] entries[j]).0 == n && entries[j].1.is_enumerable();
                if j < front.len() {
                    assert(front[j] == entries[j]);
                    assert(rest.contains(n));
                    let i = choose|i: int| 0 <= i < rest.len() && rest[i] == n;
                    assert(result[i] == n);
                } else {
                    assert(result[result.len() - 1] == n);
                }
            }
        }
        if distinct_keys(entries) {
            assert(distinct_keys(front)) by {
                assert forall|a: int, b: int|
                    0 <= a < front.len() && 0 <= b < front.len() && a != b implies (#[trigger] front[a]).0 != (
                #[trigger] front[b]).0 by {
                    assert(front[a] == entries[a]);
                    assert(front[b] == entries[b]);
                }
            }
            if listed {
                assert forall|a: int, b: int| 0 <= a < result.len() && 0 <= b < result.len() && a != b implies result[a]
                    != result[b] by {
                    if a < rest.len() && b < rest.len() {
                    } else {
                        let c = if a < rest.len() { a } else { b };
                        assert(rest.contains(rest[c]));
                        let j = choose|j: int|
                            0 <= j < front.len() && (#[trigger] front[j]).0 == rest[c] && front[j].1.is_enumerable();
                        assert(entries[j] == front[j]);
                        assert(entries[j].0 != entries[entries.len() - 1].0);
                    }
                }
            }
        }
    }
}

/// Enumeration lists first what the prototype lists and the object does not
/// shadow, then the object's own enumerable names: exactly those, in that
/// order.
pub proof fn law_keys_order(h: HeapView, o: Object, case_sensitive: bool)
    requires
        h.has_chain(o),
    ensures
        h.get_keys(o, case_sensitive) == unshadowed(
            match h.proto(o) {
                Some(p) => h.get_keys(p, case_sensitive),
                None => Seq::empty(),
            },
            h.state(o).values,
            case_sensitive,
        ) + enumerable_keys(h.state(o).values),
{
    h.lemma_chain_step(o);
    let s = h.chain(o);
    assert(s.len() > 0 && s[0] == o);
    match h.proto(o) {
        Some(p) => {
            assert(s.skip(1) =~= h.chain(p));
        },
        None => {
            assert(s.skip(1) =~= Seq::empty());
            assert(h.keys_along(s.skip(1), case_sensitive) =~= Seq::empty());
        },
    }
}

/// The names listed along a chain of objects of a well-formed heap are all
/// different.
pub proof fn lemma_keys_along_distinct(h: HeapView, s: Seq<Object>, case_sensitive: bool)
    requires
        h.wf(),
        forall|i: int| 0 <= i < s.len() ==> h.has(#[trigger] s[i]),
    ensures
        h.keys_along(s, case_sensitive).no_duplicates(),
    decreases s.len(),
{
    if s.len() > 0 {
        let own = h.state(s[0]).values;
        let rest = s.skip(1);
        assert forall|i: int| 0 <= i < rest.len() implies h.has(#[trigger] rest[i]) by {
            assert(rest[i] == s[i + 1]);
        }
        lemma_keys_along_distinct(h, rest, case_sensitive);
        let inherited = h.keys_along(rest, case_sensitive);
        lemma_unshadowed(inherited, own, case_sensitive);
        assert(h.has(s[0]));
        let b = h.base(s[0]);
        assert(h.cells[b.index as int] is Script);
        assert(distinct_keys(own));
        lemma_enumerable_keys(own);
        let first = unshadowed(inherited, own, case_sensitive);
        let second = enumerable_keys(own);
        let all = first + second;
        assert forall|a: int, b: int| 0 <= a < all.len() && 0 <= b < all.len() && a != b implies all[a]
            != all[b] by {
            if a < first.len() && b < first.len() {
            } else if a >= first.len() && b >= first.len() {
            } else {
                let x = if a < first.len() { a } else { b };
                let y = if a < first.len() { b } else { a };
                assert(first.contains(first[x]));
                assert(second.contains(second[y - first.len()]));
                let n = second[y - first.len()];
                if first[x] == n {
                    let j = choose|j: int| 0 <= j < own.len() && (#[trigger] own[j]).0 == n && own[j].1.is_enumerable();
                    lemma_position(own, n, case_sensitive);
                    assert(name_matches(own[j].0, n, case_sensitive));
                }
            }
        }
    }
}

/// Enumeration lists no name twice.
pub proof fn law_keys_once(h: HeapView, o: Object, case_sensitive: bool)
    requires
        h.wf(),
        h.has(o),
        h.has_chain(o),
    ensures
        h.get_keys(o, case_sensitive).no_duplicates(),
{
    let s = h.chain(o);
    assert forall|i: int| 0 <= i < s.len() implies h.has(#[trigger] s[i]) by {
        h.lemma_chain_in_heap(o, i);
    }
    lemma_keys_along_distinct(h, s, case_sensitive);
}

/// A slot that was written is read back: always in a vector; in an object
/// that keeps its slots as properties, where the index is below the length
/// and no accessor holds the index's name.
pub proof fn law_array_round_trip(state: ObjectState, index: usize, value: ValueView)
    requires
        distinct_keys(state.values),
        state.array matches ArrayView::Properties { length } ==> index < length && !(lookup(
            state.values,
            index_key(index),
            true,
        ) matches Some(PropertyView::Virtual { .. })),
    ensures
        state.set_array_element(index, value).array_element(index) == value,
{
    lemma_exact_is_enough(state.values, index, false);
    lemma_synced_lookup(state.values, index_key(index), Some(value), true, index_key(index));
    lemma_exact_is_enough(state.set_array_element(index, value).values, index, false);
}

/// The length that was set is the length.
pub proof fn law_set_length(state: ObjectState, n: usize)
    ensures
        state.set_length(n).length() == n,
{
}

/// After the length was set, the property that answers to `length` holds it,
/// in an array and in any other object, unless it is an accessor.
pub proof fn law_set_length_syncs(state: ObjectState, n: usize)
    requires
        distinct_keys(state.values),
    ensures
        lookup(state.set_length(n).values, length_key(), false) == match lookup(
            state.values,
            length_key(),
            false,
        ) {
            Some(PropertyView::Stored { attributes, .. }) => Some(
                PropertyView::Stored { value: length_value(n), attributes },
            ),
            Some(PropertyView::Virtual { get, set, attributes }) => Some(
                PropertyView::Virtual { get, set, attributes },
            ),
            None => Some(PropertyView::Stored { value: length_value(n), attributes: native_attributes(false) }),
        },
{
    let cut = match state.array {
        ArrayView::Vector(slots) => unmirrored(state.values, n as int, slots.len() as int),
        ArrayView::Properties { .. } => state.values,
    };
    if state.array is Vector {
        let slots = state.array->Vector_0;
        lemma_unmirrored_keeps_length_lookup(state.values, n as int, slots.len() as int, false);
    }
    lemma_synced_found(cut, length_key(), length_value(n), false);
}

/// After its length was set, an object has no stored property left under
/// the name of an index that the vector lost.
pub proof fn lemma_shrink_clears(state: ObjectState, n: usize, index: usize, case_sensitive: bool)
    requires
        distinct_keys(state.values),
        state.array matches ArrayView::Vector(slots) && n <= index < slots.len(),
        !(lookup(state.values, index_key(index), true) matches Some(PropertyView::Virtual { .. })),
    ensures
        lookup(state.set_length(n).values, index_key(index), case_sensitive) is None,
{
    let slots = state.array->Vector_0;
    let key = index_key(index);
    let cut = unmirrored(state.values, n as int, slots.len() as int);
    lemma_unmirrored_distinct(state.values, n as int, slots.len() as int);
    lemma_unmirrored_lookup(state.values, n as int, slots.len() as int, key);
    assert(n <= index < slots.len() && key == index_key(index));
    lemma_index_key_misses_length(index, false);
    lemma_synced_lookup_other(cut, length_key(), Some(length_value(n)), false, key);
    let after = state.set_length(n).values;
    lemma_exact_is_enough(after, index, case_sensitive);
}

/// A fresh array mirrors its vector.
pub proof fn law_fresh_array_mirrored(prototype: Option<Object>)
    ensures
        ObjectState::fresh_array(prototype).mirrored(),
{
    let state = ObjectState::fresh_array(prototype);
    let none = Seq::<(Seq<char>, PropertyView)>::empty();
    assert(distinct_keys(none));
    lemma_position(none, length_key(), true);
    lemma_position(none, length_key(), false);
    assert(found_exactly(none, length_key()));
    lemma_synced_lookup(none, length_key(), Some(length_value(0)), false, length_key());
    lemma_synced_found(none, length_key(), length_value(0), false);
    assert forall|index: usize| (#[trigger] lookup(state.values, index_key(index), true)) is None by {
        crate::object_data::lemma_index_key_plain(index);
        lemma_synced_lookup(none, length_key(), Some(length_value(0)), false, index_key(index));
        lemma_position(none, index_key(index), true);
    }
}

/// An array that mirrors its slots mirrors its vector, length and all, after
/// a slot was written.
pub proof fn law_set_array_element_mirrored(state: ObjectState, index: usize, value: ValueView)
    requires
        distinct_keys(state.values),
        state.slots_mirrored(),
        state.array is Vector ==> index < usize::MAX,
    ensures
        state.set_array_element(index, value).mirrored(),
{
    if state.array is Vector {
        let slots = state.array->Vector_0;
        let key = index_key(index);
        let after = state.set_array_element(index, value);
        let grown = after.array->Vector_0;
        let values = synced(state.values, key, Some(value), true);
        let length = Some(length_value(grown.len() as usize));
        lemma_synced_distinct(state.values, key, Some(value), true);
        lemma_exact_is_enough(state.values, index, false);
        lemma_index_key_misses_length(index, false);
        crate::object_data::lemma_index_key_plain(index);
        lemma_synced_keeps_found(state.values, key, Some(value), true, length_key());
        lemma_synced_lookup(state.values, key, Some(value), true, length_key());
        lemma_synced_lookup(values, length_key(), length, false, length_key());
        lemma_synced_found(values, length_key(), length_value(grown.len() as usize), false);
        assert forall|other: usize|
            mirrors_slot(#[trigger] lookup(after.values, index_key(other), true), grown, other) by {
            crate::object_data::lemma_index_key_plain(other);
            lemma_synced_lookup(values, length_key(), length, false, index_key(other));
            lemma_synced_lookup(state.values, key, Some(value), true, index_key(other));
            if index_key(other) == key {
                crate::names::lemma_index_key_injective(other, index);
            } else {
                assert(mirrors_slot(lookup(state.values, index_key(other), true), slots, other));
            }
        }
    }
}

/// An array that mirrors its slots mirrors its vector, length and all, after
/// its length was set.
pub proof fn law_set_length_mirrored(state: ObjectState, n: usize)
    requires
        distinct_keys(state.values),
        state.slots_mirrored(),
    ensures
        state.set_length(n).mirrored(),
{
    if state.array is Vector {
        let slots = state.array->Vector_0;
        let after = state.set_length(n);
        let cut = unmirrored(state.values, n as int, slots.len() as int);
        lemma_unmirrored_distinct(state.values, n as int, slots.len() as int);
        lemma_unmirrored_keeps_length(state.values, n as int, slots.len() as int);
        lemma_unmirrored_keeps_length_lookup(state.values, n as int, slots.len() as int, true);
        lemma_synced_lookup(cut, length_key(), Some(length_value(n)), false, length_key());
        lemma_synced_found(cut, length_key(), length_value(n), false);
        assert forall|other: usize|
            mirrors_slot(
                #[trigger] lookup(after.values, index_key(other), true),
                resized(slots, n as int),
                other,
            ) by {
            crate::object_data::lemma_index_key_plain(other);
            lemma_synced_lookup(cut, length_key(), Some(length_value(n)), false, index_key(other));
            lemma_unmirrored_lookup(state.values, n as int, slots.len() as int, index_key(other));
            assert(mirrors_slot(lookup(state.values, index_key(other), true), slots, other));
            if other >= n && lookup(state.values, index_key(other), true) is Some {
                assert(n <= other < slots.len() && index_key(other) == index_key(other));
            }
        }
    }
}

/// An array that mirrors its slots still does after a slot was emptied, and
/// one that mirrors its vector, length and all, still does that too.
pub proof fn law_delete_array_element_mirrored(state: ObjectState, index: usize)
    requires
        distinct_keys(state.values),
        state.slots_mirrored(),
    ensures
        state.delete_array_element(index).slots_mirrored(),
        state.mirrored() ==> state.delete_array_element(index).mirrored(),
{
    if state.array matches ArrayView::Vector(slots) && index < slots.len() {
        let slots = state.array->Vector_0;
        let key = index_key(index);
        let after = state.delete_array_element(index);
        let emptied = after.array->Vector_0;
        lemma_exact_is_enough(state.values, index, false);
        lemma_index_key_misses_length(index, false);
        crate::object_data::lemma_index_key_plain(index);
        lemma_synced_keeps_found(state.values, key, None, true, length_key());
        lemma_synced_lookup(state.values, key, None, true, length_key());
        assert forall|other: usize|
            mirrors_slot(#[trigger] lookup(after.values, index_key(other), true), emptied, other) by {
            lemma_synced_lookup(state.values, key, None, true, index_key(other));
            assert(mirrors_slot(lookup(state.values, index_key(other), true), slots, other));
            if index_key(other) == key {
                crate::names::lemma_index_key_injective(other, index);
            } else if other == index {
            }
        }
    }
}

/// An array that mirrors its vector mirrors its slots.
pub proof fn lemma_mirrored_slots(state: ObjectState)
    requires
        state.mirrored(),
    ensures
        state.slots_mirrored(),
{
}

/// An array that mirrors its slots still does after a write into its own
/// table under a name that denotes no index.
pub proof fn lemma_write_own_keeps_slots(state: ObjectState, name: Seq<char>, value: ValueView, case_sensitive: bool)
    requires
        distinct_keys(state.values),
        state.slots_mirrored(),
        parsed_index(name) is None,
    ensures
        state.write_own(name, value, case_sensitive).slots_mirrored(),
{
    if state.array is Vector {
        let slots = state.array->Vector_0;
        let after = state.write_own(name, value, case_sensitive);
        lemma_position(state.values, name, case_sensitive);
        lemma_position(state.values, length_key(), true);
        assert forall|index: usize| name != #[trigger] index_key(index) by {
            crate::names::lemma_index_key_parses(index);
        }
        match position(state.values, name, case_sensitive) {
            Some(i) => {
                lemma_position_by_keys(state.values, after.values, length_key(), true);
                lemma_position_by_keys(state.values, after.values, length_key(), false);
                assert forall|index: usize|
                    mirrors_slot(#[trigger] lookup(after.values, index_key(index), true), slots, index) by {
                    lemma_position_by_keys(state.values, after.values, index_key(index), true);
                    lemma_position(state.values, index_key(index), true);
                    assert(mirrors_slot(lookup(state.values, index_key(index), true), slots, index));
                    if position(state.values, index_key(index), true) == Some(i) {
                        crate::names::lemma_index_key_answers_itself(index, name, case_sensitive);
                    }
                }
            },
            None => {
                let made = PropertyView::Stored { value, attributes: AttributeSet::spec_empty() };
                lemma_position_push(state.values, name, made, length_key(), true);
                lemma_position_push(state.values, name, made, length_key(), false);
                let j = position(state.values, length_key(), true)->0;
                assert(after.values[j] == state.values[j]);
                assert forall|index: usize|
                    mirrors_slot(#[trigger] lookup(after.values, index_key(index), true), slots, index) by {
                    lemma_position_push(state.values, name, made, index_key(index), true);
                    lemma_position(state.values, index_key(index), true);
                    assert(mirrors_slot(lookup(state.values, index_key(index), true), slots, index));
                    if position(state.values, index_key(index), true) is Some {
                        let k = position(state.values, index_key(index), true)->0;
                        assert(after.values[k] == state.values[k]);
                    }
                }
            },
        }
    }
}

/// An array that mirrors its slots still does after any write to it, under
/// any name and whatever the interpreter makes of the value: the slots and
/// their names agree, and the `length` property stays stored and hidden.
pub proof fn law_write_keeps_slots(
    h: HeapView,
    s: ScriptObject,
    name: Seq<char>,
    value: ValueView,
    case_sensitive: bool,
    this: Object,
    base_proto: Option<Object>,
    coerced_object: Object,
    coerced_length: i32,
)
    requires
        h.wf(),
        h.has_script(s),
        h.script(s).slots_mirrored(),
        !h.set_overflows(s, name),
    ensures
        h.set_completed(
            s,
            name,
            value,
            case_sensitive,
            this,
            base_proto,
            coerced_object,
            coerced_length,
        ).0.script(s).slots_mirrored(),
{
    let state = h.script(s);
    assert(h.cells[s.index as int] is Script);
    assert(distinct_keys(state.values));
    if name == proto_key() {
    } else if parsed_index(name) is Some {
        law_set_array_element_mirrored(state, parsed_index(name)->0, value);
    } else if name.len() == 0 {
    } else if name == length_key() {
        let n = written_length(coerced_length);
        let sized = state.set_length(n);
        let h1 = h.with_script(s, sized);
        law_set_length_mirrored(state, n);
        if state.array is Vector {
            lemma_position(sized.values, length_key(), true);
            lemma_position(sized.values, length_key(), false);
            assert(has_key(sized.values, length_key(), case_sensitive));
        }
        let cut = match state.array {
            ArrayView::Vector(slots) => unmirrored(state.values, n as int, slots.len() as int),
            ArrayView::Properties { .. } => state.values,
        };
        if state.array is Vector {
            lemma_unmirrored_distinct(state.values, n as int, state.array->Vector_0.len() as int);
        }
        lemma_synced_distinct(cut, length_key(), Some(length_value(n)), false);
        assert(h1.script(s) == sized);
        lemma_write_own_keeps_slots(sized, name, value, case_sensitive);
        let done = sized.write_own(name, value, case_sensitive);
        assert(h1.with_script(s, done).script(s) == done);
    } else {
        lemma_write_own_keeps_slots(state, name, value, case_sensitive);
        let done = state.write_own(name, value, case_sensitive);
        assert(h.with_script(s, done).script(s) == done);
    }
}

/// A change that leaves the vector alone, and with it what is found under
/// `length` and under the name of every index, keeps the mirror.
pub proof fn law_mirror_frame(before: ObjectState, after: ObjectState)
    requires
        before.mirrored(),
        after.array == before.array,
        found_exactly(after.values, length_key()),
        lookup(after.values, length_key(), true) == lookup(before.values, length_key(), true),
        forall|index: usize| #[trigger]
            lookup(after.values, index_key(index), true) == lookup(before.values, index_key(index), true),
    ensures
        after.mirrored(),
{
    if before.array is Vector {
        let slots = before.array->Vector_0;
        assert forall|index: usize|
            mirrors_slot(#[trigger] lookup(after.values, index_key(index), true), slots, index) by {
            assert(mirrors_slot(lookup(before.values, index_key(index), true), slots, index));
        }
    }
}

/// An exact lookup under another name finds the same after an insertion
/// under an exact name.
pub proof fn lemma_inserted_lookup_other(
    entries: Entries,
    name: Seq<char>,
    property: PropertyView,
    other: Seq<char>,
)
    requires
        other != name,
    ensures
        lookup(inserted(entries, name, property, true), other, true) == lookup(entries, other, true),
{
    let after = inserted(entries, name, property, true);
    lemma_position(entries, name, true);
    lemma_position(entries, other, true);
    match position(entries, name, true) {
        Some(i) => {
            lemma_position_by_keys(entries, after, other, true);
        },
        None => {
            lemma_position_push(entries, name, property, other, true);
            if position(entries, other, true) is Some {
                assert(after[position(entries, other, true)->0] == entries[position(entries, other, true)->0]);
            }
        },
    }
}

/// An array that mirrors its vector still does after a property was defined
/// or deleted under a name that is neither `length` nor the name of an
/// index.
pub proof fn law_other_names_keep_mirror(
    state: ObjectState,
    name: Seq<char>,
    value: ValueView,
    attributes: AttributeSet,
)
    requires
        distinct_keys(state.values),
        state.mirrored(),
        name != length_key(),
        forall|index: usize| name != #[trigger] index_key(index),
    ensures
        state.define_value(name, value, attributes).mirrored(),
        state.delete(name, true).mirrored(),
{
    if state.array is Vector {
        let property = PropertyView::Stored { value, attributes };
        let defined = state.define_value(name, value, attributes);
        lemma_position(state.values, name, true);
        lemma_position(state.values, length_key(), true);
        lemma_inserted_lookup_other(state.values, name, property, length_key());
        assert forall|index: usize| #[trigger]
            lookup(defined.values, index_key(index), true) == lookup(state.values, index_key(index), true) by {
            lemma_inserted_lookup_other(state.values, name, property, index_key(index));
        }
        match position(state.values, name, true) {
            Some(i) => {
                lemma_position_by_keys(state.values, defined.values, length_key(), true);
                lemma_position_by_keys(state.values, defined.values, length_key(), false);
            },
            None => {
                lemma_position_push(state.values, name, property, length_key(), true);
                lemma_position_push(state.values, name, property, length_key(), false);
            },
        }
        law_mirror_frame(state, defined);
        let deleted = state.delete(name, true);
        if state.can_delete(name, true) {
            let i = position(state.values, name, true)->0;
            lemma_lookup_remove(state.values, i, length_key());
            crate::property_map::lemma_lookup_remove_other(state.values, i, length_key(), true);
            crate::property_map::lemma_lookup_remove_other(state.values, i, length_key(), false);
            assert forall|index: usize| #[trigger]
                lookup(deleted.values, index_key(index), true) == lookup(state.values, index_key(index), true) by {
                lemma_lookup_remove(state.values, i, index_key(index));
            }
        }
        law_mirror_frame(state, deleted);
    }
}

/// A read of a property that the object has itself is answered by the
/// object, with itself as the receiver.
pub proof fn lemma_get_own(h: HeapView, o: Object, name: Seq<char>, case_sensitive: bool)
    requires
        h.has_chain(o),
        h.has_own_property(o, name, case_sensitive),
    ensures
        h.get(o, name, case_sensitive) == h.get_local(o, name, case_sensitive, o),
{
    h.lemma_chain_step(o);
    let s = h.chain(o);
    assert(s[0] == o);
    assert(h.holds(name, case_sensitive, false)(s[0]));
}

/// A read of a property that neither the object nor anything on its chain
/// has gives `Undefined`.
pub proof fn lemma_get_missing(h: HeapView, o: Object, name: Seq<char>, case_sensitive: bool)
    requires
        h.has_chain(o),
        !h.has_own_property(o, name, case_sensitive),
        h.proto(o) matches Some(p) ==> h.property_owner(p, name, case_sensitive) is None,
    ensures
        h.get(o, name, case_sensitive) == LookupView::Found(ValueView::Undefined),
{
    h.lemma_chain_step(o);
    let s = h.chain(o);
    assert(s[0] == o);
    let condition = h.holds(name, case_sensitive, false);
    assert(!condition(s[0]));
    match h.proto(o) {
        Some(p) => {
            assert(s.skip(1) =~= h.chain(p));
        },
        None => {
            assert(s.skip(1) =~= Seq::empty());
            assert(first_where(s.skip(1), condition) is None);
        },
    }
}

/// What the objects further up the chain of `o` have and hold is the same
/// after the state that answers for `o` was replaced by one with the same
/// prototype.
pub proof fn lemma_inherited_unchanged(
    h: HeapView,
    o: Object,
    state: ObjectState,
    name: Seq<char>,
    case_sensitive: bool,
    accessor: bool,
)
    requires
        h.wf(),
        h.has(o),
        h.has_chain(o),
        state.prototype == h.state(o).prototype,
    ensures
        h.change(o, state).has_chain(o),
        h.change(o, state).chain(o) == h.chain(o),
        h.change(o, state).state(o) == state,
        h.change(o, state).base(o) == h.base(o),
        first_where(h.chain(o).skip(1), h.change(o, state).holds(name, case_sensitive, accessor)) == first_where(
            h.chain(o).skip(1),
            h.holds(name, case_sensitive, accessor),
        ),
{
    let after = h.change(o, state);
    h.lemma_change(o, state);
    let s = h.chain(o);
    let rest = s.skip(1);
    assert forall|i: int| 0 <= i < rest.len() implies after.holds(name, case_sensitive, accessor)(
        #[trigger] rest[i],
    ) == h.holds(name, case_sensitive, accessor)(rest[i]) by {
        assert(rest[i] == s[i + 1]);
        h.lemma_chain_in_heap(o, i + 1);
        h.lemma_not_on_own_chain(o, i + 1);
        assert(after.state(s[i + 1]) == h.state(s[i + 1]));
    }
    crate::object::lemma_first_where_same(
        rest,
        after.holds(name, case_sensitive, accessor),
        h.holds(name, case_sensitive, accessor),
    );
}

/// After the length of a vector was cut to `n`, a read under the name of an
/// index that the vector lost gives `Undefined`, where no accessor held the
/// name in the object and nothing further up the chain has a property of
/// that name.
pub proof fn law_shrink_reads_undefined(h: HeapView, o: Object, n: usize, index: usize, case_sensitive: bool)
    requires
        h.wf(),
        h.has(o),
        h.has_chain(o),
        h.state(o).array matches ArrayView::Vector(slots) && n <= index < slots.len(),
        !(lookup(h.state(o).values, index_key(index), true) matches Some(PropertyView::Virtual { .. })),
        h.proto(o) matches Some(p) ==> h.property_owner(p, index_key(index), case_sensitive) is None,
    ensures
        h.change(o, h.state(o).set_length(n)).state(o).length() == n,
        h.change(o, h.state(o).set_length(n)).get(o, index_key(index), case_sensitive) == LookupView::Found(
            ValueView::Undefined,
        ),
{
    let state = h.state(o).set_length(n);
    let after = h.change(o, state);
    let key = index_key(index);
    assert(distinct_keys(h.state(o).values)) by {
        let b = h.base(o);
        match o {
            Object::ScriptObject(s) => {},
            Object::SharedObject(s) => {},
        }
        assert(h.cells[b.index as int] is Script);
    }
    lemma_shrink_clears(h.state(o), n, index, case_sensitive);
    lemma_inherited_unchanged(h, o, state, key, case_sensitive, false);
    crate::object_data::lemma_index_key_plain(index);
    h.lemma_chain_step(o);
    after.lemma_chain_step(o);
    match h.proto(o) {
        Some(p) => {
            assert(h.chain(o).skip(1) =~= h.chain(p));
            assert(after.chain(o).skip(1) =~= after.chain(p));
        },
        None => {},
    }
    lemma_get_missing(after, o, key, case_sensitive);
}

/// A write to a read-only property is dropped: after a property was defined
/// with `ReadOnly` among its attributes, a write under its name changes
/// nothing, asks for nothing, and a read gives the value it was defined
/// with. This is for a name that is not an index, `length` or the
/// prototype's, and that a lookup in the given mode finds where the exact
/// lookup does.
pub proof fn law_read_only(
    h: HeapView,
    o: Object,
    name: Seq<char>,
    defined: ValueView,
    written: ValueView,
    attributes: AttributeSet,
    case_sensitive: bool,
)
    requires
        h.wf(),
        h.has(o),
        h.has_chain(o),
        attributes.has(Attribute::ReadOnly),
        name != proto_key(),
        name != length_key(),
        parsed_index(name) is None,
        position(h.state(o).define_value(name, defined, attributes).values, name, case_sensitive) == position(
            h.state(o).define_value(name, defined, attributes).values,
            name,
            true,
        ),
    ensures
        ({
            let h1 = h.change(o, h.state(o).define_value(name, defined, attributes));
            let (h2, outcome) = h1.internal_set(
                h1.base(o),
                name,
                written,
                case_sensitive,
                h1.receiver(o),
                Some(h1.receiver(o)),
            );
            &&& outcome == SetOutcomeView::Done
            &&& h2 == h1
            &&& h2.get(o, name, case_sensitive) == LookupView::Found(defined)
        }),
{
    let before = h.state(o);
    let state = before.define_value(name, defined, attributes);
    let property = PropertyView::Stored { value: defined, attributes };
    let h1 = h.change(o, state);
    assert(distinct_keys(before.values)) by {
        let b = h.base(o);
        match o {
            Object::ScriptObject(s) => {},
            Object::SharedObject(s) => {},
        }
        assert(h.cells[b.index as int] is Script);
    }
    crate::property_map::lemma_inserted_distinct(before.values, name, property, true);
    lemma_inserted_lookup(before.values, name, property);
    h.lemma_change(o, state);
    lemma_inherited_unchanged(h, o, state, name, case_sensitive, false);
    let i = position(state.values, name, true)->0;
    lemma_position(state.values, name, true);
    assert(state.values[i].1 == property);
    assert(state.values[i].1.written(written) == property);
    assert(state.values.update(i, (state.values[i].0, property)) =~= state.values);
    assert(state.write_own(name, written, case_sensitive) == state);
    lemma_change_same(h1, o);
    lemma_get_own(h1, o, name, case_sensitive);
}

/// An exact lookup finds what was inserted under the exact name.
pub proof fn lemma_inserted_lookup(entries: Entries, name: Seq<char>, property: PropertyView)
    ensures
        lookup(inserted(entries, name, property, true), name, true) == Some(property),
{
    lemma_position(entries, name, true);
    let after = inserted(entries, name, property, true);
    match position(entries, name, true) {
        Some(i) => {
            lemma_position_by_keys(entries, after, name, true);
        },
        None => {
            lemma_position_push(entries, name, property, name, true);
        },
    }
}

/// A read under a name that an accessor of the object holds comes to the
/// accessor's getter, to be run with the object read from as the receiver.
pub proof fn law_accessor_read(h: HeapView, o: Object, name: Seq<char>, case_sensitive: bool)
    requires
        h.has_chain(o),
        name != proto_key(),
        lookup(h.state(o).values, name, case_sensitive) matches Some(PropertyView::Virtual { .. }),
    ensures
        h.get(o, name, case_sensitive) == LookupView::Call(
            InvocationView {
                callable: lookup(h.state(o).values, name, case_sensitive)->0->get,
                this: o,
                base_proto: Some(h.receiver(o)),
                args: Seq::empty(),
            },
        ),
{
    lemma_get_own(h, o, name, case_sensitive);
}

/// A write under a name that an accessor without a setter holds asks for
/// nothing to be run and leaves a read under the name as it was, whatever
/// the interpreter makes of the value.
pub proof fn law_accessor_without_setter(
    h: HeapView,
    o: Object,
    name: Seq<char>,
    value: ValueView,
    case_sensitive: bool,
    coerced_object: Object,
    coerced_length: i32,
)
    requires
        h.wf(),
        h.has(o),
        h.has_chain(o),
        name != proto_key(),
        lookup(h.state(o).values, name, case_sensitive) matches Some(PropertyView::Virtual { set, .. })
            && set is None,
    ensures
        ({
            let (h2, outcome) = h.set_completed(
                h.base(o),
                name,
                value,
                case_sensitive,
                h.receiver(o),
                Some(h.receiver(o)),
                coerced_object,
                coerced_length,
            );
            &&& outcome == SetOutcomeView::Done
            &&& h2.get(o, name, case_sensitive) == h.get(o, name, case_sensitive)
        }),
{
    let b = h.base(o);
    let state = h.state(o);
    let found = lookup(state.values, name, case_sensitive);
    lemma_position(state.values, name, case_sensitive);
    lemma_get_own(h, o, name, case_sensitive);
    if parsed_index(name) is Some {
        let index = parsed_index(name)->0;
        let after = state.set_array_element(index, value);
        let first = synced(state.values, index_key(index), Some(value), true);
        crate::object_data::lemma_synced_keeps_accessor(
            state.values,
            index_key(index),
            Some(value),
            true,
            name,
            case_sensitive,
        );
        if state.array is Vector {
            let grown = after.array->Vector_0;
            crate::object_data::lemma_synced_keeps_accessor(
                first,
                length_key(),
                Some(length_value(grown.len() as usize)),
                false,
                name,
                case_sensitive,
            );
        }
        assert(lookup(after.values, name, case_sensitive) == found);
        lemma_inherited_unchanged(h, o, after, name, case_sensitive, false);
        lemma_position(after.values, name, case_sensitive);
        lemma_get_own(h.change(o, after), o, name, case_sensitive);
    } else if name.len() == 0 {
    } else if name == length_key() {
        let n = written_length(coerced_length);
        let after = state.set_length(n);
        let cut = match state.array {
            ArrayView::Vector(slots) => unmirrored(state.values, n as int, slots.len() as int),
            ArrayView::Properties { .. } => state.values,
        };
        if state.array is Vector {
            crate::object_data::lemma_unmirrored_keeps_accessor(
                state.values,
                n as int,
                state.array->Vector_0.len() as int,
                name,
                case_sensitive,
            );
        }
        crate::object_data::lemma_synced_keeps_accessor(
            cut,
            length_key(),
            Some(length_value(n)),
            false,
            name,
            case_sensitive,
        );
        assert(lookup(after.values, name, case_sensitive) == found);
        let h1 = h.change(o, after);
        lemma_inherited_unchanged(h, o, after, name, case_sensitive, false);
        h.lemma_change(o, after);
        lemma_position(after.values, name, case_sensitive);
        let i = position(after.values, name, case_sensitive)->0;
        assert(after.values.update(i, (after.values[i].0, after.values[i].1.written(value))) =~= after.values);
        assert(after.write_own(name, value, case_sensitive) == after);
        assert(h1.script(b) == after);
        assert(h1.with_script(b, after).cells =~= h1.cells);
        lemma_get_own(h1, o, name, case_sensitive);
    } else {
        let i = position(state.values, name, case_sensitive)->0;
        assert(state.values.update(i, (state.values[i].0, state.values[i].1.written(value))) =~= state.values);
        assert(state.write_own(name, value, case_sensitive) == state);
        lemma_change_same(h, o);
    }
}

/// A value written under a plain name into a fresh object is read back,
/// under the name and, without case sensitivity, under any name that differs
/// from it in the case of ASCII letters only; and the object keeps the name
/// as it was written. A plain name is not empty, does not start with a
/// digit and is not the prototype's name; and nothing on the chain of the
/// fresh object's prototype holds an accessor under it.
pub proof fn law_set_then_get(
    h: HeapView,
    proto: Option<Object>,
    name: Seq<char>,
    probe: Seq<char>,
    value: ValueView,
    case_sensitive: bool,
    coerced_object: Object,
    coerced_length: i32,
)
    requires
        h.wf(),
        h.cells.len() <= usize::MAX,
        proto matches Some(p) ==> h.has(p) && h.has_chain(p) && h.virtual_owner(p, name, case_sensitive)
            is None,
        name.len() > 0,
        !is_digit(name[0]),
        name != proto_key(),
        name_matches(name, probe, case_sensitive),
        probe != proto_key(),
    ensures
        ({
            let s = ScriptObject { index: h.cells.len() as usize };
            let o = Object::ScriptObject(s);
            let h1 = h.with_cell(CellView::Script(ObjectState::fresh(proto)));
            let (h2, outcome) = h1.set_completed(
                s,
                name,
                value,
                case_sensitive,
                o,
                Some(o),
                coerced_object,
                coerced_length,
            );
            &&& outcome == SetOutcomeView::Done
            &&& h2.get(o, probe, case_sensitive) == LookupView::Found(value)
            &&& has_key(h2.state(o).values, probe, case_sensitive)
            &&& keys(h2.state(o).values) == seq![name]
        }),
{
    let s = ScriptObject { index: h.cells.len() as usize };
    let o = Object::ScriptObject(s);
    let fresh = ObjectState::fresh(proto);
    let h1 = h.with_cell(CellView::Script(fresh));
    assert(parsed_index(name) is None) by {
        assert(!is_digit(name[0]));
    }
    h.lemma_with_cell(CellView::Script(fresh));
    assert(distinct_keys(fresh.values));
    assert(h1.wf());
    assert(h1.has(o));
    assert(h1.state(o) == fresh);
    match proto {
        Some(p) => {
            assert(h1.has_chain(p) && h1.chain(p) == h.chain(p));
        },
        None => {},
    }
    h1.lemma_chain_extend(o);
    h1.lemma_chain_step(o);
    let chain = h1.chain(o);
    lemma_position(fresh.values, name, case_sensitive);
    let after = if name == length_key() {
        let n = written_length(coerced_length);
        let sized = fresh.set_length(n);
        let entry = (length_key(), PropertyView::Stored { value: length_value(n), attributes: native_attributes(false) });
        lemma_position(Seq::<(Seq<char>, PropertyView)>::empty(), length_key(), true);
        assert(sized.values =~= seq![entry]);
        assert(is_first_match(sized.values, name, case_sensitive, 0));
        lemma_position_is(sized.values, name, case_sensitive, 0);
        let h15 = h1.with_script(s, sized);
        h1.lemma_change(o, sized);
        let done = sized.write_own(name, value, case_sensitive);
        assert(done.values =~= seq![(name, PropertyView::Stored { value, attributes: native_attributes(false) })]);
        assert(h15.with_script(s, done).cells =~= h1.with_script(s, done).cells);
        done
    } else {
        let condition = h1.holds(name, case_sensitive, true);
        assert(!condition(chain[0]));
        match proto {
            Some(p) => {
                let rest = h.chain(p);
                assert(chain.skip(1) =~= rest);
                assert forall|i: int| 0 <= i < rest.len() implies condition(#[trigger] rest[i]) == h.holds(
                    name,
                    case_sensitive,
                    true,
                )(rest[i]) by {
                    h.lemma_chain_in_heap(p, i);
                }
                crate::object::lemma_first_where_same(rest, condition, h.holds(name, case_sensitive, true));
            },
            None => {
                assert(chain.skip(1) =~= Seq::empty());
                assert(first_where(chain.skip(1), condition) is None);
            },
        }
        assert(h1.virtual_owner(o, name, case_sensitive) is None);
        let done = fresh.write_own(name, value, case_sensitive);
        assert(done.values =~= seq![(name, PropertyView::Stored { value, attributes: AttributeSet::spec_empty() })]);
        done
    };
    let h2 = h1.with_script(s, after);
    assert(after.values.len() == 1 && after.values[0].0 == name);
    assert(is_first_match(after.values, probe, case_sensitive, 0));
    lemma_position_is(after.values, probe, case_sensitive, 0);
    h1.lemma_change(o, after);
    assert(h2.state(o) == after);
    lemma_get_own(h2, o, probe, case_sensitive);
    assert(keys(after.values) =~= seq![name]);
}

} // verus!
