use script_object::heap::Heap;
use script_object::object::{Lookup, SetOutcome, TObject};
use script_object::object_data::ScriptObjectData;
use script_object::property::{Attribute, AttributeSet};
use script_object::value::{Executable, Object, ScriptObject, Value};

const GETTER: Executable = Executable { code: 1 };

fn text(s: &str) -> Value {
    Value::String(s.to_string())
}

fn number(n: f64) -> Value {
    Value::Number(n.to_bits())
}

fn read(heap: &Heap, object: Object, name: &str) -> Value {
    assert!(heap.chain_ends(object));
    match object.get(heap, name, true) {
        Lookup::Found(value) => value,
        Lookup::Call(call) => panic!("unexpected getter {:?}", call),
    }
}

fn array(heap: &mut Heap) -> Object {
    Object::ScriptObject(ScriptObject::array(heap, None))
}

/// Whether the property table of an array mirrors its vector.
fn mirrored(heap: &Heap, object: Object) -> bool {
    let slots = object.array(heap);
    let length_ok = read(heap, object, "length") == number(slots.len() as f64)
        && !object.is_property_enumerable(heap, "length", true);
    let mut slots_ok = true;
    for i in 0..slots.len() + 4 {
        let name = i.to_string();
        if object.has_own_property(heap, &name, true) {
            slots_ok = slots_ok && i < slots.len() && read(heap, object, &name) == slots[i];
        }
    }
    length_ok && slots_ok
}

#[test]
fn fresh_array_has_a_hidden_length_of_zero() {
    let mut heap = Heap::new();
    let a = array(&mut heap);
    assert_eq!(a.length(&heap), 0);
    assert_eq!(read(&heap, a, "length"), number(0.0));
    assert!(a.has_own_property(&heap, "length", true));
    assert!(!a.is_property_enumerable(&heap, "length", true));
    assert_eq!(a.get_keys(&heap, true), Vec::<String>::new());
    assert_eq!(a.array(&heap), Vec::<Value>::new());
    assert!(mirrored(&heap, a));
}

#[test]
fn fresh_object_has_no_length_property() {
    let mut heap = Heap::new();
    let o = ScriptObject::object_cell(&mut heap, None);
    assert_eq!(o.length(&heap), 0);
    assert!(!o.has_own_property(&heap, "length", true));
    assert_eq!(read(&heap, o, "length"), Value::Undefined);
}

#[test]
fn writing_a_slot_grows_the_array() {
    let mut heap = Heap::new();
    let a = array(&mut heap);
    assert_eq!(a.set_array_element(&mut heap, 2, text("x")), 3);
    assert_eq!(a.length(&heap), 3);
    assert_eq!(a.array_element(&heap, 0), Value::Undefined);
    assert_eq!(a.array_element(&heap, 1), Value::Undefined);
    assert_eq!(a.array_element(&heap, 2), text("x"));
    assert_eq!(a.array_element(&heap, 3), Value::Undefined);
    assert_eq!(read(&heap, a, "length"), number(3.0));
    assert_eq!(read(&heap, a, "2"), text("x"));
    assert_eq!(a.get_keys(&heap, true), vec!["2".to_string()]);
    assert_eq!(a.array(&heap), vec![Value::Undefined, Value::Undefined, text("x")]);
    assert!(mirrored(&heap, a));
}

#[test]
fn writing_a_slot_inside_keeps_the_length() {
    let mut heap = Heap::new();
    let a = array(&mut heap);
    a.set_array_element(&mut heap, 3, text("d"));
    assert_eq!(a.set_array_element(&mut heap, 1, text("b")), 4);
    assert_eq!(a.set_array_element(&mut heap, 3, text("D")), 4);
    assert_eq!(a.array(&heap), vec![Value::Undefined, text("b"), Value::Undefined, text("D")]);
    assert_eq!(a.get_keys(&heap, true), vec!["3".to_string(), "1".to_string()]);
    assert!(mirrored(&heap, a));
}

#[test]
fn writing_an_index_name_writes_the_slot() {
    let mut heap = Heap::new();
    let a = array(&mut heap);
    assert_eq!(a.set(&mut heap, "1", text("one"), true), SetOutcome::Done);
    assert_eq!(a.array_element(&heap, 1), text("one"));
    assert_eq!(a.length(&heap), 2);
    assert_eq!(a.set(&mut heap, "04", text("four"), true), SetOutcome::Done);
    assert_eq!(a.array_element(&heap, 4), text("four"));
    assert_eq!(a.length(&heap), 5);
    assert_eq!(read(&heap, a, "length"), number(5.0));
    assert_eq!(read(&heap, a, "4"), text("four"));
    assert_eq!(a.set(&mut heap, "+7", text("plain"), true), SetOutcome::Done);
    assert_eq!(a.length(&heap), 5);
    assert_eq!(read(&heap, a, "+7"), text("plain"));
    assert!(mirrored(&heap, a));
}

#[test]
fn shrinking_drops_slots_and_their_names() {
    let mut heap = Heap::new();
    let a = array(&mut heap);
    for i in 0..5 {
        a.set_array_element(&mut heap, i, number(i as f64));
    }
    a.set_length(&mut heap, 2);
    assert_eq!(a.length(&heap), 2);
    assert_eq!(read(&heap, a, "length"), number(2.0));
    assert_eq!(a.array(&heap), vec![number(0.0), number(1.0)]);
    for i in 2..5 {
        assert_eq!(read(&heap, a, &i.to_string()), Value::Undefined);
        assert!(!a.has_own_property(&heap, &i.to_string(), true));
        assert_eq!(a.array_element(&heap, i), Value::Undefined);
    }
    assert_eq!(a.get_keys(&heap, true), vec!["0".to_string(), "1".to_string()]);
    assert!(mirrored(&heap, a));
}

#[test]
fn growing_pads_with_undefined() {
    let mut heap = Heap::new();
    let a = array(&mut heap);
    a.set_array_element(&mut heap, 0, text("a"));
    a.set_length(&mut heap, 3);
    assert_eq!(a.length(&heap), 3);
    assert_eq!(a.array(&heap), vec![text("a"), Value::Undefined, Value::Undefined]);
    assert_eq!(read(&heap, a, "length"), number(3.0));
    assert_eq!(a.get_keys(&heap, true), vec!["0".to_string()]);
    a.set_length(&mut heap, 0);
    assert_eq!(a.array(&heap), Vec::<Value>::new());
    assert_eq!(a.get_keys(&heap, true), Vec::<String>::new());
    assert!(mirrored(&heap, a));
}

#[test]
fn interleaved_array_writes_keep_the_mirror() {
    let mut heap = Heap::new();
    let a = array(&mut heap);
    let steps: [(u8, usize); 20] = [
        (0, 3),
        (1, 2),
        (0, 0),
        (3, 0),
        (2, 7),
        (3, 7),
        (1, 9),
        (0, 8),
        (3, 12),
        (1, 4),
        (2, 1),
        (0, 6),
        (3, 1),
        (3, 6),
        (1, 0),
        (2, 2),
        (0, 2),
        (3, 2),
        (1, 3),
        (1, 1),
    ];
    for (kind, n) in steps.iter() {
        match kind {
            0 => {
                a.set_array_element(&mut heap, *n, number(*n as f64 + 0.5));
            }
            1 => a.set_length(&mut heap, *n),
            2 => {
                assert_eq!(a.set(&mut heap, &n.to_string(), text("named"), true), SetOutcome::Done);
            }
            _ => a.delete_array_element(&mut heap, *n),
        }
        assert!(mirrored(&heap, a), "after {:?}", (kind, n));
    }
    assert_eq!(a.length(&heap), 1);
}

#[test]
fn deleting_a_slot_keeps_the_length() {
    let mut heap = Heap::new();
    let a = array(&mut heap);
    a.set_array_element(&mut heap, 2, text("x"));
    a.set_array_element(&mut heap, 1, text("b"));
    a.delete_array_element(&mut heap, 2);
    assert_eq!(a.length(&heap), 3);
    assert_eq!(a.array_element(&heap, 2), Value::Undefined);
    assert_eq!(read(&heap, a, "2"), Value::Undefined);
    assert!(!a.has_own_property(&heap, "2", true));
    assert_eq!(read(&heap, a, "length"), number(3.0));
    assert_eq!(read(&heap, a, "1"), text("b"));
    assert_eq!(a.get_keys(&heap, true), vec!["1".to_string()]);
    assert!(mirrored(&heap, a));
    a.delete_array_element(&mut heap, 5);
    assert_eq!(a.length(&heap), 3);
    assert_eq!(a.array(&heap), vec![Value::Undefined, text("b"), Value::Undefined]);
    assert_eq!(a.delete(&mut heap, "1", true), true);
    assert_eq!(read(&heap, a, "1"), Value::Undefined);
    assert_eq!(a.array_element(&heap, 1), text("b"));
}

#[test]
fn plain_object_keeps_slots_as_properties() {
    let mut heap = Heap::new();
    let o = ScriptObject::object_cell(&mut heap, None);
    assert_eq!(o.set_array_element(&mut heap, 0, text("a")), 0);
    assert_eq!(o.length(&heap), 0);
    assert!(!o.has_own_property(&heap, "length", true));
    assert_eq!(read(&heap, o, "0"), text("a"));
    assert_eq!(o.array_element(&heap, 0), Value::Undefined);
    assert_eq!(o.array(&heap), Vec::<Value>::new());
    o.set_length(&mut heap, 2);
    assert_eq!(o.length(&heap), 2);
    assert_eq!(read(&heap, o, "length"), number(2.0));
    assert!(!o.is_property_enumerable(&heap, "length", true));
    assert_eq!(o.array_element(&heap, 0), text("a"));
    assert_eq!(o.array_element(&heap, 1), Value::Undefined);
    assert_eq!(o.array(&heap), vec![text("a"), Value::Undefined]);
    assert_eq!(o.set_array_element(&mut heap, 1, text("b")), 2);
    assert_eq!(o.array(&heap), vec![text("a"), text("b")]);
    o.delete_array_element(&mut heap, 0);
    assert_eq!(o.array(&heap), vec![text("a"), text("b")]);
    o.set_length(&mut heap, 1);
    assert_eq!(o.array(&heap), vec![text("a")]);
    assert_eq!(read(&heap, o, "1"), text("b"));
}

#[test]
fn accessor_under_an_index_name_is_left_alone() {
    let mut heap = Heap::new();
    let a = array(&mut heap);
    a.add_property(&mut heap, "1", GETTER, None, AttributeSet::empty());
    a.set_array_element(&mut heap, 1, text("b"));
    assert_eq!(a.array_element(&heap, 1), text("b"));
    assert!(a.has_own_virtual(&heap, "1", true));
    a.set_length(&mut heap, 0);
    assert!(a.has_own_virtual(&heap, "1", true));
    let o = ScriptObject::object_cell(&mut heap, None);
    o.set_length(&mut heap, 3);
    o.add_property(&mut heap, "1", GETTER, None, AttributeSet::empty());
    o.set_array_element(&mut heap, 1, text("b"));
    assert_eq!(o.array_element(&heap, 1), Value::Undefined);
}

#[test]
fn sync_native_property_upserts_stored_properties() {
    let mut heap = Heap::new();
    let s = ScriptObject::object(&mut heap, None);
    let o = Object::ScriptObject(s);
    s.sync_native_property(&mut heap, "n", None, true);
    assert!(!o.has_own_property(&heap, "n", true));
    s.sync_native_property(&mut heap, "n", Some(text("first")), true);
    s.sync_native_property(&mut heap, "h", Some(text("hidden")), false);
    assert_eq!(o.get_keys(&heap, true), vec!["n".to_string()]);
    assert_eq!(read(&heap, o, "h"), text("hidden"));
    s.sync_native_property(&mut heap, "h", Some(text("again")), true);
    assert_eq!(read(&heap, o, "h"), text("again"));
    assert_eq!(o.get_keys(&heap, true), vec!["n".to_string()]);
    s.sync_native_property(&mut heap, "N", Some(text("other")), true);
    assert_eq!(o.get_keys(&heap, true), vec!["n".to_string()]);
    assert_eq!(read(&heap, o, "n"), text("other"));
    assert!(!o.has_own_property(&heap, "N", true));
    o.define_value(&mut heap, "N", text("exact"), AttributeSet::empty());
    s.sync_native_property(&mut heap, "N", Some(text("first found")), true);
    assert_eq!(read(&heap, o, "n"), text("first found"));
    assert_eq!(read(&heap, o, "N"), text("exact"));
    assert_eq!(o.delete(&mut heap, "N", true), true);
    o.define_value(&mut heap, "r", text("locked"), AttributeSet::only(Attribute::ReadOnly));
    s.sync_native_property(&mut heap, "r", Some(text("forced")), true);
    assert_eq!(read(&heap, o, "r"), text("forced"));
    o.add_property(&mut heap, "v", GETTER, None, AttributeSet::empty());
    s.sync_native_property(&mut heap, "v", Some(text("no")), true);
    assert!(o.has_own_virtual(&heap, "v", true));
    s.sync_native_property(&mut heap, "v", None, true);
    assert!(o.has_own_virtual(&heap, "v", true));
    s.sync_native_property(&mut heap, "N", None, true);
    assert!(!o.has_own_property(&heap, "n", true));
}

#[test]
fn accessor_under_a_deleted_slot_stays() {
    let mut heap = Heap::new();
    let a = array(&mut heap);
    a.set_array_element(&mut heap, 0, text("a"));
    a.add_property(&mut heap, "0", GETTER, None, AttributeSet::empty());
    a.delete_array_element(&mut heap, 0);
    assert!(a.has_own_virtual(&heap, "0", true));
    assert_eq!(a.array_element(&heap, 0), Value::Undefined);
    assert_eq!(a.length(&heap), 1);
}

#[test]
fn length_goes_to_the_property_that_folding_finds() {
    let mut heap = Heap::new();
    let o = ScriptObject::object_cell(&mut heap, None);
    o.define_value(&mut heap, "LENGTH", text("old"), AttributeSet::empty());
    o.set_length(&mut heap, 4);
    assert_eq!(o.length(&heap), 4);
    assert_eq!(read(&heap, o, "LENGTH"), number(4.0));
    assert!(!o.has_own_property(&heap, "length", true));
    let script = o.as_script_object(&heap).unwrap();
    assert!(script.length_write_walks(&heap, true));
    assert!(!script.length_write_walks(&heap, false));
    assert_eq!(o.set_length_value(&mut heap, text("v"), 2, false), SetOutcome::Done);
    assert_eq!(read(&heap, o, "LENGTH"), text("v"));
    assert_eq!(o.length(&heap), 2);
    assert!(heap.chain_ends(o));
    assert_eq!(o.set_length_value(&mut heap, text("w"), 3, true), SetOutcome::Done);
    assert_eq!(read(&heap, o, "LENGTH"), number(3.0));
    assert_eq!(read(&heap, o, "length"), text("w"));
    assert!(!script.length_write_walks(&heap, true));
    assert_eq!(o.get_keys(&heap, true), vec!["LENGTH".to_string(), "length".to_string()]);
}

#[test]
fn length_write_sets_the_length_and_stores_the_value() {
    let mut heap = Heap::new();
    let a = array(&mut heap);
    a.set_array_element(&mut heap, 4, text("e"));
    assert_eq!(
        a.set(&mut heap, "length", number(2.0), true),
        SetOutcome::CoerceToLength(number(2.0))
    );
    assert_eq!(a.length(&heap), 5);
    assert_eq!(a.set_length_value(&mut heap, number(2.0), 2, true), SetOutcome::Done);
    assert_eq!(a.length(&heap), 2);
    assert_eq!(read(&heap, a, "length"), number(2.0));
    assert_eq!(read(&heap, a, "4"), Value::Undefined);
    assert_eq!(a.set_length_value(&mut heap, text("abc"), 0, true), SetOutcome::Done);
    assert_eq!(a.length(&heap), 0);
    assert_eq!(read(&heap, a, "length"), text("abc"));
    assert_eq!(a.set_length_value(&mut heap, number(-3.0), -3, true), SetOutcome::Done);
    assert_eq!(a.length(&heap), 0);
    assert_eq!(read(&heap, a, "length"), number(-3.0));
    assert_eq!(a.set_length_value(&mut heap, number(3.0), 3, true), SetOutcome::Done);
    assert_eq!(a.length(&heap), 3);
    assert!(!a.is_property_enumerable(&heap, "length", true));
}

#[test]
fn length_write_on_a_plain_object() {
    let mut heap = Heap::new();
    let o = ScriptObject::object_cell(&mut heap, None);
    assert_eq!(o.set_length_value(&mut heap, text("7"), 7, false), SetOutcome::Done);
    assert_eq!(o.length(&heap), 7);
    assert_eq!(read(&heap, o, "length"), text("7"));
    assert_eq!(o.get_keys(&heap, true), Vec::<String>::new());
}

#[test]
fn object_data_stands_alone() {
    let mut data = ScriptObjectData::new_array(None);
    assert!(data.is_array());
    assert_eq!(data.set_array_element(1, text("b")), 2);
    assert_eq!(data.length(), 2);
    assert_eq!(data.array(), vec![Value::Undefined, text("b")]);
    assert_eq!(data.own_keys(), vec!["1".to_string()]);
    assert!(data.contains_key("length", true));
    assert_eq!(data.write_own("k", text("v"), true), None);
    assert_eq!(data.own_keys(), vec!["1".to_string(), "k".to_string()]);
    assert_eq!(
        data.unshadowed_names(&vec!["k".to_string(), "z".to_string(), "1".to_string()], true),
        vec!["z".to_string()]
    );
    assert!(data.delete("k", true));
    assert!(!data.delete("k", true));
    let plain = ScriptObjectData::new(None);
    assert!(!plain.is_array());
    assert_eq!(plain.type_of(), "object");
    assert_eq!(plain.proto(), None);
}

#[test]
fn lost_slot_can_still_be_inherited() {
    let mut heap = Heap::new();
    let proto = ScriptObject::object_cell(&mut heap, None);
    proto.define_value(&mut heap, "1", text("from the prototype"), AttributeSet::empty());
    let a = Object::ScriptObject(ScriptObject::array(&mut heap, Some(proto)));
    a.set_array_element(&mut heap, 1, text("own"));
    a.set_array_element(&mut heap, 2, text("other"));
    assert_eq!(read(&heap, a, "1"), text("own"));
    a.set_length(&mut heap, 0);
    assert_eq!(read(&heap, a, "1"), text("from the prototype"));
    assert_eq!(read(&heap, a, "2"), Value::Undefined);
    assert_eq!(a.array_element(&heap, 1), Value::Undefined);
}
