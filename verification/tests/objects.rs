use script_object::heap::Heap;
use script_object::object::{getter_value, Lookup, SetOutcome, TObject};
use script_object::property::{Attribute, AttributeSet};
use script_object::value::{Executable, Invocation, Object, ScriptObject, Value};

const GETTER_VIRTUAL: Executable = Executable { code: 1 };
const GETTER_NULL: Executable = Executable { code: 2 };
const GETTER_FAILS: Executable = Executable { code: 3 };
const GETTER_THIS: Executable = Executable { code: 4 };
const SETTER_STORES: Executable = Executable { code: 5 };

fn text(s: &str) -> Value {
    Value::String(s.to_string())
}

fn number(n: f64) -> Value {
    Value::Number(n.to_bits())
}

/// What the interpreter would do with a callable.
fn run(heap: &mut Heap, call: Invocation) -> Result<Value, String> {
    match call.callable.code {
        1 => Ok(text("Virtual!")),
        2 => Ok(Value::Null),
        3 => Err("getter failed".to_string()),
        4 => Ok(Value::Object(call.this)),
        5 => {
            call.this.define_value(heap, "stored_by_setter", call.args[0].clone(), AttributeSet::empty());
            Ok(Value::Undefined)
        }
        _ => Err("unknown callable".to_string()),
    }
}

fn coerce_to_length(value: &Value) -> i32 {
    match value {
        Value::Number(bits) => f64::from_bits(*bits).abs() as i32,
        Value::Bool(true) => 1,
        Value::String(s) => s.parse::<f64>().map(|v| v.abs() as i32).unwrap_or(0),
        _ => 0,
    }
}

fn get(heap: &mut Heap, object: Object, name: &str, case_sensitive: bool) -> Value {
    assert!(heap.contains(object));
    assert!(heap.chain_ends(object));
    match object.get(heap, name, case_sensitive) {
        Lookup::Found(value) => value,
        Lookup::Call(call) => getter_value(run(heap, call)),
    }
}

fn set(heap: &mut Heap, object: Object, name: &str, value: Value, case_sensitive: bool) {
    assert!(heap.contains(object));
    assert!(heap.chain_ends(object));
    match object.set(heap, name, value, case_sensitive) {
        SetOutcome::Done => {}
        SetOutcome::Run(call) => {
            let _ = run(heap, call);
        }
        SetOutcome::CoerceToObject(value) => match value {
            Value::Object(o) => object.set_proto(heap, Some(o)),
            _ => panic!("no object to coerce to"),
        },
        SetOutcome::CoerceToLength(value) => {
            let length = coerce_to_length(&value);
            let base = object.as_script_object(heap).unwrap();
            assert!(!base.length_write_walks(heap, case_sensitive) || heap.chain_ends(Object::ScriptObject(base)));
            match object.set_length_value(heap, value, length, case_sensitive) {
                SetOutcome::Run(call) => {
                    let _ = run(heap, call);
                }
                SetOutcome::Done => {}
                other => panic!("unexpected {:?}", other),
            }
        }
    }
}

/// A heap with an object whose prototype carries a built-in, as a host would
/// set it up.
fn with_object() -> (Heap, Object) {
    let mut heap = Heap::new();
    let proto = ScriptObject::object(&mut heap, None);
    let function = ScriptObject::object_cell(&mut heap, None);
    proto.force_set_function(&mut heap, "toString", function, AttributeSet::only(Attribute::DontEnum));
    let object = ScriptObject::object_cell(&mut heap, Some(Object::ScriptObject(proto)));
    (heap, object)
}

#[test]
fn test_get_undefined() {
    let (mut heap, object) = with_object();
    assert_eq!(get(&mut heap, object, "not_defined", false), Value::Undefined);
}

#[test]
fn test_set_get() {
    let (mut heap, object) = with_object();
    object.as_script_object(&heap).unwrap().define_value(
        &mut heap,
        "forced",
        text("forced"),
        AttributeSet::empty(),
    );
    set(&mut heap, object, "natural", text("natural"), false);

    assert_eq!(get(&mut heap, object, "forced", false), text("forced"));
    assert_eq!(get(&mut heap, object, "natural", false), text("natural"));
}

#[test]
fn test_set_readonly() {
    let (mut heap, object) = with_object();
    object.as_script_object(&heap).unwrap().define_value(
        &mut heap,
        "normal",
        text("initial"),
        AttributeSet::empty(),
    );
    object.as_script_object(&heap).unwrap().define_value(
        &mut heap,
        "readonly",
        text("initial"),
        AttributeSet::only(Attribute::ReadOnly),
    );

    set(&mut heap, object, "normal", text("replaced"), false);
    set(&mut heap, object, "readonly", text("replaced"), false);

    assert_eq!(get(&mut heap, object, "normal", false), text("replaced"));
    assert_eq!(get(&mut heap, object, "readonly", false), text("initial"));
}

#[test]
fn test_deletable_not_readonly() {
    let (mut heap, object) = with_object();
    object.as_script_object(&heap).unwrap().define_value(
        &mut heap,
        "test",
        text("initial"),
        AttributeSet::only(Attribute::DontDelete),
    );

    assert_eq!(object.delete(&mut heap, "test", false), false);
    assert_eq!(get(&mut heap, object, "test", false), text("initial"));

    let script = Object::ScriptObject(object.as_script_object(&heap).unwrap());
    set(&mut heap, script, "test", text("replaced"), false);

    assert_eq!(object.delete(&mut heap, "test", false), false);
    assert_eq!(get(&mut heap, object, "test", false), text("replaced"));
}

#[test]
fn test_virtual_get() {
    let (mut heap, object) = with_object();
    object.as_script_object(&heap).unwrap().add_property(
        &mut heap,
        "test",
        GETTER_VIRTUAL,
        None,
        AttributeSet::empty(),
    );

    assert_eq!(get(&mut heap, object, "test", false), text("Virtual!"));

    // This set should do nothing
    set(&mut heap, object, "test", text("Ignored!"), false);
    assert_eq!(get(&mut heap, object, "test", false), text("Virtual!"));
}

#[test]
fn test_delete() {
    let (mut heap, object) = with_object();
    let script = object.as_script_object(&heap).unwrap();
    script.add_property(&mut heap, "virtual", GETTER_VIRTUAL, None, AttributeSet::empty());
    script.add_property(
        &mut heap,
        "virtual_un",
        GETTER_VIRTUAL,
        None,
        AttributeSet::only(Attribute::DontDelete),
    );
    script.define_value(&mut heap, "stored", text("Stored!"), AttributeSet::empty());
    script.define_value(
        &mut heap,
        "stored_un",
        text("Stored!"),
        AttributeSet::only(Attribute::DontDelete),
    );

    assert_eq!(object.delete(&mut heap, "virtual", false), true);
    assert_eq!(object.delete(&mut heap, "virtual_un", false), false);
    assert_eq!(object.delete(&mut heap, "stored", false), true);
    assert_eq!(object.delete(&mut heap, "stored_un", false), false);
    assert_eq!(object.delete(&mut heap, "non_existent", false), false);

    assert_eq!(get(&mut heap, object, "virtual", false), Value::Undefined);
    assert_eq!(get(&mut heap, object, "virtual_un", false), text("Virtual!"));
    assert_eq!(get(&mut heap, object, "stored", false), Value::Undefined);
    assert_eq!(get(&mut heap, object, "stored_un", false), text("Stored!"));
}

#[test]
fn test_iter_values() {
    let (mut heap, object) = with_object();
    let script = object.as_script_object(&heap).unwrap();
    script.define_value(&mut heap, "stored", Value::Null, AttributeSet::empty());
    script.define_value(&mut heap, "stored_hidden", Value::Null, AttributeSet::only(Attribute::DontEnum));
    script.add_property(&mut heap, "virtual", GETTER_NULL, None, AttributeSet::empty());
    script.add_property(
        &mut heap,
        "virtual_hidden",
        GETTER_NULL,
        None,
        AttributeSet::only(Attribute::DontEnum),
    );

    let keys: Vec<_> = object.get_keys(&heap, false);
    assert_eq!(keys.len(), 2);
    assert_eq!(keys.contains(&"stored".to_string()), true);
    assert_eq!(keys.contains(&"stored_hidden".to_string()), false);
    assert_eq!(keys.contains(&"virtual".to_string()), true);
    assert_eq!(keys.contains(&"virtual_hidden".to_string()), false);
}

#[test]
fn fresh_object_reads_undefined() {
    let mut heap = Heap::new();
    let object = ScriptObject::object_cell(&mut heap, None);
    assert_eq!(get(&mut heap, object, "x", true), Value::Undefined);
    let bare = Object::ScriptObject(ScriptObject::bare_object(&mut heap));
    assert_eq!(get(&mut heap, bare, "x", true), Value::Undefined);
    assert_eq!(bare.proto(&heap), None);
    assert_eq!(bare.get_keys(&heap, true), Vec::<String>::new());
}

#[test]
fn defined_value_is_overwritten_unless_read_only() {
    let mut heap = Heap::new();
    let object = ScriptObject::object_cell(&mut heap, None);
    object.define_value(&mut heap, "a", text("A"), AttributeSet::empty());
    set(&mut heap, object, "a", text("B"), true);
    assert_eq!(get(&mut heap, object, "a", true), text("B"));

    let other = ScriptObject::object_cell(&mut heap, None);
    other.define_value(&mut heap, "a", text("A"), AttributeSet::only(Attribute::ReadOnly));
    set(&mut heap, other, "a", text("B"), true);
    assert_eq!(get(&mut heap, other, "a", true), text("A"));
}

#[test]
fn dont_delete_survives_delete_and_write() {
    let mut heap = Heap::new();
    let object = ScriptObject::object_cell(&mut heap, None);
    object.define_value(&mut heap, "t", text("v"), AttributeSet::only(Attribute::DontDelete));
    assert_eq!(object.delete(&mut heap, "t", true), false);
    assert_eq!(get(&mut heap, object, "t", true), text("v"));
    set(&mut heap, object, "t", text("w"), true);
    assert_eq!(object.delete(&mut heap, "t", true), false);
    assert_eq!(get(&mut heap, object, "t", true), text("w"));
}

#[test]
fn accessor_without_setter_ignores_writes() {
    let mut heap = Heap::new();
    let object = ScriptObject::object_cell(&mut heap, None);
    object.add_property(&mut heap, "g", GETTER_VIRTUAL, None, AttributeSet::empty());
    assert_eq!(get(&mut heap, object, "g", true), text("Virtual!"));
    let before = format!("{:?}", heap);
    assert_eq!(object.set(&mut heap, "g", text("X"), true), SetOutcome::Done);
    assert_eq!(format!("{:?}", heap), before);
    assert_eq!(get(&mut heap, object, "g", true), text("Virtual!"));
}

#[test]
fn enumeration_lists_enumerable_names_in_insertion_order() {
    let mut heap = Heap::new();
    let object = ScriptObject::object_cell(&mut heap, None);
    object.define_value(&mut heap, "stored", Value::Null, AttributeSet::empty());
    object.define_value(&mut heap, "stored_hidden", Value::Null, AttributeSet::only(Attribute::DontEnum));
    object.add_property(&mut heap, "virtual", GETTER_NULL, None, AttributeSet::empty());
    object.add_property(&mut heap, "virtual_hidden", GETTER_NULL, None, AttributeSet::only(Attribute::DontEnum));
    assert_eq!(object.get_keys(&heap, true), vec!["stored".to_string(), "virtual".to_string()]);
    assert!(object.is_property_enumerable(&heap, "stored", true));
    assert!(!object.is_property_enumerable(&heap, "stored_hidden", true));
    assert!(object.is_property_enumerable(&heap, "virtual", true));
    assert!(!object.is_property_enumerable(&heap, "virtual_hidden", true));
    assert!(!object.is_property_enumerable(&heap, "missing", true));
}

#[test]
fn written_value_is_read_back() {
    for name in ["x", "natural", "length", "a b", "_", "Ünïcode", "x1", "-1", "+5", "+", "+0", "a1"] {
        for case_sensitive in [true, false] {
            let mut heap = Heap::new();
            let object = ScriptObject::object_cell(&mut heap, None);
            set(&mut heap, object, name, text("v"), case_sensitive);
            assert_eq!(get(&mut heap, object, name, case_sensitive), text("v"), "{}", name);
        }
    }
}

#[test]
fn value_written_under_a_signed_name_is_kept_under_the_name() {
    let mut heap = Heap::new();
    let object = ScriptObject::object_cell(&mut heap, None);
    set(&mut heap, object, "+5", text("v"), true);
    assert_eq!(get(&mut heap, object, "+5", true), text("v"));
    assert!(object.has_own_property(&heap, "+5", true));
    assert_eq!(get(&mut heap, object, "5", true), Value::Undefined);
    assert_eq!(object.get_keys(&heap, true), vec!["+5".to_string()]);
}

#[test]
fn value_written_under_digits_is_kept_under_the_index() {
    let mut heap = Heap::new();
    let object = ScriptObject::object_cell(&mut heap, None);
    set(&mut heap, object, "007", text("w"), true);
    assert_eq!(get(&mut heap, object, "007", true), Value::Undefined);
    assert_eq!(get(&mut heap, object, "7", true), text("w"));
    set(&mut heap, object, "5", text("v"), true);
    assert_eq!(get(&mut heap, object, "5", true), text("v"));
    assert_eq!(object.get_keys(&heap, true), vec!["7".to_string(), "5".to_string()]);
}

#[test]
fn empty_name_is_not_written() {
    let mut heap = Heap::new();
    let object = ScriptObject::object_cell(&mut heap, None);
    assert_eq!(object.set(&mut heap, "", text("v"), true), SetOutcome::Done);
    assert_eq!(get(&mut heap, object, "", true), Value::Undefined);
    assert!(!object.has_own_property(&heap, "", true));
    assert_eq!(object.get_keys(&heap, true), Vec::<String>::new());
}

#[test]
fn case_insensitive_write_keeps_the_casing() {
    let mut heap = Heap::new();
    let object = ScriptObject::object_cell(&mut heap, None);
    set(&mut heap, object, "FOO", text("v"), false);
    assert_eq!(get(&mut heap, object, "foo", false), text("v"));
    assert!(object.has_own_property(&heap, "Foo", false));
    assert!(heap.state_of(object).contains_key("Foo", false));
    assert!(!heap.state_of(object).contains_key("Foo", true));
    assert_eq!(object.get_keys(&heap, false), vec!["FOO".to_string()]);
    set(&mut heap, object, "foo", text("w"), false);
    assert_eq!(object.get_keys(&heap, false), vec!["FOO".to_string()]);
    assert_eq!(get(&mut heap, object, "Foo", false), text("w"));
    assert_eq!(get(&mut heap, object, "foo", true), Value::Undefined);
    set(&mut heap, object, "foo", text("x"), true);
    assert_eq!(object.get_keys(&heap, true), vec!["FOO".to_string(), "foo".to_string()]);
    assert_eq!(get(&mut heap, object, "foo", false), text("w"));
    assert_eq!(get(&mut heap, object, "foo", true), text("x"));
}

#[test]
fn proto_name_reads_and_writes_the_link() {
    let mut heap = Heap::new();
    let first = ScriptObject::object_cell(&mut heap, None);
    let second = ScriptObject::object_cell(&mut heap, None);
    let object = ScriptObject::object_cell(&mut heap, Some(first));
    assert_eq!(get(&mut heap, object, "__proto__", true), Value::Object(first));
    assert_eq!(get(&mut heap, first, "__proto__", true), Value::Undefined);
    assert_eq!(
        object.set(&mut heap, "__proto__", Value::Object(second), true),
        SetOutcome::CoerceToObject(Value::Object(second))
    );
    assert_eq!(object.proto(&heap), Some(first));
    set(&mut heap, object, "__proto__", Value::Object(second), true);
    assert_eq!(object.proto(&heap), Some(second));
    assert_eq!(get(&mut heap, object, "__proto__", true), Value::Object(second));
    assert!(object.has_own_property(&heap, "__proto__", true));
    assert!(object.has_property(&heap, "__proto__", true));
    assert_eq!(object.delete(&mut heap, "__proto__", true), false);
    assert_eq!(object.get_keys(&heap, true), Vec::<String>::new());
    object.set_proto(&mut heap, None);
    assert_eq!(get(&mut heap, object, "__proto__", true), Value::Undefined);
}

#[test]
fn defined_proto_key_is_never_listed() {
    let mut heap = Heap::new();
    let object = ScriptObject::object_cell(&mut heap, None);
    object.define_value(&mut heap, "__proto__", text("odd"), AttributeSet::empty());
    object.define_value(&mut heap, "plain", text("v"), AttributeSet::empty());
    assert_eq!(object.get_keys(&heap, true), vec!["plain".to_string()]);
    assert_eq!(get(&mut heap, object, "__proto__", true), Value::Undefined);
}

#[test]
fn reads_walk_the_prototype_chain() {
    let mut heap = Heap::new();
    let root = ScriptObject::object_cell(&mut heap, None);
    let middle = ScriptObject::object_cell(&mut heap, Some(root));
    let object = ScriptObject::object_cell(&mut heap, Some(middle));
    root.define_value(&mut heap, "deep", text("root"), AttributeSet::empty());
    root.define_value(&mut heap, "both", text("root"), AttributeSet::empty());
    middle.define_value(&mut heap, "both", text("middle"), AttributeSet::empty());
    assert_eq!(get(&mut heap, object, "deep", true), text("root"));
    assert_eq!(get(&mut heap, object, "both", true), text("middle"));
    assert_eq!(get(&mut heap, object, "none", true), Value::Undefined);
    assert_eq!(object.get_local(&heap, "deep", true, object), Lookup::Found(Value::Undefined));
    assert!(object.has_property(&heap, "deep", true));
    assert!(!object.has_own_property(&heap, "deep", true));
    assert!(!object.has_property(&heap, "none", true));
    assert!(root.has_own_property(&heap, "deep", true));
    assert_eq!(heap.chain_of(object), vec![object, middle, root]);
}

#[test]
fn inherited_getter_sees_the_object_read_from() {
    let mut heap = Heap::new();
    let proto = ScriptObject::object_cell(&mut heap, None);
    let object = ScriptObject::object_cell(&mut heap, Some(proto));
    proto.add_property(&mut heap, "me", GETTER_THIS, None, AttributeSet::empty());
    assert_eq!(
        object.get(&heap, "me", true),
        Lookup::Call(Invocation { callable: GETTER_THIS, this: object, base_proto: Some(proto), args: vec![] })
    );
    assert_eq!(get(&mut heap, object, "me", true), Value::Object(object));
    assert_eq!(get(&mut heap, proto, "me", true), Value::Object(proto));
}

#[test]
fn failing_getter_reads_undefined() {
    let mut heap = Heap::new();
    let object = ScriptObject::object_cell(&mut heap, None);
    object.add_property(&mut heap, "bad", GETTER_FAILS, None, AttributeSet::empty());
    assert_eq!(get(&mut heap, object, "bad", true), Value::Undefined);
    assert_eq!(getter_value::<String>(Ok(text("fine"))), text("fine"));
    assert_eq!(getter_value::<String>(Err("no".to_string())), Value::Undefined);
}

#[test]
fn write_goes_through_an_inherited_setter() {
    let mut heap = Heap::new();
    let root = ScriptObject::object_cell(&mut heap, None);
    let proto = ScriptObject::object_cell(&mut heap, Some(root));
    let object = ScriptObject::object_cell(&mut heap, Some(proto));
    root.add_property(&mut heap, "p", GETTER_VIRTUAL, Some(SETTER_STORES), AttributeSet::empty());
    assert_eq!(
        object.set(&mut heap, "p", text("X"), true),
        SetOutcome::Run(Invocation {
            callable: SETTER_STORES,
            this: object,
            base_proto: Some(root),
            args: vec![text("X")],
        })
    );
    assert!(!object.has_own_property(&heap, "p", true));
    set(&mut heap, object, "p", text("X"), true);
    assert!(!object.has_own_property(&heap, "p", true));
    assert_eq!(get(&mut heap, object, "stored_by_setter", true), text("X"));
    assert!(object.has_own_property(&heap, "stored_by_setter", true));
    assert!(!root.has_own_property(&heap, "stored_by_setter", true));
}

#[test]
fn inherited_accessor_without_setter_swallows_the_write() {
    let mut heap = Heap::new();
    let proto = ScriptObject::object_cell(&mut heap, None);
    let object = ScriptObject::object_cell(&mut heap, Some(proto));
    proto.add_property(&mut heap, "p", GETTER_VIRTUAL, None, AttributeSet::empty());
    assert_eq!(object.set(&mut heap, "p", text("X"), true), SetOutcome::Done);
    assert!(!object.has_own_property(&heap, "p", true));
    assert_eq!(get(&mut heap, object, "p", true), text("Virtual!"));
}

#[test]
fn own_property_shields_from_an_inherited_setter() {
    let mut heap = Heap::new();
    let proto = ScriptObject::object_cell(&mut heap, None);
    let object = ScriptObject::object_cell(&mut heap, Some(proto));
    proto.add_property(&mut heap, "p", GETTER_VIRTUAL, Some(SETTER_STORES), AttributeSet::empty());
    object.define_value(&mut heap, "p", text("own"), AttributeSet::empty());
    assert_eq!(object.set(&mut heap, "p", text("X"), true), SetOutcome::Done);
    assert_eq!(get(&mut heap, object, "p", true), text("X"));
}

#[test]
fn own_setter_runs_with_the_object_as_base() {
    let mut heap = Heap::new();
    let object = ScriptObject::object_cell(&mut heap, None);
    object.add_property(&mut heap, "p", GETTER_VIRTUAL, Some(SETTER_STORES), AttributeSet::empty());
    assert_eq!(
        object.set(&mut heap, "p", number(1.0), true),
        SetOutcome::Run(Invocation {
            callable: SETTER_STORES,
            this: object,
            base_proto: Some(object),
            args: vec![number(1.0)],
        })
    );
    assert_eq!(object.call_setter(&heap, "p", Value::Null, true), Some(SETTER_STORES));
    assert_eq!(object.call_setter(&heap, "q", Value::Null, true), None);
    object.define_value(&mut heap, "q", Value::Null, AttributeSet::empty());
    assert_eq!(object.call_setter(&heap, "q", Value::Null, true), None);
    assert!(object.has_own_virtual(&heap, "p", true));
    assert!(!object.has_own_virtual(&heap, "q", true));
    assert!(!object.has_own_virtual(&heap, "r", true));
}

#[test]
fn internal_set_hands_receiver_and_base_on() {
    let mut heap = Heap::new();
    let other = ScriptObject::object_cell(&mut heap, None);
    let script = ScriptObject::object(&mut heap, None);
    script.add_property(&mut heap, "p", GETTER_VIRTUAL, Some(SETTER_STORES), AttributeSet::empty());
    assert_eq!(
        script.internal_set(&mut heap, "p", Value::Null, true, other, None),
        SetOutcome::Run(Invocation { callable: SETTER_STORES, this: other, base_proto: None, args: vec![Value::Null] })
    );
}

#[test]
fn enumeration_puts_unshadowed_prototype_names_first() {
    let mut heap = Heap::new();
    let root = ScriptObject::object_cell(&mut heap, None);
    let proto = ScriptObject::object_cell(&mut heap, Some(root));
    let object = ScriptObject::object_cell(&mut heap, Some(proto));
    root.define_value(&mut heap, "deep", Value::Null, AttributeSet::empty());
    root.define_value(&mut heap, "shared", Value::Null, AttributeSet::empty());
    root.define_value(&mut heap, "r_hidden", Value::Null, AttributeSet::only(Attribute::DontEnum));
    proto.define_value(&mut heap, "mid", Value::Null, AttributeSet::empty());
    proto.define_value(&mut heap, "shared", Value::Null, AttributeSet::empty());
    object.define_value(&mut heap, "own", Value::Null, AttributeSet::empty());
    object.define_value(&mut heap, "mid", Value::Null, AttributeSet::only(Attribute::DontEnum));
    object.define_value(&mut heap, "DEEP", Value::Null, AttributeSet::empty());
    assert_eq!(root.get_keys(&heap, true), vec!["deep".to_string(), "shared".to_string()]);
    assert_eq!(
        proto.get_keys(&heap, true),
        vec!["deep".to_string(), "mid".to_string(), "shared".to_string()]
    );
    assert_eq!(
        object.get_keys(&heap, true),
        vec!["deep".to_string(), "shared".to_string(), "own".to_string(), "DEEP".to_string()]
    );
    assert_eq!(
        object.get_keys(&heap, false),
        vec!["shared".to_string(), "own".to_string(), "DEEP".to_string()]
    );
}

#[test]
fn set_attributes_changes_one_or_all() {
    let mut heap = Heap::new();
    let object = ScriptObject::object_cell(&mut heap, None);
    object.define_value(&mut heap, "a", Value::Null, AttributeSet::empty());
    object.define_value(&mut heap, "b", Value::Null, AttributeSet::only(Attribute::ReadOnly));
    object.add_property(&mut heap, "c", GETTER_NULL, None, AttributeSet::only(Attribute::DontEnum));
    object.set_attributes(&mut heap, Some("a"), AttributeSet::only(Attribute::DontEnum), AttributeSet::empty());
    assert_eq!(object.get_keys(&heap, true), vec!["b".to_string()]);
    object.set_attributes(&mut heap, Some("A"), AttributeSet::only(Attribute::DontDelete), AttributeSet::empty());
    assert_eq!(object.get_keys(&heap, true), vec!["b".to_string()]);
    assert_eq!(object.delete(&mut heap, "a", true), false);
    object.set_attributes(&mut heap, Some("A"), AttributeSet::empty(), AttributeSet::only(Attribute::DontDelete));
    assert_eq!(object.delete(&mut heap, "a", true), true);
    object.set_attributes(
        &mut heap,
        None,
        AttributeSet::only(Attribute::DontDelete),
        AttributeSet::only(Attribute::DontEnum).union(AttributeSet::only(Attribute::ReadOnly)),
    );
    assert_eq!(object.get_keys(&heap, true), vec!["b".to_string(), "c".to_string()]);
    assert_eq!(object.delete(&mut heap, "b", true), false);
    assert_eq!(object.delete(&mut heap, "c", true), false);
    set(&mut heap, object, "b", text("now writable"), true);
    assert_eq!(get(&mut heap, object, "b", true), text("now writable"));
    object.set_attributes(&mut heap, Some("missing"), AttributeSet::only(Attribute::DontEnum), AttributeSet::empty());
    assert_eq!(object.get_keys(&heap, true), vec!["b".to_string(), "c".to_string()]);
}

#[test]
fn add_property_with_case_replaces_under_the_found_key() {
    let mut heap = Heap::new();
    let object = ScriptObject::object_cell(&mut heap, None);
    object.define_value(&mut heap, "Name", text("v"), AttributeSet::empty());
    object.add_property_with_case(&mut heap, "NAME", GETTER_VIRTUAL, None, AttributeSet::empty(), false);
    assert_eq!(object.get_keys(&heap, true), vec!["Name".to_string()]);
    assert_eq!(get(&mut heap, object, "Name", true), text("Virtual!"));
    object.add_property_with_case(&mut heap, "NAME", GETTER_NULL, None, AttributeSet::empty(), true);
    assert_eq!(object.get_keys(&heap, true), vec!["Name".to_string(), "NAME".to_string()]);
    object.add_property(&mut heap, "name", GETTER_NULL, None, AttributeSet::empty());
    assert_eq!(object.get_keys(&heap, true), vec!["Name".to_string(), "NAME".to_string()]);
    assert_eq!(get(&mut heap, object, "Name", true), Value::Null);
    assert!(!object.has_own_property(&heap, "name", true));
    object.define_value(&mut heap, "name", text("exact"), AttributeSet::empty());
    assert_eq!(
        object.get_keys(&heap, true),
        vec!["Name".to_string(), "NAME".to_string(), "name".to_string()]
    );
    assert_eq!(get(&mut heap, object, "Name", true), Value::Null);
    assert_eq!(get(&mut heap, object, "name", true), text("exact"));
}

#[test]
fn type_tag_interfaces_and_string() {
    let mut heap = Heap::new();
    let script = ScriptObject::object(&mut heap, None);
    let object = Object::ScriptObject(script);
    let iface = ScriptObject::object_cell(&mut heap, None);
    assert_eq!(object.type_of(&heap), "object");
    script.set_type_of(&mut heap, "function");
    assert_eq!(object.type_of(&heap), "function");
    assert_eq!(object.interfaces(&heap), Vec::<Object>::new());
    object.set_interfaces(&mut heap, vec![iface, object]);
    assert_eq!(object.interfaces(&heap), vec![iface, object]);
    assert_eq!(object.as_string(), "[object Object]");
    assert_eq!(object.call("f", object, None, &[text("arg")]), Value::Undefined);
    assert_eq!(object.as_executable(), None);
    assert_eq!(object.as_display_object(), None);
    assert_eq!(object.as_sound_object(), None);
    assert_eq!(object.as_shared_object(), None);
    assert_eq!(object.as_script_object(&heap), Some(script));
    assert_eq!(object.as_object(), object);
    assert_eq!(script.as_object(), object);
}

#[test]
fn force_set_function_defines_a_value() {
    let mut heap = Heap::new();
    let script = ScriptObject::object(&mut heap, None);
    let function = ScriptObject::object_cell(&mut heap, None);
    script.force_set_function(
        &mut heap,
        "f",
        function,
        AttributeSet::only(Attribute::DontEnum).union(AttributeSet::only(Attribute::ReadOnly)),
    );
    let object = Object::ScriptObject(script);
    assert_eq!(get(&mut heap, object, "f", true), Value::Object(function));
    assert_eq!(object.get_keys(&heap, true), Vec::<String>::new());
    set(&mut heap, object, "f", Value::Null, true);
    assert_eq!(get(&mut heap, object, "f", true), Value::Object(function));
}

#[test]
fn identity_is_the_handle() {
    let mut heap = Heap::new();
    let a = ScriptObject::object_cell(&mut heap, None);
    let b = ScriptObject::object_cell(&mut heap, None);
    assert_eq!(a.as_ptr(), a.as_ptr());
    assert_ne!(a.as_ptr(), b.as_ptr());
    let again = Object::ScriptObject(a.as_script_object(&heap).unwrap());
    assert_eq!(again.as_ptr(), a.as_ptr());
    assert_eq!(a.as_script_object(&heap).unwrap().as_ptr(), a.as_ptr());
}

#[test]
fn new_makes_a_child_of_the_same_shape() {
    let mut heap = Heap::new();
    let unused = ScriptObject::object_cell(&mut heap, None);
    let plain = ScriptObject::object_cell(&mut heap, None);
    let array = Object::ScriptObject(ScriptObject::array(&mut heap, None));
    let this = ScriptObject::object_cell(&mut heap, None);
    let child = plain.new(&mut heap, this, unused);
    assert_eq!(child.proto(&heap), Some(this));
    assert!(!heap.state_of(child).is_array());
    assert!(!child.has_own_property(&heap, "length", true));
    let child = array.new(&mut heap, this, unused);
    assert_eq!(child.proto(&heap), Some(this));
    assert!(heap.state_of(child).is_array());
    assert_eq!(get(&mut heap, child, "length", true), number(0.0));
    assert_eq!(child.length(&heap), 0);
}

#[test]
fn chain_check_finds_a_cycle() {
    let mut heap = Heap::new();
    let a = ScriptObject::object_cell(&mut heap, None);
    let b = ScriptObject::object_cell(&mut heap, Some(a));
    let c = ScriptObject::object_cell(&mut heap, Some(b));
    assert!(heap.chain_ends(c));
    a.set_proto(&mut heap, Some(c));
    assert!(!heap.chain_ends(a));
    assert!(!heap.chain_ends(b));
    assert!(!heap.chain_ends(c));
    let d = ScriptObject::object_cell(&mut heap, Some(a));
    assert!(!heap.chain_ends(d));
    a.set_proto(&mut heap, Some(a));
    assert!(!heap.chain_ends(a));
    a.set_proto(&mut heap, None);
    assert!(heap.chain_ends(d));
    assert_eq!(heap.chain_of(d), vec![d, a]);
    assert!(!heap.contains(Object::ScriptObject(ScriptObject { index: 99 })));
    assert_eq!(heap.len(), 4);
}

#[test]
fn write_to_own_property_works_on_a_cyclic_chain() {
    let mut heap = Heap::new();
    let a = ScriptObject::object_cell(&mut heap, None);
    let b = ScriptObject::object_cell(&mut heap, Some(a));
    a.set_proto(&mut heap, Some(b));
    a.define_value(&mut heap, "x", text("old"), AttributeSet::empty());
    assert_eq!(a.set(&mut heap, "x", text("new"), true), SetOutcome::Done);
    assert_eq!(a.get_local(&heap, "x", true, a), Lookup::Found(text("new")));
    assert_eq!(a.set(&mut heap, "3", text("slot"), true), SetOutcome::Done);
    assert_eq!(a.get_local(&heap, "3", true, a), Lookup::Found(text("slot")));
}

#[test]
fn write_preconditions_can_be_tested() {
    let mut heap = Heap::new();
    let script = ScriptObject::object(&mut heap, None);
    let array = ScriptObject::array(&mut heap, None);
    script.define_value(&mut heap, "own", Value::Null, AttributeSet::empty());
    assert!(script.set_walks(&heap, "other", true));
    assert!(script.set_walks(&heap, "OWN", true));
    assert!(!script.set_walks(&heap, "OWN", false));
    assert!(!script.set_walks(&heap, "own", true));
    assert!(!script.set_walks(&heap, "", true));
    assert!(!script.set_walks(&heap, "12", true));
    assert!(!script.set_walks(&heap, "length", true));
    assert!(!script.set_walks(&heap, "__proto__", true));
    let last = usize::MAX.to_string();
    assert!(!script.set_overflows(&heap, &last));
    assert!(array.set_overflows(&heap, &last));
    assert!(!array.set_overflows(&heap, "12"));
    assert!(!array.set_overflows(&heap, "x"));
    assert_eq!(script.set(&mut heap, &last, text("far"), true), SetOutcome::Done);
    assert_eq!(get(&mut heap, Object::ScriptObject(script), &last, true), text("far"));
}

#[test]
fn heap_reads_agree_with_the_handles() {
    let mut heap = Heap::new();
    let proto = ScriptObject::object_cell(&mut heap, None);
    let object = ScriptObject::object_cell(&mut heap, Some(proto));
    proto.define_value(&mut heap, "p", text("v"), AttributeSet::empty());
    assert_eq!(heap.read(object, "p", true), object.get(&heap, "p", true));
    assert_eq!(heap.read_local(object, "p", true, object), Lookup::Found(Value::Undefined));
    assert_eq!(heap.find_owner(object, "p", true, false), Some(proto));
    assert_eq!(heap.find_owner(object, "p", true, true), None);
    assert_eq!(heap.find_owner(object, "q", true, false), None);
    assert_eq!(heap.find_owner(object, "__proto__", true, false), Some(object));
    assert!(heap.inherits(object, "p", true));
    assert_eq!(heap.enumerate(object, true), vec!["p".to_string()]);
    assert_eq!(heap.base_of(object), object.as_script_object(&heap).unwrap());
}

#[test]
fn index_and_length_writes_pass_by_read_only() {
    let mut heap = Heap::new();
    let object = ScriptObject::object_cell(&mut heap, None);
    object.define_value(&mut heap, "3", text("first"), AttributeSet::only(Attribute::ReadOnly));
    set(&mut heap, object, "3", text("second"), true);
    assert_eq!(get(&mut heap, object, "3", true), text("second"));
    object.define_value(&mut heap, "length", text("first"), AttributeSet::only(Attribute::ReadOnly));
    set(&mut heap, object, "length", number(2.0), true);
    assert_eq!(get(&mut heap, object, "length", true), number(2.0));
    assert_eq!(object.length(&heap), 2);
    set(&mut heap, object, "length", text("9"), true);
    assert_eq!(get(&mut heap, object, "length", true), number(9.0));
    assert_eq!(object.length(&heap), 9);
}

#[test]
fn read_only_under_another_casing_is_not_reached() {
    let mut heap = Heap::new();
    let object = ScriptObject::object_cell(&mut heap, None);
    object.define_value(&mut heap, "NAME", text("open"), AttributeSet::empty());
    object.define_value(&mut heap, "name", text("locked"), AttributeSet::only(Attribute::ReadOnly));
    set(&mut heap, object, "name", text("written"), false);
    assert_eq!(get(&mut heap, object, "name", false), text("written"));
    assert_eq!(get(&mut heap, object, "name", true), text("locked"));
    set(&mut heap, object, "name", text("again"), true);
    assert_eq!(get(&mut heap, object, "name", true), text("locked"));
}
