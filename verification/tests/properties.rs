use script_object::property::{Attribute, AttributeSet, Property};
use script_object::property_map::{Entry, PropertyMap};
use script_object::value::{Executable, Value};

fn stored(text: &str, attributes: AttributeSet) -> Property {
    Property::Stored { value: Value::String(text.to_string()), attributes }
}

#[test]
fn attribute_sets_hold_what_was_put_in() {
    let none = AttributeSet::empty();
    assert!(!none.contains(Attribute::DontEnum));
    assert!(!none.contains(Attribute::DontDelete));
    assert!(!none.contains(Attribute::ReadOnly));
    let one = AttributeSet::only(Attribute::DontDelete);
    assert!(!one.contains(Attribute::DontEnum));
    assert!(one.contains(Attribute::DontDelete));
    assert!(!one.contains(Attribute::ReadOnly));
}

#[test]
fn attribute_sets_join_and_part() {
    let a = AttributeSet::only(Attribute::DontEnum).union(AttributeSet::only(Attribute::ReadOnly));
    assert!(a.contains(Attribute::DontEnum));
    assert!(!a.contains(Attribute::DontDelete));
    assert!(a.contains(Attribute::ReadOnly));
    let b = a.difference(AttributeSet::only(Attribute::DontEnum));
    assert_eq!(b, AttributeSet::only(Attribute::ReadOnly));
    assert_eq!(b.difference(b), AttributeSet::empty());
    assert_eq!(a.union(AttributeSet::empty()), a);
}

#[test]
fn changed_attributes_are_old_minus_clear_plus_set() {
    let mut p = stored("v", AttributeSet::only(Attribute::DontEnum).union(AttributeSet::only(Attribute::ReadOnly)));
    let clear = AttributeSet::only(Attribute::DontEnum);
    let set = AttributeSet::only(Attribute::DontDelete);
    let new = p.attributes().difference(clear).union(set);
    p.set_attributes(new);
    assert_eq!(
        p.attributes(),
        AttributeSet { dont_enum: false, dont_delete: true, read_only: true }
    );
    assert!(p.is_enumerable());
    assert!(!p.can_delete());
}

#[test]
fn stored_property_takes_a_write() {
    let mut p = stored("old", AttributeSet::empty());
    assert_eq!(p.set(Value::String("new".to_string())), None);
    assert_eq!(p, stored("new", AttributeSet::empty()));
    assert!(!p.is_virtual());
}

#[test]
fn read_only_property_drops_a_write() {
    let mut p = stored("old", AttributeSet::only(Attribute::ReadOnly));
    assert_eq!(p.set(Value::String("new".to_string())), None);
    assert_eq!(p, stored("old", AttributeSet::only(Attribute::ReadOnly)));
}

#[test]
fn accessor_hands_its_setter_back() {
    let get = Executable { code: 1 };
    let set = Executable { code: 2 };
    let mut with = Property::Virtual { get, set: Some(set), attributes: AttributeSet::empty() };
    assert_eq!(with.set(Value::Null), Some(set));
    assert_eq!(with, Property::Virtual { get, set: Some(set), attributes: AttributeSet::empty() });
    assert!(with.is_virtual());
    let mut without = Property::Virtual { get, set: None, attributes: AttributeSet::empty() };
    assert_eq!(without.set(Value::Null), None);
    assert_eq!(without, Property::Virtual { get, set: None, attributes: AttributeSet::empty() });
}

#[test]
fn enumerable_and_deletable_follow_the_attributes() {
    assert!(stored("v", AttributeSet::empty()).is_enumerable());
    assert!(stored("v", AttributeSet::empty()).can_delete());
    assert!(!stored("v", AttributeSet::only(Attribute::DontEnum)).is_enumerable());
    assert!(stored("v", AttributeSet::only(Attribute::DontEnum)).can_delete());
    assert!(!stored("v", AttributeSet::only(Attribute::DontDelete)).can_delete());
    assert!(stored("v", AttributeSet::only(Attribute::ReadOnly)).can_delete());
}

#[test]
fn map_keeps_insertion_order() {
    let mut map = PropertyMap::new();
    assert_eq!(map.insert("b", stored("1", AttributeSet::empty()), true), None);
    assert_eq!(map.insert("a", stored("2", AttributeSet::empty()), true), None);
    assert_eq!(map.insert("c", stored("3", AttributeSet::empty()), true), None);
    assert_eq!(map.len(), 3);
    assert_eq!(map.key_at(0), "b");
    assert_eq!(map.key_at(1), "a");
    assert_eq!(map.key_at(2), "c");
    assert_eq!(map.property_at(1), &stored("2", AttributeSet::empty()));
}

#[test]
fn map_replaces_under_the_existing_key() {
    let mut map = PropertyMap::new();
    map.insert("Foo", stored("1", AttributeSet::empty()), true);
    map.insert("bar", stored("2", AttributeSet::empty()), true);
    let previous = map.insert("FOO", stored("3", AttributeSet::empty()), false);
    assert_eq!(previous, Some(stored("1", AttributeSet::empty())));
    assert_eq!(map.len(), 2);
    assert_eq!(map.key_at(0), "Foo");
    assert_eq!(map.get("foo", false), Some(&stored("3", AttributeSet::empty())));
    assert_eq!(map.get("foo", true), None);
    assert_eq!(map.get("Foo", true), Some(&stored("3", AttributeSet::empty())));
}

#[test]
fn map_case_sensitive_insert_keeps_both_casings() {
    let mut map = PropertyMap::new();
    map.insert("foo", stored("lower", AttributeSet::empty()), true);
    assert_eq!(map.insert("FOO", stored("upper", AttributeSet::empty()), true), None);
    assert_eq!(map.len(), 2);
    assert_eq!(map.get("FOO", true), Some(&stored("upper", AttributeSet::empty())));
    assert_eq!(map.get("FOO", false), Some(&stored("lower", AttributeSet::empty())));
    assert_eq!(map.get("Foo", false), Some(&stored("lower", AttributeSet::empty())));
    assert_eq!(map.entry("FOO", false), Entry::Occupied(0));
    assert_eq!(map.entry("FOO", true), Entry::Occupied(1));
    assert_eq!(map.entry("fOO", true), Entry::Vacant);
}

#[test]
fn map_contains_key_in_both_modes() {
    let mut map = PropertyMap::new();
    map.insert("FOO", stored("v", AttributeSet::empty()), false);
    assert!(map.contains_key("Foo", false));
    assert!(!map.contains_key("Foo", true));
    assert!(map.contains_key("FOO", true));
    assert!(!map.contains_key("FO", false));
}

#[test]
fn map_remove_keeps_the_order_of_the_rest() {
    let mut map = PropertyMap::new();
    map.insert("a", stored("1", AttributeSet::empty()), true);
    map.insert("b", stored("2", AttributeSet::empty()), true);
    map.insert("c", stored("3", AttributeSet::empty()), true);
    assert_eq!(map.remove("A", false), Some(stored("1", AttributeSet::empty())));
    assert_eq!(map.remove("A", false), None);
    assert_eq!(map.remove("B", true), None);
    assert_eq!(map.len(), 2);
    assert_eq!(map.key_at(0), "b");
    assert_eq!(map.key_at(1), "c");
    assert_eq!(map.remove_at(1), stored("3", AttributeSet::empty()));
    assert_eq!(map.len(), 1);
    assert_eq!(map.key_at(0), "b");
}

#[test]
fn map_changes_a_property_in_place() {
    let mut map = PropertyMap::new();
    map.insert("a", stored("1", AttributeSet::empty()), true);
    map.insert("b", stored("2", AttributeSet::empty()), true);
    map.property_at_mut(1).set(Value::Bool(true));
    assert_eq!(
        map.get("b", true),
        Some(&Property::Stored { value: Value::Bool(true), attributes: AttributeSet::empty() })
    );
    assert_eq!(map.get("a", true), Some(&stored("1", AttributeSet::empty())));
    map.insert_vacant("c", stored("3", AttributeSet::empty()));
    assert_eq!(map.key_at(2), "c");
}

#[test]
fn map_get_mut_reaches_the_found_property() {
    let mut map = PropertyMap::new();
    map.insert("Key", stored("1", AttributeSet::empty()), true);
    assert!(map.get_mut("key", true).is_none());
    match map.get_mut("key", false) {
        Some(p) => {
            p.set(Value::Null);
        }
        None => panic!("not found"),
    }
    assert_eq!(
        map.get("Key", true),
        Some(&Property::Stored { value: Value::Null, attributes: AttributeSet::empty() })
    );
    assert_eq!(map.len(), 1);
}
