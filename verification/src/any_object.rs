//! Objects of any kind, reached through the one handle type that tells the
//! kinds apart.

use vstd::prelude::*;
use crate::heap::Heap;
use crate::object::{object_string, Lookup, SetOutcome, TObject};
use crate::property::AttributeSet;
use crate::value::{
    DisplayObject, Executable, Object, ScriptObject, SharedObject, SoundObject, Value, ValueView,
};

verus! {

/// An object of any kind does what its kind does; each method stands under
/// the contract that the trait gives it.
impl TObject for Object {
    open spec fn handle(&self) -> Object {
        *self
    }

    fn as_object(&self) -> (r: Object) {
        match self {
            Object::ScriptObject(o) => o.as_object(),
            Object::SharedObject(o) => o.as_object(),
        }
    }

    fn get_local(
        &self,
        heap: &Heap,
        name: &str,
        case_sensitive: bool,
        this: Object,
    ) -> (r: Lookup) {
        match self {
            Object::ScriptObject(o) => o.get_local(heap, name, case_sensitive, this),
            Object::SharedObject(o) => o.get_local(heap, name, case_sensitive, this),
        }
    }

    fn get(&self, heap: &Heap, name: &str, case_sensitive: bool) -> (r: Lookup) {
        match self {
            Object::ScriptObject(o) => o.get(heap, name, case_sensitive),
            Object::SharedObject(o) => o.get(heap, name, case_sensitive),
        }
    }

    fn set(
        &self,
        heap: &mut Heap,
        name: &str,
        value: Value,
        case_sensitive: bool,
    ) -> (r: SetOutcome) {
        match self {
            Object::ScriptObject(o) => o.set(heap, name, value, case_sensitive),
            Object::SharedObject(o) => o.set(heap, name, value, case_sensitive),
        }
    }

    fn set_length_value(
        &self,
        heap: &mut Heap,
        value: Value,
        length: i32,
        case_sensitive: bool,
    ) -> (r: SetOutcome) {
        match self {
            Object::ScriptObject(o) => o.set_length_value(heap, value, length, case_sensitive),
            Object::SharedObject(o) => o.set_length_value(heap, value, length, case_sensitive),
        }
    }

    fn call(
        &self,
        name: &str,
        this: Object,
        base_proto: Option<Object>,
        args: &[Value],
    ) -> (r: Value)
        ensures
            r@ == ValueView::Undefined,
    {
        match self {
            Object::ScriptObject(o) => o.call(name, this, base_proto, args),
            Object::SharedObject(o) => o.call(name, this, base_proto, args),
        }
    }

    fn call_setter(
        &self,
        heap: &Heap,
        name: &str,
        value: Value,
        case_sensitive: bool,
    ) -> (r: Option<Executable>) {
        match self {
            Object::ScriptObject(o) => o.call_setter(heap, name, value, case_sensitive),
            Object::SharedObject(o) => o.call_setter(heap, name, value, case_sensitive),
        }
    }

    fn new(&self, heap: &mut Heap, this: Object, shared_proto: Object) -> (r: Object) {
        match self {
            Object::ScriptObject(o) => o.new(heap, this, shared_proto),
            Object::SharedObject(o) => o.new(heap, this, shared_proto),
        }
    }

    fn delete(&self, heap: &mut Heap, name: &str, case_sensitive: bool) -> (r: bool) {
        match self {
            Object::ScriptObject(o) => o.delete(heap, name, case_sensitive),
            Object::SharedObject(o) => o.delete(heap, name, case_sensitive),
        }
    }

    fn add_property(
        &self,
        heap: &mut Heap,
        name: &str,
        get: Executable,
        set: Option<Executable>,
        attributes: AttributeSet,
    ) {
        match self {
            Object::ScriptObject(o) => o.add_property(heap, name, get, set, attributes),
            Object::SharedObject(o) => o.add_property(heap, name, get, set, attributes),
        }
    }

    fn add_property_with_case(
        &self,
        heap: &mut Heap,
        name: &str,
        get: Executable,
        set: Option<Executable>,
        attributes: AttributeSet,
        case_sensitive: bool,
    ) {
        match self {
            Object::ScriptObject(o) => o.add_property_with_case(heap, name, get, set, attributes, case_sensitive),
            Object::SharedObject(o) => o.add_property_with_case(heap, name, get, set, attributes, case_sensitive),
        }
    }

    fn define_value(&self, heap: &mut Heap, name: &str, value: Value, attributes: AttributeSet) {
        match self {
            Object::ScriptObject(o) => o.define_value(heap, name, value, attributes),
            Object::SharedObject(o) => o.define_value(heap, name, value, attributes),
        }
    }

    fn set_attributes(
        &self,
        heap: &mut Heap,
        name: Option<&str>,
        set_attributes: AttributeSet,
        clear_attributes: AttributeSet,
    ) {
        match self {
            Object::ScriptObject(o) => o.set_attributes(heap, name, set_attributes, clear_attributes),
            Object::SharedObject(o) => o.set_attributes(heap, name, set_attributes, clear_attributes),
        }
    }

    fn proto(&self, heap: &Heap) -> (r: Option<Object>) {
        match self {
            Object::ScriptObject(o) => o.proto(heap),
            Object::SharedObject(o) => o.proto(heap),
        }
    }

    fn set_proto(&self, heap: &mut Heap, prototype: Option<Object>) {
        match self {
            Object::ScriptObject(o) => o.set_proto(heap, prototype),
            Object::SharedObject(o) => o.set_proto(heap, prototype),
        }
    }

    fn has_property(&self, heap: &Heap, name: &str, case_sensitive: bool) -> (r: bool) {
        match self {
            Object::ScriptObject(o) => o.has_property(heap, name, case_sensitive),
            Object::SharedObject(o) => o.has_property(heap, name, case_sensitive),
        }
    }

    fn has_own_property(&self, heap: &Heap, name: &str, case_sensitive: bool) -> (r: bool) {
        match self {
            Object::ScriptObject(o) => o.has_own_property(heap, name, case_sensitive),
            Object::SharedObject(o) => o.has_own_property(heap, name, case_sensitive),
        }
    }

    fn has_own_virtual(&self, heap: &Heap, name: &str, case_sensitive: bool) -> (r: bool) {
        match self {
            Object::ScriptObject(o) => o.has_own_virtual(heap, name, case_sensitive),
            Object::SharedObject(o) => o.has_own_virtual(heap, name, case_sensitive),
        }
    }

    fn is_property_enumerable(&self, heap: &Heap, name: &str, case_sensitive: bool) -> (r: bool) {
        match self {
            Object::ScriptObject(o) => o.is_property_enumerable(heap, name, case_sensitive),
            Object::SharedObject(o) => o.is_property_enumerable(heap, name, case_sensitive),
        }
    }

    fn get_keys(&self, heap: &Heap, case_sensitive: bool) -> (r: Vec<String>) {
        match self {
            Object::ScriptObject(o) => o.get_keys(heap, case_sensitive),
            Object::SharedObject(o) => o.get_keys(heap, case_sensitive),
        }
    }

    fn as_string(&self) -> (r: String)
        ensures
            r@ == object_string(),
    {
        match self {
            Object::ScriptObject(o) => o.as_string(),
            Object::SharedObject(o) => o.as_string(),
        }
    }

    fn type_of(&self, heap: &Heap) -> (r: &'static str) {
        match self {
            Object::ScriptObject(o) => o.type_of(heap),
            Object::SharedObject(o) => o.type_of(heap),
        }
    }

    fn interfaces(&self, heap: &Heap) -> (r: Vec<Object>) {
        match self {
            Object::ScriptObject(o) => o.interfaces(heap),
            Object::SharedObject(o) => o.interfaces(heap),
        }
    }

    fn set_interfaces(&self, heap: &mut Heap, iface_list: Vec<Object>) {
        match self {
            Object::ScriptObject(o) => o.set_interfaces(heap, iface_list),
            Object::SharedObject(o) => o.set_interfaces(heap, iface_list),
        }
    }

    fn as_script_object(&self, heap: &Heap) -> (r: Option<ScriptObject>) {
        match self {
            Object::ScriptObject(o) => o.as_script_object(heap),
            Object::SharedObject(o) => o.as_script_object(heap),
        }
    }

    fn as_executable(&self) -> (r: Option<Executable>)
        ensures
            r is None,
    {
        match self {
            Object::ScriptObject(o) => o.as_executable(),
            Object::SharedObject(o) => o.as_executable(),
        }
    }

    fn as_display_object(&self) -> (r: Option<DisplayObject>)
        ensures
            r is None,
    {
        match self {
            Object::ScriptObject(o) => o.as_display_object(),
            Object::SharedObject(o) => o.as_display_object(),
        }
    }

    fn as_sound_object(&self) -> (r: Option<SoundObject>)
        ensures
            r is None,
    {
        match self {
            Object::ScriptObject(o) => o.as_sound_object(),
            Object::SharedObject(o) => o.as_sound_object(),
        }
    }

    fn as_shared_object(&self) -> (r: Option<SharedObject>) {
        match self {
            Object::ScriptObject(o) => o.as_shared_object(),
            Object::SharedObject(o) => o.as_shared_object(),
        }
    }

    fn as_ptr(&self) -> (r: usize) {
        match self {
            Object::ScriptObject(o) => o.as_ptr(),
            Object::SharedObject(o) => o.as_ptr(),
        }
    }

    fn length(&self, heap: &Heap) -> (r: usize) {
        match self {
            Object::ScriptObject(o) => o.length(heap),
            Object::SharedObject(o) => o.length(heap),
        }
    }

    fn set_length(&self, heap: &mut Heap, length: usize) {
        match self {
            Object::ScriptObject(o) => o.set_length(heap, length),
            Object::SharedObject(o) => o.set_length(heap, length),
        }
    }

    fn array(&self, heap: &Heap) -> (r: Vec<Value>) {
        match self {
            Object::ScriptObject(o) => o.array(heap),
            Object::SharedObject(o) => o.array(heap),
        }
    }

    fn array_element(&self, heap: &Heap, index: usize) -> (r: Value) {
        match self {
            Object::ScriptObject(o) => o.array_element(heap, index),
            Object::SharedObject(o) => o.array_element(heap, index),
        }
    }

    fn set_array_element(&self, heap: &mut Heap, index: usize, value: Value) -> (r: usize) {
        match self {
            Object::ScriptObject(o) => o.set_array_element(heap, index, value),
            Object::SharedObject(o) => o.set_array_element(heap, index, value),
        }
    }

    fn delete_array_element(&self, heap: &mut Heap, index: usize) {
        match self {
            Object::ScriptObject(o) => o.delete_array_element(heap, index),
            Object::SharedObject(o) => o.delete_array_element(heap, index),
        }
    }
}

} // verus!
