//! Plain script objects, reached through their handles.

use vstd::prelude::*;
use crate::heap::{CellView, Heap};
use crate::names::{names_match, parse_index};
use crate::object::{object_string, setter_call, written_length, Lookup, SetOutcome, TObject};
use crate::object_data::{lemma_length_present, ObjectState, ScriptObjectData};
use crate::property::AttributeSet;
use crate::property_map::has_key;
use crate::value::{
    option_view, values_view, DisplayObject, Executable, Invocation, Object, ScriptObject,
    SharedObject, SoundObject, Value, ValueView,
};

verus! {

/// The request to run a setter, or none where there is no setter.
pub fn setter_outcome(setter: Option<Executable>, this: Object, base_proto: Option<Object>, value: Value) -> (r:
    SetOutcome)
    ensures
        r@ == setter_call(setter, this, base_proto, value@),
{
    match setter {
        Some(callable) => {
            let mut args: Vec<Value> = Vec::new();
            let ghost v = value@;
            args.push(value);
            assert(values_view(args@) =~= seq![v]);
            SetOutcome::Run(Invocation { callable, this, base_proto, args })
        },
        None => SetOutcome::Done,
    }
}

impl ScriptObject {
    /// Makes an empty object.
    pub fn object(heap: &mut Heap, proto: Option<Object>) -> (r: ScriptObject)
        requires
            old(heap).wf(),
            proto matches Some(p) ==> old(heap)@.has(p),
        ensures
            final(heap).wf(),
            final(heap)@.keeps(old(heap)@),
            final(heap)@ == old(heap)@.with_cell(CellView::Script(ObjectState::fresh(proto))),
            r.index == old(heap)@.cells.len(),
            final(heap)@.has_script(r),
    {
        heap.alloc_script(ScriptObjectData::new(proto))
    }

    /// Makes an empty array.
    pub fn array(heap: &mut Heap, proto: Option<Object>) -> (r: ScriptObject)
        requires
            old(heap).wf(),
            proto matches Some(p) ==> old(heap)@.has(p),
        ensures
            final(heap).wf(),
            final(heap)@.keeps(old(heap)@),
            final(heap)@ == old(heap)@.with_cell(CellView::Script(ObjectState::fresh_array(proto))),
            r.index == old(heap)@.cells.len(),
            final(heap)@.has_script(r),
    {
        heap.alloc_script(ScriptObjectData::new_array(proto))
    }

    /// Makes an empty object and gives its handle as one of any kind.
    pub fn object_cell(heap: &mut Heap, proto: Option<Object>) -> (r: Object)
        requires
            old(heap).wf(),
            proto matches Some(p) ==> old(heap)@.has(p),
        ensures
            final(heap).wf(),
            final(heap)@.keeps(old(heap)@),
            final(heap)@ == old(heap)@.with_cell(CellView::Script(ObjectState::fresh(proto))),
            r == Object::ScriptObject(ScriptObject { index: old(heap)@.cells.len() as usize }),
            final(heap)@.has(r),
    {
        Object::ScriptObject(ScriptObject::object(heap, proto))
    }

    /// Makes an object with nothing in it, not even a prototype.
    pub fn bare_object(heap: &mut Heap) -> (r: ScriptObject)
        requires
            old(heap).wf(),
        ensures
            final(heap).wf(),
            final(heap)@.keeps(old(heap)@),
            final(heap)@ == old(heap)@.with_cell(CellView::Script(ObjectState::fresh(None))),
            r.index == old(heap)@.cells.len(),
            final(heap)@.has_script(r),
    {
        heap.alloc_script(ScriptObjectData::new(None))
    }

    /// Installs a function object as a stored property.
    pub fn force_set_function(&self, heap: &mut Heap, name: &str, function: Object, attributes: AttributeSet)
        requires
            old(heap).wf(),
            old(heap)@.has_script(*self),
        ensures
            final(heap).wf(),
            final(heap)@.keeps(old(heap)@),
            final(heap)@ == old(heap)@.with_script(
                *self,
                old(heap)@.script(*self).define_value(name@, ValueView::Object(function), attributes),
            ),
    {
        self.define_value(heap, name, Value::Object(function), attributes)
    }

    /// Sets the type tag.
    pub fn set_type_of(&self, heap: &mut Heap, type_of: &'static str)
        requires
            old(heap).wf(),
            old(heap)@.has_script(*self),
        ensures
            final(heap).wf(),
            final(heap)@.keeps(old(heap)@),
            final(heap)@ == old(heap)@.with_script(
                *self,
                (ObjectState { type_of: type_of@, ..old(heap)@.script(*self) }),
            ),
    {
        proof {
            assert(heap@.cells[self.index as int] is Script);
        }
        heap.script_mut(*self).set_type_of(type_of);
    }

    /// Mirrors a piece of array state into the property table.
    pub fn sync_native_property(&self, heap: &mut Heap, name: &str, native_value: Option<Value>, is_enumerable: bool)
        requires
            old(heap).wf(),
            old(heap)@.has_script(*self),
        ensures
            final(heap).wf(),
            final(heap)@.keeps(old(heap)@),
            final(heap)@ == old(heap)@.with_script(
                *self,
                old(heap)@.script(*self).sync_native_property(name@, option_view(native_value), is_enumerable),
            ),
    {
        proof {
            assert(heap@.cells[self.index as int] is Script);
        }
        heap.script_mut(*self).sync_native_property(name, native_value, is_enumerable);
    }

    /// Writes under a name that is neither the prototype's nor an index:
    /// through an inherited accessor if there is one, else into the object's
    /// own table.
    pub fn write_named(
        &self,
        heap: &mut Heap,
        name: &str,
        value: Value,
        case_sensitive: bool,
        this: Object,
        base_proto: Option<Object>,
    ) -> (r: SetOutcome)
        requires
            old(heap).wf(),
            old(heap)@.has_script(*self),
            !has_key(old(heap)@.script(*self).values, name@, case_sensitive) ==> old(heap)@.has_chain(
                Object::ScriptObject(*self),
            ),
        ensures
            final(heap).wf(),
            final(heap)@.keeps(old(heap)@),
            (final(heap)@, r@) == old(heap)@.write_named(*self, name@, value@, case_sensitive, this, base_proto),
    {
        let is_vacant = !heap.script(*self).contains_key(name, case_sensitive);
        if is_vacant {
            let owner = heap.find_owner(Object::ScriptObject(*self), name, case_sensitive, true);
            if let Some(this_proto) = owner {
                let setter = heap.state_of(this_proto).call_setter(name, case_sensitive);
                return setter_outcome(setter, this, Some(this_proto), value);
            }
        }
        proof {
            assert(heap@.cells[self.index as int] is Script);
        }
        let setter = heap.script_mut(*self).write_own(name, value.clone(), case_sensitive);
        setter_outcome(setter, this, base_proto, value)
    }

    /// Whether a write under this name would walk the prototype chain.
    pub fn set_walks(&self, heap: &Heap, name: &str, case_sensitive: bool) -> (r: bool)
        requires
            heap.wf(),
            heap@.has_script(*self),
        ensures
            r == heap@.set_walks(*self, name@, case_sensitive),
    {
        !names_match(name, "__proto__", true) && parse_index(name).is_none() && !name.is_empty() && !names_match(
            name,
            "length",
            true,
        ) && !heap.script(*self).contains_key(name, case_sensitive)
    }

    /// Whether a write under this name would grow a vector beyond what can
    /// be addressed.
    pub fn set_overflows(&self, heap: &Heap, name: &str) -> (r: bool)
        requires
            heap.wf(),
            heap@.has_script(*self),
        ensures
            r == heap@.set_overflows(*self, name@),
    {
        if names_match(name, "__proto__", true) {
            return false;
        }
        match parse_index(name) {
            Some(index) => index == usize::MAX && heap.script(*self).is_array(),
            None => false,
        }
    }

    /// Whether the write of the value under `length`, after the length was
    /// set, would walk the prototype chain.
    pub fn length_write_walks(&self, heap: &Heap, case_sensitive: bool) -> (r: bool)
        requires
            heap.wf(),
            heap@.has_script(*self),
        ensures
            r == heap@.script(*self).length_write_walks(case_sensitive),
    {
        case_sensitive && heap.script(*self).contains_key("length", false) && !heap.script(*self).contains_key(
            "length",
            true,
        )
    }

    /// A write, as far as it can be taken without the interpreter. `this` is
    /// the receiver that a setter will see, `base_proto` the base for a
    /// setter of the object's own.
    pub fn internal_set(
        &self,
        heap: &mut Heap,
        name: &str,
        value: Value,
        case_sensitive: bool,
        this: Object,
        base_proto: Option<Object>,
    ) -> (r: SetOutcome)
        requires
            old(heap).wf(),
            old(heap)@.has_script(*self),
            old(heap)@.set_walks(*self, name@, case_sensitive) ==> old(heap)@.has_chain(
                Object::ScriptObject(*self),
            ),
            !old(heap)@.set_overflows(*self, name@),
        ensures
            final(heap).wf(),
            final(heap)@.keeps(old(heap)@),
            (final(heap)@, r@) == old(heap)@.internal_set(*self, name@, value@, case_sensitive, this, base_proto),
    {
        if names_match(name, "__proto__", true) {
            return SetOutcome::CoerceToObject(value);
        }
        if let Some(index) = parse_index(name) {
            proof {
                assert(heap@.cells[self.index as int] is Script);
            }
            heap.script_mut(*self).set_array_element(index, value);
            return SetOutcome::Done;
        }
        if name.is_empty() {
            return SetOutcome::Done;
        }
        if names_match(name, "length", true) {
            return SetOutcome::CoerceToLength(value);
        }
        self.write_named(heap, name, value, case_sensitive, this, base_proto)
    }

    /// Goes on with a write to `length`: sets the length to the number that
    /// the interpreter made of the value, nothing below zero, and then writes
    /// the value itself under the name.
    pub fn set_length_property(
        &self,
        heap: &mut Heap,
        value: Value,
        length: i32,
        case_sensitive: bool,
        this: Object,
        base_proto: Option<Object>,
    ) -> (r: SetOutcome)
        requires
            old(heap).wf(),
            old(heap)@.has_script(*self),
            old(heap)@.script(*self).length_write_walks(case_sensitive) ==> old(heap)@.has_chain(
                Object::ScriptObject(*self),
            ),
        ensures
            final(heap).wf(),
            final(heap)@.keeps(old(heap)@),
            (final(heap)@, r@) == old(heap)@.set_length_property(
                *self,
                value@,
                length,
                case_sensitive,
                this,
                base_proto,
            ),
    {
        let ghost before = heap@.script(*self);
        proof {
            assert(heap@.cells[self.index as int] is Script);
            heap@.lemma_with_script(*self, before.set_length(written_length(length)));
            heap@.lemma_change(Object::ScriptObject(*self), before.set_length(written_length(length)));
        }
        if length > 0 {
            heap.script_mut(*self).set_length(length as usize);
        } else {
            heap.script_mut(*self).set_length(0);
        }
        proof {
            lemma_length_present(before, written_length(length), case_sensitive);
        }
        self.write_named(heap, "length", value, case_sensitive, this, base_proto)
    }
}

/// A script object does what the trait promises of every object; each method
/// here stands under the contract that the trait gives it.
impl TObject for ScriptObject {
    open spec fn handle(&self) -> Object {
        Object::ScriptObject(*self)
    }

    fn as_object(&self) -> (r: Object) {
        Object::ScriptObject(*self)
    }

    fn get_local(&self, heap: &Heap, name: &str, case_sensitive: bool, this: Object) -> (r: Lookup) {
        heap.read_local(Object::ScriptObject(*self), name, case_sensitive, this)
    }

    fn get(&self, heap: &Heap, name: &str, case_sensitive: bool) -> (r: Lookup) {
        heap.read(Object::ScriptObject(*self), name, case_sensitive)
    }

    fn set(&self, heap: &mut Heap, name: &str, value: Value, case_sensitive: bool) -> (r: SetOutcome) {
        self.internal_set(
            heap,
            name,
            value,
            case_sensitive,
            Object::ScriptObject(*self),
            Some(Object::ScriptObject(*self)),
        )
    }

    fn set_length_value(&self, heap: &mut Heap, value: Value, length: i32, case_sensitive: bool) -> (r:
        SetOutcome) {
        self.set_length_property(
            heap,
            value,
            length,
            case_sensitive,
            Object::ScriptObject(*self),
            Some(Object::ScriptObject(*self)),
        )
    }

    fn call(&self, name: &str, this: Object, base_proto: Option<Object>, args: &[Value]) -> (r: Value)
        ensures
            r@ == ValueView::Undefined,
    {
        Value::Undefined
    }

    fn call_setter(&self, heap: &Heap, name: &str, value: Value, case_sensitive: bool) -> (r: Option<
        Executable,
    >) {
        heap.script(*self).call_setter(name, case_sensitive)
    }

    fn new(&self, heap: &mut Heap, this: Object, shared_proto: Object) -> (r: Object) {
        if heap.script(*self).is_array() {
            Object::ScriptObject(ScriptObject::array(heap, Some(this)))
        } else {
            Object::ScriptObject(ScriptObject::object(heap, Some(this)))
        }
    }

    fn delete(&self, heap: &mut Heap, name: &str, case_sensitive: bool) -> (r: bool) {
        proof {
            assert(heap@.cells[self.index as int] is Script);
        }
        heap.script_mut(*self).delete(name, case_sensitive)
    }

    fn add_property(
        &self,
        heap: &mut Heap,
        name: &str,
        get: Executable,
        set: Option<Executable>,
        attributes: AttributeSet,
    ) {
        proof {
            assert(heap@.cells[self.index as int] is Script);
        }
        heap.script_mut(*self).add_property(name, get, set, attributes, false);
    }

    fn add_property_with_case(
        &self,
        heap: &mut Heap,
        name: &str,
        get: Executable,
        set: Option<Executable>,
        attributes: AttributeSet,
        case_sensitive: bool,
    ) {
        proof {
            assert(heap@.cells[self.index as int] is Script);
        }
        heap.script_mut(*self).add_property(name, get, set, attributes, case_sensitive);
    }

    fn define_value(&self, heap: &mut Heap, name: &str, value: Value, attributes: AttributeSet) {
        proof {
            assert(heap@.cells[self.index as int] is Script);
        }
        heap.script_mut(*self).define_value(name, value, attributes);
    }

    fn set_attributes(
        &self,
        heap: &mut Heap,
        name: Option<&str>,
        set_attributes: AttributeSet,
        clear_attributes: AttributeSet,
    ) {
        proof {
            assert(heap@.cells[self.index as int] is Script);
        }
        heap.script_mut(*self).set_attributes(name, set_attributes, clear_attributes);
    }

    fn proto(&self, heap: &Heap) -> (r: Option<Object>) {
        proof {
            assert(heap@.cells[self.index as int] is Script);
        }
        heap.script(*self).proto()
    }

    fn set_proto(&self, heap: &mut Heap, prototype: Option<Object>) {
        heap.script_mut(*self).set_proto(prototype);
    }

    fn has_property(&self, heap: &Heap, name: &str, case_sensitive: bool) -> (r: bool) {
        heap.inherits(Object::ScriptObject(*self), name, case_sensitive)
    }

    fn has_own_property(&self, heap: &Heap, name: &str, case_sensitive: bool) -> (r: bool) {
        if names_match(name, "__proto__", true) {
            return true;
        }
        heap.script(*self).contains_key(name, case_sensitive)
    }

    fn has_own_virtual(&self, heap: &Heap, name: &str, case_sensitive: bool) -> (r: bool) {
        heap.script(*self).has_own_virtual(name, case_sensitive)
    }

    fn is_property_enumerable(&self, heap: &Heap, name: &str, case_sensitive: bool) -> (r: bool) {
        heap.script(*self).is_property_enumerable(name, case_sensitive)
    }

    fn get_keys(&self, heap: &Heap, case_sensitive: bool) -> (r: Vec<String>) {
        heap.enumerate(Object::ScriptObject(*self), case_sensitive)
    }

    fn as_string(&self) -> (r: String)
        ensures
            r@ == object_string(),
    {
        "[object Object]".to_owned()
    }

    fn type_of(&self, heap: &Heap) -> (r: &'static str) {
        heap.script(*self).type_of()
    }

    fn interfaces(&self, heap: &Heap) -> (r: Vec<Object>) {
        heap.script(*self).interfaces()
    }

    fn set_interfaces(&self, heap: &mut Heap, iface_list: Vec<Object>) {
        proof {
            assert(heap@.cells[self.index as int] is Script);
        }
        heap.script_mut(*self).set_interfaces(iface_list);
    }

    fn as_script_object(&self, heap: &Heap) -> (r: Option<ScriptObject>) {
        Some(*self)
    }

    fn as_executable(&self) -> (r: Option<Executable>)
        ensures
            r is None,
    {
        None
    }

    fn as_display_object(&self) -> (r: Option<DisplayObject>)
        ensures
            r is None,
    {
        None
    }

    fn as_sound_object(&self) -> (r: Option<SoundObject>)
        ensures
            r is None,
    {
        None
    }

    fn as_shared_object(&self) -> (r: Option<SharedObject>) {
        None
    }

    fn as_ptr(&self) -> (r: usize) {
        self.index
    }

    fn length(&self, heap: &Heap) -> (r: usize) {
        heap.script(*self).length()
    }

    fn set_length(&self, heap: &mut Heap, length: usize) {
        proof {
            assert(heap@.cells[self.index as int] is Script);
        }
        heap.script_mut(*self).set_length(length);
    }

    fn array(&self, heap: &Heap) -> (r: Vec<Value>) {
        heap.script(*self).array()
    }

    fn array_element(&self, heap: &Heap, index: usize) -> (r: Value) {
        heap.script(*self).array_element(index)
    }

    fn set_array_element(&self, heap: &mut Heap, index: usize, value: Value) -> (r: usize) {
        proof {
            assert(heap@.cells[self.index as int] is Script);
        }
        heap.script_mut(*self).set_array_element(index, value)
    }

    fn delete_array_element(&self, heap: &mut Heap, index: usize) {
        proof {
            assert(heap@.cells[self.index as int] is Script);
        }
        heap.script_mut(*self).delete_array_element(index);
    }
}

} // verus!
