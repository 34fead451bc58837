//! Shared objects: a script object underneath, and the name of a backing
//! store. A shared object does what its script object does, and differs only
//! in what it makes when asked for a fresh object of its kind.

use vstd::prelude::*;
use crate::heap::{CellView, Heap, SharedObjectData, SharedState};
use crate::object::{object_string, Lookup, SetOutcome, TObject};
use crate::object_data::ObjectState;
use crate::property::AttributeSet;
use crate::value::{
    DisplayObject, Executable, Object, ScriptObject, SharedObject, SoundObject, Value, ValueView,
};

verus! {

impl SharedObject {
    /// Makes a shared object without a name, over a fresh empty object.
    pub fn empty_shared_obj(heap: &mut Heap, proto: Option<Object>) -> (r: SharedObject)
        requires
            old(heap).wf(),
            proto matches Some(p) ==> old(heap)@.has(p),
        ensures
            final(heap).wf(),
            final(heap)@.keeps(old(heap)@),
            final(heap)@ == old(heap)@.with_cell(CellView::Script(ObjectState::fresh(proto))).with_cell(
                CellView::Shared(
                    SharedState { base: ScriptObject { index: old(heap)@.cells.len() as usize }, name: None },
                ),
            ),
            r.index == old(heap)@.cells.len() + 1,
            final(heap)@.has_shared(r),
    {
        let base = ScriptObject::object(heap, proto);
        heap.alloc_shared(SharedObjectData::new(base))
    }

    /// Names the backing store.
    pub fn set_name(&self, heap: &mut Heap, name: String)
        requires
            old(heap).wf(),
            old(heap)@.has_shared(*self),
        ensures
            final(heap).wf(),
            final(heap)@.keeps(old(heap)@),
            final(heap)@ == old(heap)@.with_shared(
                *self,
                (SharedState { name: Some(name@), ..old(heap)@.shared(*self) }),
            ),
    {
        heap.name_shared(*self, name);
    }

    /// The name of the backing store; empty while there is none.
    pub fn get_name(&self, heap: &Heap) -> (r: String)
        requires
            heap@.has_shared(*self),
        ensures
            r@ == match heap@.shared(*self).name {
                Some(n) => n,
                None => Seq::empty(),
            },
    {
        heap.shared(*self).get_name()
    }

    /// The script object underneath.
    pub fn base(&self, heap: &Heap) -> (r: ScriptObject)
        requires
            heap@.has_shared(*self),
        ensures
            r == heap@.shared(*self).base,
            heap@.has_script(r),
    {
        heap.shared(*self).base()
    }
}

/// A shared object hands every operation on to the script object
/// underneath, except reads that walk the chain, enumeration, identity and
/// the making of new objects; each method stands under the contract that the
/// trait gives it.
impl TObject for SharedObject {
    open spec fn handle(&self) -> Object {
        Object::SharedObject(*self)
    }

    fn as_object(&self) -> (r: Object) {
        Object::SharedObject(*self)
    }

    fn get_local(
        &self,
        heap: &Heap,
        name: &str,
        case_sensitive: bool,
        this: Object,
    ) -> (r: Lookup) {
        self.base(heap).get_local(heap, name, case_sensitive, this)
    }

    fn get(&self, heap: &Heap, name: &str, case_sensitive: bool) -> (r: Lookup) {
        heap.read(Object::SharedObject(*self), name, case_sensitive)
    }

    fn set(
        &self,
        heap: &mut Heap,
        name: &str,
        value: Value,
        case_sensitive: bool,
    ) -> (r: SetOutcome) {
        self.base(heap).set(heap, name, value, case_sensitive)
    }

    fn set_length_value(
        &self,
        heap: &mut Heap,
        value: Value,
        length: i32,
        case_sensitive: bool,
    ) -> (r: SetOutcome) {
        self.base(heap).set_length_value(heap, value, length, case_sensitive)
    }

    fn call(
        &self,
        name: &str,
        this: Object,
        base_proto: Option<Object>,
        args: &[Value],
    ) -> (r: Value)
        ensures
            r@ == ValueView::Undefined,
    {
        Value::Undefined
    }

    fn call_setter(
        &self,
        heap: &Heap,
        name: &str,
        value: Value,
        case_sensitive: bool,
    ) -> (r: Option<Executable>) {
        self.base(heap).call_setter(heap, name, value, case_sensitive)
    }

    fn new(&self, heap: &mut Heap, this: Object, shared_proto: Object) -> (r: Object) {
        Object::SharedObject(SharedObject::empty_shared_obj(heap, Some(shared_proto)))
    }

    fn delete(&self, heap: &mut Heap, name: &str, case_sensitive: bool) -> (r: bool) {
        self.base(heap).delete(heap, name, case_sensitive)
    }

    fn add_property(
        &self,
        heap: &mut Heap,
        name: &str,
        get: Executable,
        set: Option<Executable>,
        attributes: AttributeSet,
    ) {
        self.base(heap).add_property(heap, name, get, set, attributes);
    }

    fn add_property_with_case(
        &self,
        heap: &mut Heap,
        name: &str,
        get: Executable,
        set: Option<Executable>,
        attributes: AttributeSet,
        case_sensitive: bool,
    ) {
        self.base(heap).add_property_with_case(heap, name, get, set, attributes, case_sensitive);
    }

    fn define_value(&self, heap: &mut Heap, name: &str, value: Value, attributes: AttributeSet) {
        self.base(heap).define_value(heap, name, value, attributes);
    }

    fn set_attributes(
        &self,
        heap: &mut Heap,
        name: Option<&str>,
        set_attributes: AttributeSet,
        clear_attributes: AttributeSet,
    ) {
        self.base(heap).set_attributes(heap, name, set_attributes, clear_attributes);
    }

    fn proto(&self, heap: &Heap) -> (r: Option<Object>) {
        self.base(heap).proto(heap)
    }

    fn set_proto(&self, heap: &mut Heap, prototype: Option<Object>) {
        self.base(heap).set_proto(heap, prototype);
    }

    fn has_property(&self, heap: &Heap, name: &str, case_sensitive: bool) -> (r: bool) {
        heap.inherits(Object::SharedObject(*self), name, case_sensitive)
    }

    fn has_own_property(&self, heap: &Heap, name: &str, case_sensitive: bool) -> (r: bool) {
        self.base(heap).has_own_property(heap, name, case_sensitive)
    }

    fn has_own_virtual(&self, heap: &Heap, name: &str, case_sensitive: bool) -> (r: bool) {
        self.base(heap).has_own_virtual(heap, name, case_sensitive)
    }

    fn is_property_enumerable(&self, heap: &Heap, name: &str, case_sensitive: bool) -> (r: bool) {
        self.base(heap).is_property_enumerable(heap, name, case_sensitive)
    }

    fn get_keys(&self, heap: &Heap, case_sensitive: bool) -> (r: Vec<String>) {
        heap.enumerate(Object::SharedObject(*self), case_sensitive)
    }

    fn as_string(&self) -> (r: String)
        ensures
            r@ == object_string(),
    {
        "[object Object]".to_owned()
    }

    fn type_of(&self, heap: &Heap) -> (r: &'static str) {
        self.base(heap).type_of(heap)
    }

    fn interfaces(&self, heap: &Heap) -> (r: Vec<Object>) {
        self.base(heap).interfaces(heap)
    }

    fn set_interfaces(&self, heap: &mut Heap, iface_list: Vec<Object>) {
        self.base(heap).set_interfaces(heap, iface_list);
    }

    fn as_script_object(&self, heap: &Heap) -> (r: Option<ScriptObject>) {
        Some(self.base(heap))
    }

    fn as_executable(&self) -> (r: Option<Executable>)
        ensures
            r is None,
    {
        None
    }

    fn as_display_object(&self) -> (r: Option<DisplayObject>)
        ensures
            r is None,
    {
        None
    }

    fn as_sound_object(&self) -> (r: Option<SoundObject>)
        ensures
            r is None,
    {
        None
    }

    fn as_shared_object(&self) -> (r: Option<SharedObject>) {
        Some(*self)
    }

    fn as_ptr(&self) -> (r: usize) {
        self.index
    }

    fn length(&self, heap: &Heap) -> (r: usize) {
        self.base(heap).length(heap)
    }

    fn set_length(&self, heap: &mut Heap, length: usize) {
        self.base(heap).set_length(heap, length);
    }

    fn array(&self, heap: &Heap) -> (r: Vec<Value>) {
        self.base(heap).array(heap)
    }

    fn array_element(&self, heap: &Heap, index: usize) -> (r: Value) {
        self.base(heap).array_element(heap, index)
    }

    fn set_array_element(&self, heap: &mut Heap, index: usize, value: Value) -> (r: usize) {
        self.base(heap).set_array_element(heap, index, value)
    }

    fn delete_array_element(&self, heap: &mut Heap, index: usize) {
        self.base(heap).delete_array_element(heap, index);
    }
}

} // verus!
