//! Script values, object handles and callables: the plain data that property
//! tables hold and that the interpreter exchanges with the object model.

use vstd::prelude::*;

verus! {

/// Handle of a plain script object: the place of its cell in the heap.
#[derive(Clone, Copy, Debug, PartialEq, Eq, Structural)]
pub struct ScriptObject {
    pub index: usize,
}

/// Handle of a shared object: the place of its own cell in the heap, which in
/// turn names the script object underneath.
#[derive(Clone, Copy, Debug, PartialEq, Eq, Structural)]
pub struct SharedObject {
    pub index: usize,
}

/// Handle of an object of any kind.
#[derive(Clone, Copy, Debug, PartialEq, Eq, Structural)]
pub enum Object {
    ScriptObject(ScriptObject),
    SharedObject(SharedObject),
}

/// A callable that only the interpreter can run; the object model stores it
/// and hands it back, and never looks inside.
#[derive(Clone, Copy, Debug, PartialEq, Eq, Structural)]
pub struct Executable {
    pub code: u64,
}

/// Handle of a display object. The object model makes none; the handle is for
/// the kinds of object that a host adds.
#[derive(Clone, Copy, Debug, PartialEq, Eq, Structural)]
pub struct DisplayObject {
    pub id: u64,
}

/// Handle of a sound object. The object model makes none; the handle is for
/// the kinds of object that a host adds.
#[derive(Clone, Copy, Debug, PartialEq, Eq, Structural)]
pub struct SoundObject {
    pub id: u64,
}

/// A dynamically typed script value. A number is kept as the bit pattern of
/// its IEEE-754 binary64 form.
#[derive(Debug, PartialEq, Eq)]
pub enum Value {
    Undefined,
    Null,
    Bool(bool),
    Number(u64),
    String(String),
    Object(Object),
}

/// The mathematical content of a [`Value`].
pub enum ValueView {
    Undefined,
    Null,
    Bool(bool),
    Number(u64),
    String(Seq<char>),
    Object(Object),
}

impl View for Value {
    type V = ValueView;

    open spec fn view(&self) -> ValueView {
        match self {
            Value::Undefined => ValueView::Undefined,
            Value::Null => ValueView::Null,
            Value::Bool(b) => ValueView::Bool(*b),
            Value::Number(bits) => ValueView::Number(*bits),
            Value::String(s) => ValueView::String(s@),
            Value::Object(o) => ValueView::Object(*o),
        }
    }
}

impl Clone for Value {
    fn clone(&self) -> (r: Self)
        ensures
            r@ == self@,
    {
        match self {
            Value::Undefined => Value::Undefined,
            Value::Null => Value::Null,
            Value::Bool(b) => Value::Bool(*b),
            Value::Number(bits) => Value::Number(*bits),
            Value::String(s) => Value::String(s.clone()),
            Value::Object(o) => Value::Object(*o),
        }
    }
}

/// The view of a value that may be missing.
pub open spec fn option_view(value: Option<Value>) -> Option<ValueView> {
    match value {
        Some(v) => Some(v@),
        None => None,
    }
}

/// The views of a sequence of values, one for one.
pub open spec fn values_view(values: Seq<Value>) -> Seq<ValueView> {
    Seq::new(values.len(), |i: int| values[i]@)
}

/// A request to the interpreter: run `callable` with the given receiver, the
/// object on which the callable was found, and the arguments.
#[derive(Debug, PartialEq, Eq)]
pub struct Invocation {
    pub callable: Executable,
    pub this: Object,
    pub base_proto: Option<Object>,
    pub args: Vec<Value>,
}

/// The mathematical content of an [`Invocation`].
pub struct InvocationView {
    pub callable: Executable,
    pub this: Object,
    pub base_proto: Option<Object>,
    pub args: Seq<ValueView>,
}

impl View for Invocation {
    type V = InvocationView;

    open spec fn view(&self) -> InvocationView {
        InvocationView {
            callable: self.callable,
            this: self.this,
            base_proto: self.base_proto,
            args: values_view(self.args@),
        }
    }
}

} // verus!
