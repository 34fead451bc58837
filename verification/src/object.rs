//! What every object can do, whatever its kind: the reads and writes that
//! walk the prototype chain, stated over the content of the heap, and the
//! trait through which the interpreter reaches an object by its handle.

use vstd::prelude::*;
use crate::heap::{CellView, Heap, HeapView, SharedState};
use crate::names::{names_match, names_view, parsed_index};
use crate::object_data::{enumerable_keys, length_key, proto_key, ObjectState};
use crate::property::{AttributeSet, Property, PropertyView};
use crate::property_map::{has_key, lookup, Entries};
use crate::value::{
    values_view, DisplayObject, Executable, Invocation, InvocationView, Object, ScriptObject,
    SharedObject, SoundObject, Value, ValueView,
};

verus! {

/// What a read comes to: a value, or an accessor's getter that the
/// interpreter has to run for the value.
#[derive(Debug, PartialEq, Eq)]
pub enum Lookup {
    Found(Value),
    Call(Invocation),
}

/// The mathematical content of a [`Lookup`].
pub enum LookupView {
    Found(ValueView),
    Call(InvocationView),
}

impl View for Lookup {
    type V = LookupView;

    open spec fn view(&self) -> LookupView {
        match self {
            Lookup::Found(v) => LookupView::Found(v@),
            Lookup::Call(c) => LookupView::Call(c@),
        }
    }
}

/// What a write comes to.
#[derive(Debug, PartialEq, Eq)]
pub enum SetOutcome {
    /// The write is over.
    Done,
    /// The write is over once the interpreter has run this setter; what the
    /// setter returns, or that it fails, changes nothing.
    Run(Invocation),
    /// The name was the prototype's: the interpreter turns the value into an
    /// object and sets it as the prototype.
    CoerceToObject(Value),
    /// The name was `length`: the interpreter turns the value into a number
    /// and goes on with the write of a length.
    CoerceToLength(Value),
}

/// The mathematical content of a [`SetOutcome`].
pub enum SetOutcomeView {
    Done,
    Run(InvocationView),
    CoerceToObject(ValueView),
    CoerceToLength(ValueView),
}

impl View for SetOutcome {
    type V = SetOutcomeView;

    open spec fn view(&self) -> SetOutcomeView {
        match self {
            SetOutcome::Done => SetOutcomeView::Done,
            SetOutcome::Run(c) => SetOutcomeView::Run(c@),
            SetOutcome::CoerceToObject(v) => SetOutcomeView::CoerceToObject(v@),
            SetOutcome::CoerceToLength(v) => SetOutcomeView::CoerceToLength(v@),
        }
    }
}

/// The first object of a sequence that meets a condition.
pub open spec fn first_where(s: Seq<Object>, condition: spec_fn(Object) -> bool) -> Option<Object>
    decreases s.len(),
{
    if s.len() == 0 {
        None
    } else if condition(s[0]) {
        Some(s[0])
    } else {
        first_where(s.skip(1), condition)
    }
}

/// The names of a list that a table does not shadow, in their order.
pub open spec fn unshadowed(names: Seq<Seq<char>>, entries: Entries, case_sensitive: bool) -> Seq<Seq<char>>
    decreases names.len(),
{
    if names.len() == 0 {
        Seq::empty()
    } else {
        let rest = unshadowed(names.drop_last(), entries, case_sensitive);
        if has_key(entries, names.last(), case_sensitive) {
            rest
        } else {
            rest.push(names.last())
        }
    }
}

/// The request to run a setter with the value written as its one argument.
pub open spec fn setter_call(
    setter: Option<Executable>,
    this: Object,
    base_proto: Option<Object>,
    value: ValueView,
) -> SetOutcomeView {
    match setter {
        Some(callable) => SetOutcomeView::Run(
            InvocationView { callable, this, base_proto, args: seq![value] },
        ),
        None => SetOutcomeView::Done,
    }
}

/// The length that a write of a number to `length` sets.
pub open spec fn written_length(length: i32) -> usize {
    if length > 0 {
        length as usize
    } else {
        0
    }
}

impl HeapView {
    /// The script object that answers for an object, as an object of any
    /// kind: the receiver that its accessors see.
    pub open spec fn receiver(self, o: Object) -> Object {
        Object::ScriptObject(self.base(o))
    }

    /// The object has the property itself; the prototype's name counts as had.
    pub open spec fn has_own_property(self, o: Object, name: Seq<char>, case_sensitive: bool) -> bool {
        name == proto_key() || has_key(self.state(o).values, name, case_sensitive)
    }

    /// The object itself holds an accessor under the name.
    pub open spec fn has_own_virtual(self, o: Object, name: Seq<char>, case_sensitive: bool) -> bool {
        self.state(o).has_own_virtual(name, case_sensitive)
    }

    /// The object itself or one on its prototype chain has the property.
    pub open spec fn has_property(self, o: Object, name: Seq<char>, case_sensitive: bool) -> bool {
        exists|i: int|
            0 <= i < self.chain(o).len() && self.has_own_property(
                #[trigger] self.chain(o)[i],
                name,
                case_sensitive,
            )
    }

    /// The heap and the new handle after an object made a fresh one of its
    /// kind: a script object makes an array if it is one itself, else a plain
    /// object, with `this` as prototype; a shared object makes a shared
    /// object over a plain object whose prototype is `shared_proto`.
    pub open spec fn construct(self, o: Object, this: Object, shared_proto: Object) -> (HeapView, Object) {
        let next = self.cells.len() as usize;
        match o {
            Object::ScriptObject(_) => {
                let state = if self.state(o).array is Vector {
                    ObjectState::fresh_array(Some(this))
                } else {
                    ObjectState::fresh(Some(this))
                };
                (self.with_cell(CellView::Script(state)), Object::ScriptObject(ScriptObject { index: next }))
            },
            Object::SharedObject(_) => {
                let base = ScriptObject { index: next };
                (
                    self.with_cell(CellView::Script(ObjectState::fresh(Some(shared_proto)))).with_cell(
                        CellView::Shared(SharedState { base, name: None }),
                    ),
                    Object::SharedObject(SharedObject { index: (next + 1) as usize }),
                )
            },
        }
    }

    /// Replacing the state that answers for an object.
    pub open spec fn change(self, o: Object, state: ObjectState) -> HeapView {
        self.with_script(self.base(o), state)
    }

    /// A read that looks at the object alone.
    pub open spec fn get_local(self, o: Object, name: Seq<char>, case_sensitive: bool, this: Object) -> LookupView {
        if name == proto_key() {
            LookupView::Found(
                match self.proto(o) {
                    Some(p) => ValueView::Object(p),
                    None => ValueView::Undefined,
                },
            )
        } else {
            match lookup(self.state(o).values, name, case_sensitive) {
                Some(PropertyView::Stored { value, .. }) => LookupView::Found(value),
                Some(PropertyView::Virtual { get, .. }) => LookupView::Call(
                    InvocationView {
                        callable: get,
                        this,
                        base_proto: Some(Object::ScriptObject(self.base(o))),
                        args: Seq::empty(),
                    },
                ),
                None => LookupView::Found(ValueView::Undefined),
            }
        }
    }

    /// The condition of having a property oneself, or of holding an accessor
    /// there.
    pub open spec fn holds(self, name: Seq<char>, case_sensitive: bool, accessor: bool) -> spec_fn(Object) -> bool {
        |x: Object|
            if accessor {
                self.has_own_virtual(x, name, case_sensitive)
            } else {
                self.has_own_property(x, name, case_sensitive)
            }
    }

    /// The first object on the chain of `o` that has the property itself.
    pub open spec fn property_owner(self, o: Object, name: Seq<char>, case_sensitive: bool) -> Option<Object> {
        first_where(self.chain(o), self.holds(name, case_sensitive, false))
    }

    /// A read that walks the prototype chain: the first object that has the
    /// property answers, with `o` as the receiver.
    pub open spec fn get(self, o: Object, name: Seq<char>, case_sensitive: bool) -> LookupView {
        match self.property_owner(o, name, case_sensitive) {
            Some(owner) => self.get_local(owner, name, case_sensitive, o),
            None => LookupView::Found(ValueView::Undefined),
        }
    }

    /// The first object on the chain of `o` that holds an accessor under the
    /// name.
    pub open spec fn virtual_owner(self, o: Object, name: Seq<char>, case_sensitive: bool) -> Option<Object> {
        first_where(self.chain(o), self.holds(name, case_sensitive, true))
    }

    /// Whether a write under this name goes through an inherited accessor:
    /// the object has no such property itself, and one on its chain holds an
    /// accessor there.
    pub open spec fn writes_through(self, s: ScriptObject, name: Seq<char>, case_sensitive: bool) -> bool {
        &&& !has_key(self.script(s).values, name, case_sensitive)
        &&& self.virtual_owner(Object::ScriptObject(s), name, case_sensitive) is Some
    }

    /// The write of a value under a name that is neither the prototype's nor
    /// an index. Through an inherited accessor the heap stays as it is and
    /// the accessor's setter, if it has one, is to run on behalf of `this`
    /// with the accessor's owner as base; otherwise the object's own table
    /// takes the write, and the setter of an own accessor is to run with the
    /// base that was given.
    pub open spec fn write_named(
        self,
        s: ScriptObject,
        name: Seq<char>,
        value: ValueView,
        case_sensitive: bool,
        this: Object,
        base_proto: Option<Object>,
    ) -> (HeapView, SetOutcomeView) {
        if self.writes_through(s, name, case_sensitive) {
            let owner = self.virtual_owner(Object::ScriptObject(s), name, case_sensitive)->0;
            (
                self,
                setter_call(
                    self.state(owner).call_setter(name, case_sensitive),
                    this,
                    Some(owner),
                    value,
                ),
            )
        } else {
            (
                self.with_script(s, self.script(s).write_own(name, value, case_sensitive)),
                setter_call(self.script(s).call_setter(name, case_sensitive), this, base_proto, value),
            )
        }
    }

    /// A write as far as the object model can take it by itself.
    pub open spec fn internal_set(
        self,
        s: ScriptObject,
        name: Seq<char>,
        value: ValueView,
        case_sensitive: bool,
        this: Object,
        base_proto: Option<Object>,
    ) -> (HeapView, SetOutcomeView) {
        if name == proto_key() {
            (self, SetOutcomeView::CoerceToObject(value))
        } else if parsed_index(name) is Some {
            (
                self.with_script(s, self.script(s).set_array_element(parsed_index(name)->0, value)),
                SetOutcomeView::Done,
            )
        } else if name.len() == 0 {
            (self, SetOutcomeView::Done)
        } else if name == length_key() {
            (self, SetOutcomeView::CoerceToLength(value))
        } else {
            self.write_named(s, name, value, case_sensitive, this, base_proto)
        }
    }

    /// The rest of a write to `length`, once the interpreter has the number:
    /// the length is set, and then the value itself is written under the
    /// name like any other.
    pub open spec fn set_length_property(
        self,
        s: ScriptObject,
        value: ValueView,
        length: i32,
        case_sensitive: bool,
        this: Object,
        base_proto: Option<Object>,
    ) -> (HeapView, SetOutcomeView) {
        self.with_script(s, self.script(s).set_length(written_length(length))).write_named(
            s,
            length_key(),
            value,
            case_sensitive,
            this,
            base_proto,
        )
    }

    /// A whole write, given what the interpreter makes of the value where
    /// it is asked to: the object for a write to the prototype's name, the
    /// number for a write to `length`.
    pub open spec fn set_completed(
        self,
        s: ScriptObject,
        name: Seq<char>,
        value: ValueView,
        case_sensitive: bool,
        this: Object,
        base_proto: Option<Object>,
        coerced_object: Object,
        coerced_length: i32,
    ) -> (HeapView, SetOutcomeView) {
        let (heap, outcome) = self.internal_set(s, name, value, case_sensitive, this, base_proto);
        match outcome {
            SetOutcomeView::CoerceToObject(_) => (
                heap.with_script(s, ObjectState { prototype: Some(coerced_object), ..heap.script(s) }),
                SetOutcomeView::Done,
            ),
            SetOutcomeView::CoerceToLength(v) => heap.set_length_property(
                s,
                v,
                coerced_length,
                case_sensitive,
                this,
                base_proto,
            ),
            _ => (heap, outcome),
        }
    }

    /// Whether a write has to walk the prototype chain.
    pub open spec fn set_walks(self, s: ScriptObject, name: Seq<char>, case_sensitive: bool) -> bool {
        &&& name != proto_key()
        &&& parsed_index(name) is None
        &&& name.len() != 0
        &&& name != length_key()
        &&& !has_key(self.script(s).values, name, case_sensitive)
    }

    /// Whether a write would have to grow a vector beyond what can be
    /// addressed.
    pub open spec fn set_overflows(self, s: ScriptObject, name: Seq<char>) -> bool {
        &&& name != proto_key()
        &&& parsed_index(name) == Some(usize::MAX)
        &&& self.script(s).array is Vector
    }

    /// The names that enumeration lists along a chain: for each object, first
    /// what its prototype lists, without the names that the object shadows,
    /// then its own enumerable names.
    pub open spec fn keys_along(self, s: Seq<Object>, case_sensitive: bool) -> Seq<Seq<char>>
        decreases s.len(),
    {
        if s.len() == 0 {
            Seq::empty()
        } else {
            let own = self.state(s[0]).values;
            unshadowed(self.keys_along(s.skip(1), case_sensitive), own, case_sensitive) + enumerable_keys(own)
        }
    }

    /// The names that enumeration lists for an object.
    pub open spec fn get_keys(self, o: Object, case_sensitive: bool) -> Seq<Seq<char>> {
        self.keys_along(self.chain(o), case_sensitive)
    }
}

/// Two conditions that agree on every object of a sequence find the same.
pub proof fn lemma_first_where_same(
    s: Seq<Object>,
    first: spec_fn(Object) -> bool,
    second: spec_fn(Object) -> bool,
)
    requires
        forall|i: int| 0 <= i < s.len() ==> first(#[trigger] s[i]) == second(s[i]),
    ensures
        first_where(s, first) == first_where(s, second),
    decreases s.len(),
{
    if s.len() > 0 {
        assert(first(s[0]) == second(s[0]));
        let rest = s.skip(1);
        assert forall|i: int| 0 <= i < rest.len() implies first(#[trigger] rest[i]) == second(rest[i]) by {
            assert(rest[i] == s[i + 1]);
        }
        lemma_first_where_same(rest, first, second);
    }
}

/// What `first_where` finds is in the sequence and meets the condition, and
/// nothing before it does; it finds nothing only where nothing meets it.
pub proof fn lemma_first_where(s: Seq<Object>, condition: spec_fn(Object) -> bool)
    ensures
        match first_where(s, condition) {
            Some(x) => exists|i: int|
                0 <= i < s.len() && s[i] == x && condition(x) && forall|j: int|
                    0 <= j < i ==> !condition(#[trigger] s[j]),
            None => forall|j: int| 0 <= j < s.len() ==> !condition(#[trigger] s[j]),
        },
    decreases s.len(),
{
    if s.len() == 0 {
    } else if condition(s[0]) {
        assert(s[0] == s[0] && forall|j: int| 0 <= j < 0 ==> !condition(#[trigger] s[j]));
    } else {
        let rest = s.skip(1);
        lemma_first_where(rest, condition);
        match first_where(rest, condition) {
            Some(x) => {
                let i = choose|i: int|
                    0 <= i < rest.len() && rest[i] == x && condition(x) && forall|j: int|
                        0 <= j < i ==> !condition(#[trigger] rest[j]);
                assert forall|j: int| 0 <= j < i + 1 implies !condition(#[trigger] s[j]) by {
                    if j > 0 {
                        assert(s[j] == rest[j - 1]);
                    }
                }
                assert(s[i + 1] == x);
            },
            None => {
                assert forall|j: int| 0 <= j < s.len() implies !condition(#[trigger] s[j]) by {
                    if j > 0 {
                        assert(s[j] == rest[j - 1]);
                    }
                }
            },
        }
    }
}

impl Heap {
    /// Walks the prototype chain for the first object that has a property
    /// itself, or that holds an accessor under the name.
    pub fn find_owner(&self, o: Object, name: &str, case_sensitive: bool, accessor: bool) -> (r: Option<Object>)
        requires
            self.wf(),
            self@.has(o),
            self@.has_chain(o),
        ensures
            r == first_where(self@.chain(o), self@.holds(name@, case_sensitive, accessor)),
            r matches Some(owner) ==> self@.has(owner),
    {
        let ghost s = self@.chain(o);
        let ghost condition = self@.holds(name@, case_sensitive, accessor);
        let ghost mut k: int = 0;
        let mut cur: Option<Object> = Some(o);
        proof {
            self@.lemma_chain_step(o);
            assert(s.skip(0) =~= s);
        }
        loop
            invariant
                self.wf(),
                self@.has(o),
                self@.has_chain(o),
                s == self@.chain(o),
                self@.is_chain(o, s),
                condition == self@.holds(name@, case_sensitive, accessor),
                0 <= k <= s.len(),
                cur matches Some(c) ==> k < s.len() && c == s[k] && self@.has(c),
                cur is None ==> k == s.len(),
                first_where(s, condition) == first_where(s.skip(k), condition),
            ensures
                cur == first_where(s, condition),
                cur matches Some(c) ==> self@.has(c),
            decreases s.len() - k,
        {
            match cur {
                None => {
                    break ;
                },
                Some(c) => {
                    let data = self.state_of(c);
                    let hit = if accessor {
                        data.has_own_virtual(name, case_sensitive)
                    } else {
                        names_match(name, "__proto__", true) || data.contains_key(name, case_sensitive)
                    };
                    assert(hit == condition(c));
                    assert(s.skip(k)[0] == c);
                    if hit {
                        break ;
                    }
                    proof {
                        assert(s.skip(k).skip(1) =~= s.skip(k + 1));
                        if k + 1 < s.len() {
                            assert(self@.proto(s[k]) == Some(s[k + 1]));
                            self@.lemma_chain_in_heap(o, k + 1);
                        }
                    }
                    cur = data.proto();
                    proof {
                        k = k + 1;
                    }
                },
            }
        }
        cur
    }
}

impl Heap {
    /// Reads a property of an object itself.
    pub fn read_local(&self, o: Object, name: &str, case_sensitive: bool, this: Object) -> (r: Lookup)
        requires
            self.wf(),
            self@.has(o),
        ensures
            r@ == self@.get_local(o, name@, case_sensitive, this),
    {
        let base = self.base_of(o);
        let data = self.script(base);
        if names_match(name, "__proto__", true) {
            return Lookup::Found(
                match data.proto() {
                    Some(p) => Value::Object(p),
                    None => Value::Undefined,
                },
            );
        }
        match data.get(name, case_sensitive) {
            Some(Property::Virtual { get, .. }) => {
                let args: Vec<Value> = Vec::new();
                assert(values_view(args@) =~= Seq::empty());
                Lookup::Call(
                    Invocation {
                        callable: *get,
                        this,
                        base_proto: Some(Object::ScriptObject(base)),
                        args,
                    },
                )
            },
            Some(Property::Stored { value, .. }) => Lookup::Found(value.clone()),
            None => Lookup::Found(Value::Undefined),
        }
    }

    /// Reads a property of an object or of the first object on its chain
    /// that has it.
    pub fn read(&self, o: Object, name: &str, case_sensitive: bool) -> (r: Lookup)
        requires
            self.wf(),
            self@.has(o),
            self@.has_chain(o),
        ensures
            r@ == self@.get(o, name@, case_sensitive),
    {
        match self.find_owner(o, name, case_sensitive, false) {
            Some(owner) => self.read_local(owner, name, case_sensitive, o),
            None => Lookup::Found(Value::Undefined),
        }
    }

    /// Whether an object or one on its chain has a property.
    pub fn inherits(&self, o: Object, name: &str, case_sensitive: bool) -> (r: bool)
        requires
            self.wf(),
            self@.has(o),
            self@.has_chain(o),
        ensures
            r == self@.has_property(o, name@, case_sensitive),
    {
        proof {
            lemma_first_where(self@.chain(o), self@.holds(name@, case_sensitive, false));
        }
        self.find_owner(o, name, case_sensitive, false).is_some()
    }

    /// Enumerates an object: what its prototype lists and it does not
    /// shadow, then its own enumerable names.
    pub fn enumerate(&self, o: Object, case_sensitive: bool) -> (r: Vec<String>)
        requires
            self.wf(),
            self@.has(o),
            self@.has_chain(o),
        ensures
            names_view(r@) == self@.get_keys(o, case_sensitive),
    {
        let chain = self.chain_of(o);
        let ghost s = self@.chain(o);
        let mut out: Vec<String> = Vec::new();
        let mut k: usize = chain.len();
        assert(s.skip(k as int) =~= Seq::empty());
        assert(names_view(out@) =~= Seq::empty());
        while k > 0
            invariant
                self.wf(),
                self@.has(o),
                self@.has_chain(o),
                s == self@.chain(o),
                chain@ == s,
                0 <= k <= s.len(),
                names_view(out@) == self@.keys_along(s.skip(k as int), case_sensitive),
            decreases k,
        {
            k -= 1;
            proof {
                self@.lemma_chain_in_heap(o, k as int);
                assert(s.skip(k as int)[0] == s[k as int]);
                assert(s.skip(k as int).skip(1) =~= s.skip(k + 1));
            }
            let data = self.state_of(chain[k]);
            let mut kept = data.unshadowed_names(&out, case_sensitive);
            let mut own = data.own_keys();
            let ghost a = kept@;
            let ghost b = own@;
            kept.append(&mut own);
            assert(names_view(kept@) =~= names_view(a) + names_view(b));
            out = kept;
        }
        assert(s.skip(0) =~= s);
        out
    }
}

/// What `as_string` gives for an object.
pub open spec fn object_string() -> Seq<char> {
    "[object Object]"@
}

/// The value that a getter's run comes to: what it returned, or `Undefined`
/// where it failed.
pub fn getter_value<E>(outcome: Result<Value, E>) -> (r: Value)
    ensures
        r@ == match outcome {
            Ok(v) => v@,
            Err(_) => ValueView::Undefined,
        },
{
    match outcome {
        Ok(v) => v,
        Err(_) => Value::Undefined,
    }
}

/// The capabilities of an object of any kind, reached through its handle.
pub trait TObject: Sized {
    /// The handle as one of an object of any kind.
    spec fn handle(&self) -> Object;

    /// The handle as one of an object of any kind.
    fn as_object(&self) -> (r: Object)
        ensures
            r == self.handle(),
    ;

    /// Reads a property of the object itself.
    fn get_local(&self, heap: &Heap, name: &str, case_sensitive: bool, this: Object) -> (r: Lookup)
        requires
            heap.wf(),
            heap@.has(self.handle()),
        ensures
            r@ == heap@.get_local(self.handle(), name@, case_sensitive, this),
    ;

    /// Reads a property of the object or of the first object on its
    /// prototype chain that has it.
    fn get(&self, heap: &Heap, name: &str, case_sensitive: bool) -> (r: Lookup)
        requires
            heap.wf(),
            heap@.has(self.handle()),
            heap@.has_chain(self.handle()),
        ensures
            r@ == heap@.get(self.handle(), name@, case_sensitive),
    ;

    /// Writes a property, as far as that can be done without the
    /// interpreter.
    fn set(&self, heap: &mut Heap, name: &str, value: Value, case_sensitive: bool) -> (r: SetOutcome)
        requires
            old(heap).wf(),
            old(heap)@.has(self.handle()),
            old(heap)@.set_walks(old(heap)@.base(self.handle()), name@, case_sensitive) ==> old(heap)@.has_chain(
                old(heap)@.receiver(self.handle()),
            ),
            !old(heap)@.set_overflows(old(heap)@.base(self.handle()), name@),
        ensures
            final(heap).wf(),
            final(heap)@.keeps(old(heap)@),
            (final(heap)@, r@) == old(heap)@.internal_set(
                old(heap)@.base(self.handle()),
                name@,
                value@,
                case_sensitive,
                old(heap)@.receiver(self.handle()),
                Some(old(heap)@.receiver(self.handle())),
            ),
    ;

    /// Goes on with a write to `length`, with the number that the
    /// interpreter made of the value.
    fn set_length_value(&self, heap: &mut Heap, value: Value, length: i32, case_sensitive: bool) -> (r:
        SetOutcome)
        requires
            old(heap).wf(),
            old(heap)@.has(self.handle()),
            old(heap)@.state(self.handle()).length_write_walks(case_sensitive) ==> old(heap)@.has_chain(
                old(heap)@.receiver(self.handle()),
            ),
        ensures
            final(heap).wf(),
            final(heap)@.keeps(old(heap)@),
            (final(heap)@, r@) == old(heap)@.set_length_property(
                old(heap)@.base(self.handle()),
                value@,
                length,
                case_sensitive,
                old(heap)@.receiver(self.handle()),
                Some(old(heap)@.receiver(self.handle())),
            ),
    ;

    /// Calls the object as a function. What comes of it is for each kind of
    /// object to say.
    fn call(&self, name: &str, this: Object, base_proto: Option<Object>, args: &[Value]) -> (r: Value)
    ;

    /// The setter that a write through the accessor under a name must run.
    fn call_setter(&self, heap: &Heap, name: &str, value: Value, case_sensitive: bool) -> (r: Option<
        Executable,
    >)
        requires
            heap.wf(),
            heap@.has(self.handle()),
        ensures
            r == heap@.state(self.handle()).call_setter(name@, case_sensitive),
    ;

    /// Makes a fresh object of the same kind. `this` becomes the prototype
    /// of a script object; a shared object gets `shared_proto`.
    fn new(&self, heap: &mut Heap, this: Object, shared_proto: Object) -> (r: Object)
        requires
            old(heap).wf(),
            old(heap)@.has(self.handle()),
            old(heap)@.has(this),
            old(heap)@.has(shared_proto),
        ensures
            final(heap).wf(),
            final(heap)@.keeps(old(heap)@),
            final(heap)@.has(r),
            !old(heap)@.has(r),
            (final(heap)@, r) == old(heap)@.construct(self.handle(), this, shared_proto),
    ;

    /// Removes a property; says whether it did.
    fn delete(&self, heap: &mut Heap, name: &str, case_sensitive: bool) -> (r: bool)
        requires
            old(heap).wf(),
            old(heap)@.has(self.handle()),
        ensures
            final(heap).wf(),
            final(heap)@.keeps(old(heap)@),
            r == old(heap)@.state(self.handle()).can_delete(name@, case_sensitive),
            final(heap)@ == old(heap)@.change(
                self.handle(),
                old(heap)@.state(self.handle()).delete(name@, case_sensitive),
            ),
    ;

    /// Makes an accessor, in place of what the name finds under folding.
    fn add_property(
        &self,
        heap: &mut Heap,
        name: &str,
        get: Executable,
        set: Option<Executable>,
        attributes: AttributeSet,
    )
        requires
            old(heap).wf(),
            old(heap)@.has(self.handle()),
        ensures
            final(heap).wf(),
            final(heap)@.keeps(old(heap)@),
            final(heap)@ == old(heap)@.change(
                self.handle(),
                old(heap)@.state(self.handle()).add_property(name@, get, set, attributes, false),
            ),
    ;

    /// Makes an accessor under a name, in the given mode.
    fn add_property_with_case(
        &self,
        heap: &mut Heap,
        name: &str,
        get: Executable,
        set: Option<Executable>,
        attributes: AttributeSet,
        case_sensitive: bool,
    )
        requires
            old(heap).wf(),
            old(heap)@.has(self.handle()),
        ensures
            final(heap).wf(),
            final(heap)@.keeps(old(heap)@),
            final(heap)@ == old(heap)@.change(
                self.handle(),
                old(heap)@.state(self.handle()).add_property(name@, get, set, attributes, case_sensitive),
            ),
    ;

    /// Makes a stored property under an exact name.
    fn define_value(&self, heap: &mut Heap, name: &str, value: Value, attributes: AttributeSet)
        requires
            old(heap).wf(),
            old(heap)@.has(self.handle()),
        ensures
            final(heap).wf(),
            final(heap)@.keeps(old(heap)@),
            final(heap)@ == old(heap)@.change(
                self.handle(),
                old(heap)@.state(self.handle()).define_value(name@, value@, attributes),
            ),
    ;

    /// Changes the attributes of one property, or of all.
    fn set_attributes(
        &self,
        heap: &mut Heap,
        name: Option<&str>,
        set_attributes: AttributeSet,
        clear_attributes: AttributeSet,
    )
        requires
            old(heap).wf(),
            old(heap)@.has(self.handle()),
        ensures
            final(heap).wf(),
            final(heap)@.keeps(old(heap)@),
            final(heap)@ == old(heap)@.change(
                self.handle(),
                old(heap)@.state(self.handle()).set_attributes(
                    match name {
                        Some(n) => Some(n@),
                        None => None,
                    },
                    set_attributes,
                    clear_attributes,
                ),
            ),
    ;

    /// The prototype.
    fn proto(&self, heap: &Heap) -> (r: Option<Object>)
        requires
            heap.wf(),
            heap@.has(self.handle()),
        ensures
            r == heap@.proto(self.handle()),
            r matches Some(p) ==> heap@.has(p),
    ;

    /// Sets the prototype.
    fn set_proto(&self, heap: &mut Heap, prototype: Option<Object>)
        requires
            old(heap).wf(),
            old(heap)@.has(self.handle()),
            prototype matches Some(p) ==> old(heap)@.has(p),
        ensures
            final(heap).wf(),
            final(heap)@.keeps(old(heap)@),
            final(heap)@ == old(heap)@.change(
                self.handle(),
                (ObjectState { prototype, ..old(heap)@.state(self.handle()) }),
            ),
    ;

    /// Whether the object or one on its prototype chain has the property.
    fn has_property(&self, heap: &Heap, name: &str, case_sensitive: bool) -> (r: bool)
        requires
            heap.wf(),
            heap@.has(self.handle()),
            heap@.has_chain(self.handle()),
        ensures
            r == heap@.has_property(self.handle(), name@, case_sensitive),
    ;

    /// Whether the object has the property itself.
    fn has_own_property(&self, heap: &Heap, name: &str, case_sensitive: bool) -> (r: bool)
        requires
            heap.wf(),
            heap@.has(self.handle()),
        ensures
            r == heap@.has_own_property(self.handle(), name@, case_sensitive),
    ;

    /// Whether the object holds an accessor under the name.
    fn has_own_virtual(&self, heap: &Heap, name: &str, case_sensitive: bool) -> (r: bool)
        requires
            heap.wf(),
            heap@.has(self.handle()),
        ensures
            r == heap@.has_own_virtual(self.handle(), name@, case_sensitive),
    ;

    /// Whether enumeration lists the object's own property of that name.
    fn is_property_enumerable(&self, heap: &Heap, name: &str, case_sensitive: bool) -> (r: bool)
        requires
            heap.wf(),
            heap@.has(self.handle()),
        ensures
            r == heap@.state(self.handle()).is_property_enumerable(name@, case_sensitive),
    ;

    /// Enumerates the object.
    fn get_keys(&self, heap: &Heap, case_sensitive: bool) -> (r: Vec<String>)
        requires
            heap.wf(),
            heap@.has(self.handle()),
            heap@.has_chain(self.handle()),
        ensures
            names_view(r@) == heap@.get_keys(self.handle(), case_sensitive),
    ;

    /// The object as a string. Which string is for each kind of object to
    /// say.
    fn as_string(&self) -> (r: String)
    ;

    /// The type tag.
    fn type_of(&self, heap: &Heap) -> (r: &'static str)
        requires
            heap.wf(),
            heap@.has(self.handle()),
        ensures
            r@ == heap@.state(self.handle()).type_of,
    ;

    /// The interfaces that the object implements.
    fn interfaces(&self, heap: &Heap) -> (r: Vec<Object>)
        requires
            heap.wf(),
            heap@.has(self.handle()),
        ensures
            r@ == heap@.state(self.handle()).interfaces,
    ;

    /// Sets the interfaces that the object implements.
    fn set_interfaces(&self, heap: &mut Heap, iface_list: Vec<Object>)
        requires
            old(heap).wf(),
            old(heap)@.has(self.handle()),
        ensures
            final(heap).wf(),
            final(heap)@.keeps(old(heap)@),
            final(heap)@ == old(heap)@.change(
                self.handle(),
                (ObjectState { interfaces: iface_list@, ..old(heap)@.state(self.handle()) }),
            ),
    ;

    /// The script object that answers for the object.
    fn as_script_object(&self, heap: &Heap) -> (r: Option<ScriptObject>)
        requires
            heap.wf(),
            heap@.has(self.handle()),
        ensures
            r == Some(heap@.base(self.handle())),
    ;

    /// The callable behind the object, if it is a function.
    fn as_executable(&self) -> (r: Option<Executable>)
    ;

    /// The object as a display object, if it is one.
    fn as_display_object(&self) -> (r: Option<DisplayObject>)
    ;

    /// The object as a sound object, if it is one.
    fn as_sound_object(&self) -> (r: Option<SoundObject>)
    ;

    /// The object as a shared object, if it is one.
    fn as_shared_object(&self) -> (r: Option<SharedObject>)
        ensures
            r == match self.handle() {
                Object::SharedObject(s) => Some(s),
                Object::ScriptObject(_) => None,
            },
    ;

    /// The identity of the object: the place of its own cell.
    fn as_ptr(&self) -> (r: usize)
        ensures
            r == HeapView::address(self.handle()),
    ;

    /// The length of the array overlay.
    fn length(&self, heap: &Heap) -> (r: usize)
        requires
            heap.wf(),
            heap@.has(self.handle()),
        ensures
            r == heap@.state(self.handle()).length(),
    ;

    /// Sets the length of the array overlay and mirrors it.
    fn set_length(&self, heap: &mut Heap, length: usize)
        requires
            old(heap).wf(),
            old(heap)@.has(self.handle()),
        ensures
            final(heap).wf(),
            final(heap)@.keeps(old(heap)@),
            final(heap)@ == old(heap)@.change(
                self.handle(),
                old(heap)@.state(self.handle()).set_length(length),
            ),
    ;

    /// The slots `0..length`.
    fn array(&self, heap: &Heap) -> (r: Vec<Value>)
        requires
            heap.wf(),
            heap@.has(self.handle()),
        ensures
            values_view(r@) == heap@.state(self.handle()).array_values(),
    ;

    /// The slot at an index; `Undefined` where there is none.
    fn array_element(&self, heap: &Heap, index: usize) -> (r: Value)
        requires
            heap.wf(),
            heap@.has(self.handle()),
        ensures
            r@ == heap@.state(self.handle()).array_element(index),
    ;

    /// Writes a slot and mirrors it; returns the length afterwards.
    fn set_array_element(&self, heap: &mut Heap, index: usize, value: Value) -> (r: usize)
        requires
            old(heap).wf(),
            old(heap)@.has(self.handle()),
            old(heap)@.state(self.handle()).array is Vector ==> index < usize::MAX,
        ensures
            final(heap).wf(),
            final(heap)@.keeps(old(heap)@),
            final(heap)@ == old(heap)@.change(
                self.handle(),
                old(heap)@.state(self.handle()).set_array_element(index, value@),
            ),
            r == final(heap)@.state(self.handle()).length(),
    ;

    /// Empties a slot of a vector and takes its mirrored entry out; the
    /// length stays.
    fn delete_array_element(&self, heap: &mut Heap, index: usize)
        requires
            old(heap).wf(),
            old(heap)@.has(self.handle()),
        ensures
            final(heap).wf(),
            final(heap)@.keeps(old(heap)@),
            final(heap)@ == old(heap)@.change(
                self.handle(),
                old(heap)@.state(self.handle()).delete_array_element(index),
            ),
    ;
}

} // verus!
