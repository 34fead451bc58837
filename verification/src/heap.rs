//! The heap: every object lives in a cell of it and is named by a handle,
//! the place of its cell. Cells are never taken away, so a handle that was
//! given out stays good, and objects may refer to each other in any shape.

use vstd::prelude::*;
use crate::object_data::{ObjectState, ScriptObjectData};
use crate::value::{Object, ScriptObject, SharedObject};

verus! {

/// The state of a shared object: the script object underneath, and the name
/// of its backing store once it has one.
#[derive(Debug)]
pub struct SharedObjectData {
    base: ScriptObject,
    name: Option<String>,
}

/// The mathematical content of a [`SharedObjectData`].
pub struct SharedState {
    pub base: ScriptObject,
    pub name: Option<Seq<char>>,
}

impl View for SharedObjectData {
    type V = SharedState;

    closed spec fn view(&self) -> SharedState {
        SharedState {
            base: self.base,
            name: match self.name {
                Some(n) => Some(n@),
                None => None,
            },
        }
    }
}

impl SharedObjectData {
    /// A shared object without a name over a script object.
    pub fn new(base: ScriptObject) -> (r: SharedObjectData)
        ensures
            r@ == (SharedState { base, name: None }),
    {
        SharedObjectData { base, name: None }
    }

    /// The script object underneath.
    pub fn base(&self) -> (r: ScriptObject)
        ensures
            r == self@.base,
    {
        self.base
    }

    /// Names the backing store.
    pub fn set_name(&mut self, name: String)
        ensures
            final(self)@ == (SharedState { name: Some(name@), ..old(self)@ }),
    {
        self.name = Some(name);
    }

    /// The name of the backing store; empty while there is none.
    pub fn get_name(&self) -> (r: String)
        ensures
            r@ == match self@.name {
                Some(n) => n,
                None => Seq::empty(),
            },
    {
        match &self.name {
            Some(n) => n.clone(),
            None => String::new(),
        }
    }
}

/// What a cell of the heap holds.
#[derive(Debug)]
pub enum Cell {
    Script(ScriptObjectData),
    Shared(SharedObjectData),
}

/// The mathematical content of a [`Cell`].
pub enum CellView {
    Script(ObjectState),
    Shared(SharedState),
}

impl View for Cell {
    type V = CellView;

    open spec fn view(&self) -> CellView {
        match self {
            Cell::Script(data) => CellView::Script(data@),
            Cell::Shared(data) => CellView::Shared(data@),
        }
    }
}

/// The mathematical content of a [`Heap`]: its cells in the order in which
/// they were made.
pub struct HeapView {
    pub cells: Seq<CellView>,
}

impl HeapView {
    /// The handle names a script object of this heap.
    pub open spec fn has_script(self, s: ScriptObject) -> bool {
        s.index < self.cells.len() && self.cells[s.index as int] is Script
    }

    /// The handle names a shared object of this heap.
    pub open spec fn has_shared(self, s: SharedObject) -> bool {
        &&& s.index < self.cells.len()
        &&& self.cells[s.index as int] matches CellView::Shared(data)
        &&& self.has_script(data.base)
    }

    /// The handle names an object of this heap.
    pub open spec fn has(self, o: Object) -> bool {
        match o {
            Object::ScriptObject(s) => self.has_script(s),
            Object::SharedObject(s) => self.has_shared(s),
        }
    }

    /// The state of a script object.
    pub open spec fn script(self, s: ScriptObject) -> ObjectState {
        self.cells[s.index as int]->Script_0
    }

    /// The state of a shared object.
    pub open spec fn shared(self, s: SharedObject) -> SharedState {
        self.cells[s.index as int]->Shared_0
    }

    /// The script object that answers for an object: the object itself, or
    /// the one underneath a shared object.
    pub open spec fn base(self, o: Object) -> ScriptObject {
        match o {
            Object::ScriptObject(s) => s,
            Object::SharedObject(s) => self.shared(s).base,
        }
    }

    /// The state that answers for an object.
    pub open spec fn state(self, o: Object) -> ObjectState {
        self.script(self.base(o))
    }

    /// The place of an object's own cell: its identity.
    pub open spec fn address(o: Object) -> usize {
        match o {
            Object::ScriptObject(s) => s.index,
            Object::SharedObject(s) => s.index,
        }
    }

    /// The heap with the state of one script object replaced.
    pub open spec fn with_script(self, s: ScriptObject, state: ObjectState) -> HeapView {
        HeapView { cells: self.cells.update(s.index as int, CellView::Script(state)) }
    }

    /// The heap with the state of one shared object replaced.
    pub open spec fn with_shared(self, s: SharedObject, state: SharedState) -> HeapView {
        HeapView { cells: self.cells.update(s.index as int, CellView::Shared(state)) }
    }

    /// The heap with one more cell.
    pub open spec fn with_cell(self, cell: CellView) -> HeapView {
        HeapView { cells: self.cells.push(cell) }
    }

    /// The prototype of an object.
    pub open spec fn proto(self, o: Object) -> Option<Object> {
        self.state(o).prototype
    }

    /// Every handle that was good in `before` is good in this heap.
    pub open spec fn keeps(self, before: HeapView) -> bool {
        forall|o: Object| before.has(o) ==> #[trigger] self.has(o)
    }

    /// Every table has distinct keys, and every link leads to an object of
    /// this heap.
    pub open spec fn wf(self) -> bool {
        forall|i: int|
            0 <= i < self.cells.len() ==> match #[trigger] self.cells[i] {
                CellView::Script(state) => {
                    &&& crate::property_map::distinct_keys(state.values)
                    &&& state.prototype matches Some(p) ==> self.has(p)
                },
                CellView::Shared(state) => self.has_script(state.base),
            }
    }

    /// `s` is the prototype chain of `o`: it starts at `o`, goes on from
    /// each object to its prototype, and ends at an object without one.
    pub open spec fn is_chain(self, o: Object, s: Seq<Object>) -> bool {
        &&& s.len() > 0
        &&& s[0] == o
        &&& forall|i: int| 0 <= i < s.len() - 1 ==> #[trigger] self.proto(s[i]) == Some(s[i + 1])
        &&& self.proto(s.last()) is None
    }

    /// The prototype links from `o` come to an end.
    pub open spec fn has_chain(self, o: Object) -> bool {
        exists|s: Seq<Object>| self.is_chain(o, s)
    }

    /// The prototype chain of `o`, where it has one.
    pub open spec fn chain(self, o: Object) -> Seq<Object> {
        choose|s: Seq<Object>| self.is_chain(o, s)
    }

    /// An object has at most one chain.
    pub proof fn lemma_chain_unique(self, o: Object, s1: Seq<Object>, s2: Seq<Object>)
        requires
            self.is_chain(o, s1),
            self.is_chain(o, s2),
        ensures
            s1 == s2,
    {
        assert forall|i: int| 0 <= i < s1.len() && i < s2.len() implies s1[i] == s2[i] by {
            self.lemma_chain_agree(o, s1, s2, i);
        }
        if s1.len() < s2.len() {
            let k = s1.len() - 1;
            assert(self.proto(s2[k]) == Some(s2[k + 1]));
        } else if s2.len() < s1.len() {
            let k = s2.len() - 1;
            assert(self.proto(s1[k]) == Some(s1[k + 1]));
        }
        assert(s1 =~= s2);
    }

    /// Two chains of one object agree as far as both reach.
    proof fn lemma_chain_agree(self, o: Object, s1: Seq<Object>, s2: Seq<Object>, i: int)
        requires
            self.is_chain(o, s1),
            self.is_chain(o, s2),
            0 <= i < s1.len(),
            i < s2.len(),
        ensures
            s1[i] == s2[i],
        decreases i,
    {
        if i > 0 {
            self.lemma_chain_agree(o, s1, s2, i - 1);
            assert(self.proto(s1[i - 1]) == Some(s1[i]));
            assert(self.proto(s2[i - 1]) == Some(s2[i]));
        }
    }

    /// The chain of an object is the object, then the chain of its
    /// prototype.
    pub proof fn lemma_chain_step(self, o: Object)
        requires
            self.has_chain(o),
        ensures
            self.is_chain(o, self.chain(o)),
            self.proto(o) is None ==> self.chain(o) == seq![o],
            self.proto(o) matches Some(p) ==> self.has_chain(p) && self.chain(o) == seq![o] + self.chain(p),
    {
        let s = self.chain(o);
        match self.proto(o) {
            None => {
                if s.len() > 1 {
                    assert(self.proto(s[0]) == Some(s[1]));
                }
                assert(s =~= seq![o]);
            },
            Some(p) => {
                assert(s.len() > 1);
                assert(self.proto(s[0]) == Some(s[1]));
                let rest = s.skip(1);
                assert forall|i: int| 0 <= i < rest.len() - 1 implies #[trigger] self.proto(rest[i]) == Some(
                    rest[i + 1],
                ) by {
                    assert(self.proto(s[i + 1]) == Some(s[i + 2]));
                }
                assert(rest.last() == s.last());
                assert(self.is_chain(p, rest));
                self.lemma_chain_unique(p, rest, self.chain(p));
                assert(s =~= seq![o] + rest);
            },
        }
    }

    /// An object whose prototype has a chain has one too.
    pub proof fn lemma_chain_extend(self, o: Object)
        requires
            self.proto(o) matches Some(p) ==> self.has_chain(p),
        ensures
            self.has_chain(o),
    {
        match self.proto(o) {
            None => {
                assert(self.is_chain(o, seq![o]));
            },
            Some(p) => {
                let rest = self.chain(p);
                let s = seq![o] + rest;
                assert forall|i: int| 0 <= i < s.len() - 1 implies #[trigger] self.proto(s[i]) == Some(
                    s[i + 1],
                ) by {
                    if i > 0 {
                        assert(self.proto(rest[i - 1]) == Some(rest[i]));
                    }
                }
                assert(s.last() == rest.last());
                assert(self.is_chain(o, s));
            },
        }
    }

    /// In a well-formed heap the chain of an object of the heap stays in
    /// the heap.
    pub proof fn lemma_chain_in_heap(self, o: Object, i: int)
        requires
            self.wf(),
            self.has(o),
            self.has_chain(o),
            0 <= i < self.chain(o).len(),
        ensures
            self.has(self.chain(o)[i]),
        decreases i,
    {
        let s = self.chain(o);
        if i > 0 {
            self.lemma_chain_in_heap(o, i - 1);
            assert(self.proto(s[i - 1]) == Some(s[i]));
            let b = self.base(s[i - 1]);
            assert(self.cells[b.index as int] is Script);
        }
    }

    /// Replacing the state of a script object keeps every handle good, and
    /// keeps the heap well formed where the new state is.
    pub proof fn lemma_with_script(self, s: ScriptObject, state: ObjectState)
        requires
            self.has_script(s),
        ensures
            forall|o: Object| self.has(o) == #[trigger] self.with_script(s, state).has(o),
            forall|t: ScriptObject| self.has_script(t) == #[trigger] self.with_script(s, state).has_script(t),
            forall|t: SharedObject| self.has_shared(t) == #[trigger] self.with_script(s, state).has_shared(t),
            forall|o: Object| self.has(o) ==> self.base(o) == #[trigger] self.with_script(s, state).base(o),
            self.wf() && crate::property_map::distinct_keys(state.values) && (state.prototype matches Some(p)
                ==> self.has(p)) ==> self.with_script(s, state).wf(),
    {
        let after = self.with_script(s, state);
        assert forall|t: ScriptObject| self.has_script(t) == #[trigger] after.has_script(t) by {}
        assert forall|t: SharedObject| self.has_shared(t) == #[trigger] after.has_shared(t) by {
            if t.index < self.cells.len() && t.index != s.index {
                assert(after.cells[t.index as int] == self.cells[t.index as int]);
            }
        }
        assert forall|o: Object| self.has(o) == #[trigger] after.has(o) by {
            match o {
                Object::ScriptObject(t) => {
                    assert(self.has_script(t) == after.has_script(t));
                },
                Object::SharedObject(t) => {
                    assert(self.has_shared(t) == after.has_shared(t));
                },
            }
        }
        if self.wf() && crate::property_map::distinct_keys(state.values) && (state.prototype matches Some(p)
            ==> self.has(p)) {
            assert forall|i: int| 0 <= i < after.cells.len() implies match #[trigger] after.cells[i] {
                CellView::Script(st) => {
                    &&& crate::property_map::distinct_keys(st.values)
                    &&& st.prototype matches Some(p) ==> after.has(p)
                },
                CellView::Shared(st) => after.has_script(st.base),
            } by {
                if i != s.index {
                    assert(after.cells[i] == self.cells[i]);
                    match self.cells[i] {
                        CellView::Script(st) => {
                            if st.prototype is Some {
                                assert(self.has(st.prototype->0));
                            }
                        },
                        CellView::Shared(st) => {
                            assert(self.has_script(st.base));
                        },
                    }
                } else {
                    if state.prototype is Some {
                        assert(self.has(state.prototype->0));
                    }
                }
            }
        }
    }

    /// A chain stays the chain in any heap that agrees on the prototypes of
    /// its objects.
    pub proof fn lemma_same_chain(self, other: HeapView, o: Object, s: Seq<Object>)
        requires
            self.is_chain(o, s),
            forall|i: int| 0 <= i < s.len() ==> other.proto(#[trigger] s[i]) == self.proto(s[i]),
        ensures
            other.is_chain(o, s),
            other.has_chain(o),
            other.chain(o) == s,
    {
        assert forall|i: int| 0 <= i < s.len() - 1 implies #[trigger] other.proto(s[i]) == Some(s[i + 1]) by {
            assert(self.proto(s[i]) == Some(s[i + 1]));
        }
        assert(other.is_chain(o, s));
        other.lemma_chain_unique(o, s, other.chain(o));
    }

    /// A new cell keeps every handle good and every chain as it was, and
    /// keeps the heap well formed where the cell fits it.
    pub proof fn lemma_with_cell(self, cell: CellView)
        requires
            self.wf(),
        ensures
            forall|o: Object| self.has(o) ==> #[trigger] self.with_cell(cell).has(o),
            forall|o: Object| self.has(o) ==> self.with_cell(cell).state(o) == #[trigger] self.state(o),
            forall|o: Object|
                self.has(o) && #[trigger] self.has_chain(o) ==> self.with_cell(cell).has_chain(o)
                    && self.with_cell(cell).chain(o) == self.chain(o),
            (match cell {
                CellView::Script(state) => {
                    &&& crate::property_map::distinct_keys(state.values)
                    &&& state.prototype matches Some(p) ==> self.has(p)
                },
                CellView::Shared(state) => self.has_script(state.base),
            }) ==> self.with_cell(cell).wf(),
    {
        let after = self.with_cell(cell);
        assert forall|o: Object| self.has(o) implies #[trigger] after.has(o) && after.state(o) == self.state(o)
            && after.base(o) == self.base(o) by {
            assert(after.cells[HeapView::address(o) as int] == self.cells[HeapView::address(o) as int]);
            let b = self.base(o);
            assert(after.cells[b.index as int] == self.cells[b.index as int]);
        }
        assert forall|o: Object| self.has(o) && #[trigger] self.has_chain(o) implies after.has_chain(o)
            && after.chain(o) == self.chain(o) by {
            let s = self.chain(o);
            assert forall|i: int| 0 <= i < s.len() implies after.proto(#[trigger] s[i]) == self.proto(s[i]) by {
                self.lemma_chain_in_heap(o, i);
            }
            self.lemma_same_chain(after, o, s);
        }
        if (match cell {
            CellView::Script(state) => {
                &&& crate::property_map::distinct_keys(state.values)
                &&& state.prototype matches Some(p) ==> self.has(p)
            },
            CellView::Shared(state) => self.has_script(state.base),
        }) {
            assert forall|i: int| 0 <= i < after.cells.len() implies match #[trigger] after.cells[i] {
                CellView::Script(st) => {
                    &&& crate::property_map::distinct_keys(st.values)
                    &&& st.prototype matches Some(p) ==> after.has(p)
                },
                CellView::Shared(st) => after.has_script(st.base),
            } by {
                if i < self.cells.len() {
                    assert(after.cells[i] == self.cells[i]);
                    match self.cells[i] {
                        CellView::Script(st) => {
                            if st.prototype is Some {
                                assert(self.has(st.prototype->0));
                            }
                        },
                        CellView::Shared(st) => {
                            assert(self.has(Object::ScriptObject(st.base)));
                        },
                    }
                } else {
                    match cell {
                        CellView::Script(st) => {
                            if st.prototype is Some {
                                assert(self.has(st.prototype->0));
                            }
                        },
                        CellView::Shared(st) => {
                            assert(self.has(Object::ScriptObject(st.base)));
                        },
                    }
                }
            }
        }
    }

    /// Replacing the state of a shared object by one over the same script
    /// object keeps the heap well formed.
    pub proof fn lemma_with_shared(self, s: SharedObject, state: SharedState)
        requires
            self.wf(),
            self.has_shared(s),
            state.base == self.shared(s).base,
        ensures
            self.with_shared(s, state).wf(),
            self.with_shared(s, state).keeps(self),
    {
        let after = self.with_shared(s, state);
        assert forall|o: Object| self.has(o) implies #[trigger] after.has(o) by {
            let a = HeapView::address(o);
            if a != s.index {
                assert(after.cells[a as int] == self.cells[a as int]);
            }
            let b = self.base(o);
            assert(after.cells[b.index as int] == self.cells[b.index as int]);
        }
        assert forall|i: int| 0 <= i < after.cells.len() implies match #[trigger] after.cells[i] {
            CellView::Script(st) => {
                &&& crate::property_map::distinct_keys(st.values)
                &&& st.prototype matches Some(p) ==> after.has(p)
            },
            CellView::Shared(st) => after.has_script(st.base),
        } by {
            if i != s.index {
                assert(after.cells[i] == self.cells[i]);
                match self.cells[i] {
                    CellView::Script(st) => {
                        if st.prototype is Some {
                            assert(self.has(st.prototype->0));
                        }
                    },
                    CellView::Shared(st) => {
                        assert(self.has(Object::ScriptObject(st.base)));
                    },
                }
            } else {
                assert(self.has(Object::ScriptObject(state.base)));
            }
        }
    }

    /// No object further up the chain of `o` is answered for by the script
    /// object that answers for `o`.
    pub proof fn lemma_not_on_own_chain(self, o: Object, i: int)
        requires
            self.has_chain(o),
            1 <= i < self.chain(o).len(),
        ensures
            self.base(self.chain(o)[i]) != self.base(o),
    {
        let s = self.chain(o);
        let x = s[i];
        self.lemma_chain_step(o);
        if self.base(x) == self.base(o) {
            assert(self.proto(x) == self.proto(o));
            assert(self.proto(s[0]) == Some(s[1]));
            if i == s.len() - 1 {
                assert(self.proto(s.last()) is None);
            } else {
                assert(self.proto(s[i]) == Some(s[i + 1]));
                let a = s.skip(1);
                let b = s.skip(i + 1);
                assert forall|k: int| 0 <= k < a.len() - 1 implies #[trigger] self.proto(a[k]) == Some(a[k + 1]) by {
                    assert(self.proto(s[k + 1]) == Some(s[k + 2]));
                }
                assert forall|k: int| 0 <= k < b.len() - 1 implies #[trigger] self.proto(b[k]) == Some(b[k + 1]) by {
                    assert(self.proto(s[k + i + 1]) == Some(s[k + i + 2]));
                }
                assert(a.last() == s.last());
                assert(b.last() == s.last());
                assert(self.is_chain(s[1], a));
                assert(self.is_chain(s[1], b));
                self.lemma_chain_unique(s[1], a, b);
            }
        }
    }

    /// Replacing the state that answers for an object by one with the same
    /// prototype keeps every handle good, every base, prototype and chain as
    /// it was, and every state but those that the replaced one answers for.
    pub proof fn lemma_change(self, o: Object, state: ObjectState)
        requires
            self.wf(),
            self.has(o),
            state.prototype == self.state(o).prototype,
        ensures
            forall|x: Object| self.has(x) ==> #[trigger] self.with_script(self.base(o), state).has(x),
            forall|x: Object|
                self.has(x) ==> #[trigger] self.with_script(self.base(o), state).base(x) == self.base(x),
            forall|x: Object|
                self.has(x) ==> #[trigger] self.with_script(self.base(o), state).state(x) == (if self.base(x)
                    == self.base(o) {
                    state
                } else {
                    self.state(x)
                }),
            forall|x: Object|
                self.has(x) && #[trigger] self.has_chain(x) ==> self.with_script(self.base(o), state).has_chain(x)
                    && self.with_script(self.base(o), state).chain(x) == self.chain(x),
            crate::property_map::distinct_keys(state.values) ==> self.with_script(self.base(o), state).wf(),
    {
        let b = self.base(o);
        let after = self.with_script(b, state);
        assert(self.has_script(b)) by {
            match o {
                Object::ScriptObject(s) => {},
                Object::SharedObject(s) => {},
            }
        }
        self.lemma_with_script(b, state);
        assert(self.cells[b.index as int] is Script);
        if state.prototype is Some {
            assert(self.has(state.prototype->0));
        }
        assert forall|x: Object| self.has(x) implies #[trigger] after.state(x) == (if self.base(x) == b {
            state
        } else {
            self.state(x)
        }) && after.proto(x) == self.proto(x) by {
            assert(after.base(x) == self.base(x));
            let bx = self.base(x);
            assert(self.has_script(bx)) by {
                match x {
                    Object::ScriptObject(s) => {},
                    Object::SharedObject(s) => {},
                }
            }
            if bx != b {
                assert(bx.index != b.index);
                assert(after.cells[bx.index as int] == self.cells[bx.index as int]);
            }
        }
        assert forall|x: Object| self.has(x) && #[trigger] self.has_chain(x) implies after.has_chain(x)
            && after.chain(x) == self.chain(x) by {
            let s = self.chain(x);
            assert forall|i: int| 0 <= i < s.len() implies after.proto(#[trigger] s[i]) == self.proto(s[i]) by {
                self.lemma_chain_in_heap(x, i);
            }
            self.lemma_same_chain(after, x, s);
        }
    }

    /// A chain of objects of a well-formed heap names no object twice, and so
    /// is no longer than the heap.
    pub proof fn lemma_chain_bounded(self, o: Object)
        requires
            self.wf(),
            self.has(o),
            self.has_chain(o),
        ensures
            self.chain(o).len() <= self.cells.len(),
    {
        let s = self.chain(o);
        self.lemma_chain_step(o);
        let places = Seq::new(s.len(), |i: int| HeapView::address(s[i]) as int);
        assert forall|i: int, j: int| 0 <= i < places.len() && 0 <= j < places.len() && i != j implies places[i]
            != places[j] by {
            self.lemma_chain_in_heap(o, i);
            self.lemma_chain_in_heap(o, j);
            if places[i] == places[j] {
                assert(s[i] == s[j]);
                let (a, b) = if i < j { (i, j) } else { (j, i) };
                let x = s.skip(a);
                let y = s.skip(b);
                assert forall|k: int| 0 <= k < x.len() - 1 implies #[trigger] self.proto(x[k]) == Some(x[k + 1]) by {
                    assert(self.proto(s[k + a]) == Some(s[k + a + 1]));
                }
                assert forall|k: int| 0 <= k < y.len() - 1 implies #[trigger] self.proto(y[k]) == Some(y[k + 1]) by {
                    assert(self.proto(s[k + b]) == Some(s[k + b + 1]));
                }
                assert(x.last() == s.last());
                assert(y.last() == s.last());
                assert(self.is_chain(s[a], x));
                assert(self.is_chain(s[a], y));
                self.lemma_chain_unique(s[a], x, y);
            }
        }
        places.unique_seq_to_set();
        vstd::set_lib::lemma_int_range(0, self.cells.len() as int);
        assert(places.to_set().subset_of(vstd::set_lib::set_int_range(0, self.cells.len() as int))) by {
            assert forall|v: int| places.to_set().contains(v) implies vstd::set_lib::set_int_range(
                0,
                self.cells.len() as int,
            ).contains(v) by {
                let i = choose|i: int| 0 <= i < places.len() && places[i] == v;
                self.lemma_chain_in_heap(o, i);
            }
        }
        vstd::set_lib::lemma_len_subset(
            places.to_set(),
            vstd::set_lib::set_int_range(0, self.cells.len() as int),
        );
    }

    /// A walk along the prototype links from `o` goes along the chain of `o`
    /// as far as both reach.
    pub proof fn lemma_prefix(self, o: Object, path: Seq<Object>, i: int)
        requires
            self.has_chain(o),
            path.len() > 0,
            path[0] == o,
            forall|k: int| 0 <= k < path.len() - 1 ==> #[trigger] self.proto(path[k]) == Some(path[k + 1]),
            0 <= i < path.len(),
            i < self.chain(o).len(),
        ensures
            self.chain(o)[i] == path[i],
        decreases i,
    {
        self.lemma_chain_step(o);
        let s = self.chain(o);
        if i > 0 {
            self.lemma_prefix(o, path, i - 1);
            assert(self.proto(s[i - 1]) == Some(s[i]));
            assert(self.proto(path[i - 1]) == Some(path[i]));
        }
    }
}

/// The heap of objects.
#[derive(Debug)]
pub struct Heap {
    cells: Vec<Cell>,
}

impl View for Heap {
    type V = HeapView;

    closed spec fn view(&self) -> HeapView {
        HeapView { cells: Seq::new(self.cells@.len(), |i: int| self.cells@[i]@) }
    }
}

impl Heap {
    /// The content of the heap is well formed.
    pub open spec fn wf(&self) -> bool {
        self@.wf()
    }

    /// A heap without objects.
    pub fn new() -> (r: Heap)
        ensures
            r.wf(),
            r@.cells.len() == 0,
    {
        Heap { cells: Vec::new() }
    }

    /// The number of cells.
    pub fn len(&self) -> (r: usize)
        ensures
            r == self@.cells.len(),
    {
        self.cells.len()
    }

    /// Whether a handle names a script object of this heap.
    pub fn contains_script(&self, s: ScriptObject) -> (r: bool)
        ensures
            r == self@.has_script(s),
    {
        if s.index < self.cells.len() {
            match &self.cells[s.index] {
                Cell::Script(_) => true,
                Cell::Shared(_) => false,
            }
        } else {
            false
        }
    }

    /// Whether a handle names a shared object of this heap.
    pub fn contains_shared(&self, s: SharedObject) -> (r: bool)
        ensures
            r == self@.has_shared(s),
    {
        if s.index < self.cells.len() {
            match &self.cells[s.index] {
                Cell::Script(_) => false,
                Cell::Shared(data) => self.contains_script(data.base()),
            }
        } else {
            false
        }
    }

    /// Whether a handle names an object of this heap.
    pub fn contains(&self, o: Object) -> (r: bool)
        ensures
            r == self@.has(o),
    {
        match o {
            Object::ScriptObject(s) => self.contains_script(s),
            Object::SharedObject(s) => self.contains_shared(s),
        }
    }

    /// The state of a script object.
    pub fn script(&self, s: ScriptObject) -> (r: &ScriptObjectData)
        requires
            self.wf(),
            self@.has_script(s),
        ensures
            r@ == self@.script(s),
            r.wf(),
    {
        match &self.cells[s.index] {
            Cell::Script(data) => data,
            Cell::Shared(_) => vstd::pervasive::unreached(),
        }
    }

    /// The state of a script object, to be changed where it stands. The heap
    /// stays well formed if the state does and its prototype is of the heap.
    pub(crate) fn script_mut(&mut self, s: ScriptObject) -> (r: &mut ScriptObjectData)
        requires
            old(self).wf(),
            old(self)@.has_script(s),
        ensures
            r@ == old(self)@.script(s),
            r.wf(),
            final(self)@ == old(self)@.with_script(s, final(r)@),
            final(self)@.keeps(old(self)@),
            final(r).wf() && (final(r)@.prototype matches Some(p) ==> old(self)@.has(p)) ==> final(self).wf(),
    {
        let ghost before = self@;
        proof {
            assert forall|state: ObjectState|
                crate::property_map::distinct_keys(state.values) && (state.prototype matches Some(p)
                    ==> before.has(p)) implies (#[trigger] before.with_script(s, state)).wf() by {
                before.lemma_with_script(s, state);
            }
            assert forall|state: ObjectState| (#[trigger] before.with_script(s, state)).keeps(before) by {
                before.lemma_with_script(s, state);
            }
        }
        let cell = &mut self.cells[s.index];
        match cell {
            Cell::Script(data) => {
                assert(after_borrow(self)@.cells =~= before.with_script(s, final(data)@).cells);
                data
            },
            Cell::Shared(_) => vstd::pervasive::unreached(),
        }
    }

    /// The state of a shared object.
    pub fn shared(&self, s: SharedObject) -> (r: &SharedObjectData)
        requires
            self@.has_shared(s),
        ensures
            r@ == self@.shared(s),
    {
        match &self.cells[s.index] {
            Cell::Shared(data) => data,
            Cell::Script(_) => vstd::pervasive::unreached(),
        }
    }

    /// Puts a script object into a new cell.
    pub(crate) fn alloc_script(&mut self, data: ScriptObjectData) -> (r: ScriptObject)
        requires
            old(self).wf(),
            data.wf(),
            data@.prototype matches Some(p) ==> old(self)@.has(p),
        ensures
            final(self).wf(),
            r.index == old(self)@.cells.len(),
            final(self)@ == old(self)@.with_cell(CellView::Script(data@)),
            final(self)@.keeps(old(self)@),
            final(self)@.has_script(r),
            !old(self)@.has_script(r),
    {
        let ghost before = self@;
        proof {
            before.lemma_with_cell(CellView::Script(data@));
        }
        let index = self.cells.len();
        self.cells.push(Cell::Script(data));
        assert(self@.cells =~= before.with_cell(CellView::Script(data@)).cells);
        ScriptObject { index }
    }

    /// Puts a shared object into a new cell.
    pub(crate) fn alloc_shared(&mut self, data: SharedObjectData) -> (r: SharedObject)
        requires
            old(self).wf(),
            old(self)@.has_script(data@.base),
        ensures
            final(self).wf(),
            r.index == old(self)@.cells.len(),
            final(self)@ == old(self)@.with_cell(CellView::Shared(data@)),
            final(self)@.keeps(old(self)@),
            final(self)@.has_shared(r),
            !old(self)@.has_shared(r),
    {
        let ghost before = self@;
        proof {
            before.lemma_with_cell(CellView::Shared(data@));
            assert(before.has(Object::ScriptObject(data@.base)));
        }
        let index = self.cells.len();
        self.cells.push(Cell::Shared(data));
        assert(self@.cells =~= before.with_cell(CellView::Shared(data@)).cells);
        SharedObject { index }
    }

    /// The script object that answers for an object.
    pub fn base_of(&self, o: Object) -> (r: ScriptObject)
        requires
            self.wf(),
            self@.has(o),
        ensures
            r == self@.base(o),
            self@.has_script(r),
    {
        match o {
            Object::ScriptObject(s) => s,
            Object::SharedObject(s) => self.shared(s).base(),
        }
    }

    /// The state that answers for an object.
    pub fn state_of(&self, o: Object) -> (r: &ScriptObjectData)
        requires
            self.wf(),
            self@.has(o),
        ensures
            r@ == self@.state(o),
            r.wf(),
    {
        self.script(self.base_of(o))
    }

    /// The prototype chain of an object.
    pub fn chain_of(&self, o: Object) -> (r: Vec<Object>)
        requires
            self.wf(),
            self@.has(o),
            self@.has_chain(o),
        ensures
            r@ == self@.chain(o),
    {
        let ghost s = self@.chain(o);
        let mut out: Vec<Object> = Vec::new();
        out.push(o);
        let mut cur = o;
        proof {
            self@.lemma_chain_step(o);
            self@.lemma_chain_in_heap(o, 0);
        }
        loop
            invariant
                self.wf(),
                self@.has(o),
                self@.has_chain(o),
                s == self@.chain(o),
                self@.is_chain(o, s),
                0 < out@.len() <= s.len(),
                out@ == s.take(out@.len() as int),
                cur == s[out@.len() - 1],
                self@.has(cur),
            ensures
                out@ == s,
            decreases s.len() - out@.len(),
        {
            let ghost k = out@.len() as int;
            match self.state_of(cur).proto() {
                None => {
                    proof {
                        if k < s.len() {
                            assert(self@.proto(s[k - 1]) == Some(s[k]));
                        }
                        assert(s.take(k) =~= s);
                    }
                    break ;
                },
                Some(p) => {
                    proof {
                        assert(k < s.len());
                        assert(self@.proto(s[k - 1]) == Some(s[k]));
                        self@.lemma_chain_in_heap(o, k);
                    }
                    out.push(p);
                    cur = p;
                    assert(out@ =~= s.take(k + 1));
                },
            }
        }
        out
    }

    /// Gives a shared object the name of its backing store.
    pub(crate) fn name_shared(&mut self, s: SharedObject, name: String)
        requires
            old(self).wf(),
            old(self)@.has_shared(s),
        ensures
            final(self).wf(),
            final(self)@ == old(self)@.with_shared(
                s,
                (SharedState { name: Some(name@), ..old(self)@.shared(s) }),
            ),
            final(self)@.keeps(old(self)@),
    {
        let ghost before = self@;
        let ghost state = SharedState { name: Some(name@), ..before.shared(s) };
        proof {
            before.lemma_with_shared(s, state);
        }
        match &mut self.cells[s.index] {
            Cell::Shared(data) => {
                data.set_name(name);
            },
            Cell::Script(_) => {},
        }
        assert(self@.cells =~= before.with_shared(s, state).cells);
    }

    /// Whether the prototype links from an object come to an end.
    pub fn chain_ends(&self, o: Object) -> (r: bool)
        requires
            self.wf(),
            self@.has(o),
        ensures
            r == self@.has_chain(o),
    {
        let limit = self.cells.len();
        let mut cur = o;
        let mut steps: usize = 0;
        let ghost mut path: Seq<Object> = seq![o];
        loop
            invariant
                self.wf(),
                self@.has(o),
                limit == self@.cells.len(),
                steps <= limit,
                path.len() == steps + 1,
                path[0] == o,
                path.last() == cur,
                self@.has(cur),
                forall|i: int| 0 <= i < path.len() - 1 ==> #[trigger] self@.proto(path[i]) == Some(path[i + 1]),
            decreases limit - steps,
        {
            match self.state_of(cur).proto() {
                None => {
                    assert(self@.is_chain(o, path));
                    return true;
                },
                Some(p) => {
                    if steps == limit {
                        proof {
                            if self@.has_chain(o) {
                                let s = self@.chain(o);
                                self@.lemma_chain_step(o);
                                self@.lemma_chain_bounded(o);
                                assert forall|i: int| 0 <= i < s.len() implies s[i] == path[i] by {
                                    self@.lemma_prefix(o, path, i);
                                }
                                let k = s.len() - 1;
                                assert(self@.proto(s.last()) is None);
                                if k < path.len() - 1 {
                                    assert(self@.proto(path[k]) == Some(path[k + 1]));
                                }
                            }
                        }
                        return false;
                    }
                    proof {
                        let b = self@.base(cur);
                        assert(self@.cells[b.index as int] is Script);
                        let before = path;
                        path = path.push(p);
                        assert forall|i: int| 0 <= i < path.len() - 1 implies #[trigger] self@.proto(path[i]) == Some(
                            path[i + 1],
                        ) by {
                            if i < before.len() - 1 {
                                assert(self@.proto(before[i]) == Some(before[i + 1]));
                            }
                        }
                    }
                    steps += 1;
                    cur = p;
                },
            }
        }
    }
}

} // verus!
