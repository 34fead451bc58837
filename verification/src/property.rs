//! Properties: a stored value or an accessor pair, each under a set of
//! attributes that govern enumeration, deletion and writing.

use vstd::prelude::*;
use crate::value::{Executable, Value, ValueView};

verus! {

/// A flag on a property.
#[derive(Clone, Copy, Debug, PartialEq, Eq, Structural)]
pub enum Attribute {
    DontEnum,
    DontDelete,
    ReadOnly,
}

/// A set of attributes, one flag for each.
#[derive(Clone, Copy, Debug, PartialEq, Eq, Structural)]
pub struct AttributeSet {
    pub dont_enum: bool,
    pub dont_delete: bool,
    pub read_only: bool,
}

impl AttributeSet {
    /// Membership.
    pub open spec fn has(self, attribute: Attribute) -> bool {
        match attribute {
            Attribute::DontEnum => self.dont_enum,
            Attribute::DontDelete => self.dont_delete,
            Attribute::ReadOnly => self.read_only,
        }
    }

    /// The attributes as a mathematical set.
    pub open spec fn members(self) -> Set<Attribute> {
        Set::new(|a: Attribute| self.has(a))
    }

    /// The set without any attribute.
    pub open spec fn spec_empty() -> AttributeSet {
        AttributeSet { dont_enum: false, dont_delete: false, read_only: false }
    }

    /// The set of one attribute.
    pub open spec fn spec_only(attribute: Attribute) -> AttributeSet {
        AttributeSet {
            dont_enum: attribute == Attribute::DontEnum,
            dont_delete: attribute == Attribute::DontDelete,
            read_only: attribute == Attribute::ReadOnly,
        }
    }

    /// The attributes of either set.
    pub open spec fn spec_union(self, other: AttributeSet) -> AttributeSet {
        AttributeSet {
            dont_enum: self.dont_enum || other.dont_enum,
            dont_delete: self.dont_delete || other.dont_delete,
            read_only: self.read_only || other.read_only,
        }
    }

    /// The attributes of this set that the other lacks.
    pub open spec fn spec_difference(self, other: AttributeSet) -> AttributeSet {
        AttributeSet {
            dont_enum: self.dont_enum && !other.dont_enum,
            dont_delete: self.dont_delete && !other.dont_delete,
            read_only: self.read_only && !other.read_only,
        }
    }

    /// What a property's attributes become when `clear` is taken away and
    /// `set` is then added.
    pub open spec fn spec_apply(self, set: AttributeSet, clear: AttributeSet) -> AttributeSet {
        self.spec_difference(clear).spec_union(set)
    }

    /// The set without any attribute.
    pub fn empty() -> (r: AttributeSet)
        ensures
            r == AttributeSet::spec_empty(),
            r.members() == Set::<Attribute>::empty(),
    {
        let r = AttributeSet { dont_enum: false, dont_delete: false, read_only: false };
        assert(r.members() =~= Set::<Attribute>::empty());
        r
    }

    /// The set of one attribute.
    pub fn only(attribute: Attribute) -> (r: AttributeSet)
        ensures
            r == AttributeSet::spec_only(attribute),
            r.members() == set![attribute],
    {
        assert(AttributeSet::spec_only(attribute).members() =~= set![attribute]);
        match attribute {
            Attribute::DontEnum => AttributeSet {
                dont_enum: true,
                dont_delete: false,
                read_only: false,
            },
            Attribute::DontDelete => AttributeSet {
                dont_enum: false,
                dont_delete: true,
                read_only: false,
            },
            Attribute::ReadOnly => AttributeSet {
                dont_enum: false,
                dont_delete: false,
                read_only: true,
            },
        }
    }

    /// Membership.
    pub fn contains(&self, attribute: Attribute) -> (r: bool)
        ensures
            r == self.has(attribute),
            r == self.members().contains(attribute),
    {
        match attribute {
            Attribute::DontEnum => self.dont_enum,
            Attribute::DontDelete => self.dont_delete,
            Attribute::ReadOnly => self.read_only,
        }
    }

    /// The attributes of either set.
    pub fn union(self, other: AttributeSet) -> (r: AttributeSet)
        ensures
            r == self.spec_union(other),
            r.members() == self.members().union(other.members()),
    {
        assert(self.spec_union(other).members() =~= self.members().union(other.members()));
        AttributeSet {
            dont_enum: self.dont_enum || other.dont_enum,
            dont_delete: self.dont_delete || other.dont_delete,
            read_only: self.read_only || other.read_only,
        }
    }

    /// The attributes of this set that the other lacks.
    pub fn difference(self, other: AttributeSet) -> (r: AttributeSet)
        ensures
            r == self.spec_difference(other),
            r.members() == self.members().difference(other.members()),
    {
        assert(self.spec_difference(other).members() =~= self.members().difference(other.members()));
        AttributeSet {
            dont_enum: self.dont_enum && !other.dont_enum,
            dont_delete: self.dont_delete && !other.dont_delete,
            read_only: self.read_only && !other.read_only,
        }
    }
}

/// A named slot of an object.
#[derive(Debug, PartialEq, Eq)]
pub enum Property {
    Virtual { get: Executable, set: Option<Executable>, attributes: AttributeSet },
    Stored { value: Value, attributes: AttributeSet },
}

/// The mathematical content of a [`Property`].
pub enum PropertyView {
    Virtual { get: Executable, set: Option<Executable>, attributes: AttributeSet },
    Stored { value: ValueView, attributes: AttributeSet },
}

impl PropertyView {
    /// The attributes of the property.
    pub open spec fn attributes(self) -> AttributeSet {
        match self {
            PropertyView::Virtual { attributes, .. } => attributes,
            PropertyView::Stored { attributes, .. } => attributes,
        }
    }

    /// The property under other attributes.
    pub open spec fn with_attributes(self, new_attributes: AttributeSet) -> PropertyView {
        match self {
            PropertyView::Virtual { get, set, .. } => PropertyView::Virtual {
                get,
                set,
                attributes: new_attributes,
            },
            PropertyView::Stored { value, .. } => PropertyView::Stored {
                value,
                attributes: new_attributes,
            },
        }
    }

    /// Enumeration lists the property.
    pub open spec fn is_enumerable(self) -> bool {
        !self.attributes().has(Attribute::DontEnum)
    }

    /// The property may be removed.
    pub open spec fn can_delete(self) -> bool {
        !self.attributes().has(Attribute::DontDelete)
    }

    /// The property is an accessor.
    pub open spec fn is_virtual(self) -> bool {
        self is Virtual
    }

    /// The property after a write of `value`: a stored property that is not
    /// read-only takes the value, every other property stays as it is.
    pub open spec fn written(self, value: ValueView) -> PropertyView {
        match self {
            PropertyView::Stored { attributes, .. } => if attributes.has(Attribute::ReadOnly) {
                self
            } else {
                PropertyView::Stored { value, attributes }
            },
            PropertyView::Virtual { .. } => self,
        }
    }

    /// The setter that a write to this property must run, if any.
    pub open spec fn setter(self) -> Option<Executable> {
        match self {
            PropertyView::Virtual { set, .. } => set,
            PropertyView::Stored { .. } => None,
        }
    }
}

impl View for Property {
    type V = PropertyView;

    open spec fn view(&self) -> PropertyView {
        match self {
            Property::Virtual { get, set, attributes } => PropertyView::Virtual {
                get: *get,
                set: *set,
                attributes: *attributes,
            },
            Property::Stored { value, attributes } => PropertyView::Stored {
                value: value@,
                attributes: *attributes,
            },
        }
    }
}

impl Clone for Property {
    fn clone(&self) -> (r: Self)
        ensures
            r@ == self@,
    {
        match self {
            Property::Virtual { get, set, attributes } => Property::Virtual {
                get: *get,
                set: *set,
                attributes: *attributes,
            },
            Property::Stored { value, attributes } => Property::Stored {
                value: value.clone(),
                attributes: *attributes,
            },
        }
    }
}

impl Property {
    /// The attributes of the property.
    pub fn attributes(&self) -> (r: AttributeSet)
        ensures
            r == self@.attributes(),
    {
        match self {
            Property::Virtual { attributes, .. } => *attributes,
            Property::Stored { attributes, .. } => *attributes,
        }
    }

    /// Puts the property under other attributes.
    pub fn set_attributes(&mut self, new_attributes: AttributeSet)
        ensures
            final(self)@ == old(self)@.with_attributes(new_attributes),
    {
        match self {
            Property::Virtual { attributes, .. } => {
                *attributes = new_attributes;
            },
            Property::Stored { attributes, .. } => {
                *attributes = new_attributes;
            },
        }
    }

    /// Whether enumeration lists the property.
    pub fn is_enumerable(&self) -> (r: bool)
        ensures
            r == self@.is_enumerable(),
    {
        !self.attributes().contains(Attribute::DontEnum)
    }

    /// Whether the property may be removed.
    pub fn can_delete(&self) -> (r: bool)
        ensures
            r == self@.can_delete(),
    {
        !self.attributes().contains(Attribute::DontDelete)
    }

    /// Whether the property is an accessor.
    pub fn is_virtual(&self) -> (r: bool)
        ensures
            r == self@.is_virtual(),
    {
        match self {
            Property::Virtual { .. } => true,
            Property::Stored { .. } => false,
        }
    }

    /// Writes to the property. A stored property takes the value unless it is
    /// read-only; an accessor is left alone and its setter, if it has one, is
    /// returned for the caller to run.
    pub fn set(&mut self, new_value: Value) -> (r: Option<Executable>)
        ensures
            final(self)@ == old(self)@.written(new_value@),
            r == old(self)@.setter(),
    {
        match self {
            Property::Virtual { set, .. } => *set,
            Property::Stored { value, attributes } => {
                if !attributes.contains(Attribute::ReadOnly) {
                    *value = new_value;
                }
                None
            },
        }
    }
}

} // verus!
