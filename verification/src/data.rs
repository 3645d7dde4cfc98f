//! Payload cells and the requirements on payload types.

use vstd::prelude::*;

verus! {

/// A type that can be stored as a node's payload.
///
/// Every node owns one payload value; when a node is created without an
/// explicit payload (for instance while intermediate directories are created
/// on demand during path resolution), the payload is the type's default
/// value.  `spec_default` names that value so contracts can speak of it.
pub trait ValueType: Sized {
    /// The default payload value, at the specification level.
    spec fn spec_default() -> Self;

    /// Produces the default payload value.
    fn default_value() -> (r: Self)
        ensures
            r == Self::spec_default(),
    ;
}

impl ValueType for () {
    open spec fn spec_default() -> Self {
        ()
    }

    fn default_value() -> (r: Self) {
        ()
    }
}

impl ValueType for bool {
    open spec fn spec_default() -> Self {
        false
    }

    fn default_value() -> (r: Self) {
        false
    }
}

impl ValueType for u8 {
    open spec fn spec_default() -> Self {
        0u8
    }

    fn default_value() -> (r: Self) {
        0
    }
}

impl ValueType for u32 {
    open spec fn spec_default() -> Self {
        0u32
    }

    fn default_value() -> (r: Self) {
        0
    }
}

impl ValueType for u64 {
    open spec fn spec_default() -> Self {
        0u64
    }

    fn default_value() -> (r: Self) {
        0
    }
}

impl ValueType for usize {
    open spec fn spec_default() -> Self {
        0usize
    }

    fn default_value() -> (r: Self) {
        0
    }
}

impl ValueType for i32 {
    open spec fn spec_default() -> Self {
        0i32
    }

    fn default_value() -> (r: Self) {
        0
    }
}

impl ValueType for i64 {
    open spec fn spec_default() -> Self {
        0i64
    }

    fn default_value() -> (r: Self) {
        0
    }
}

/// A container for one payload instance, owned by a node of the tree.
///
/// Its view is the payload value it currently holds.
#[derive(Debug)]
pub struct Value<V> {
    value: V,
}

impl<V> View for Value<V> {
    type V = V;

    closed spec fn view(&self) -> V {
        self.value
    }
}

impl<V> Value<V> {
    /// Wraps the given payload.
    pub fn new(value: V) -> (r: Self)
        ensures
            r@ == value,
    {
        Value { value }
    }

    /// Unwraps the cell, yielding its payload.
    pub fn into_inner(self) -> (r: V)
        ensures
            r == self@,
    {
        self.value
    }

    /// Reads the payload.
    pub fn read(&self) -> (r: &V)
        ensures
            *r == self@,
    {
        &self.value
    }

    /// Replaces the payload, returning the previous value.
    pub fn write(&mut self, value: V) -> (r: V)
        ensures
            final(self)@ == value,
            r == old(self)@,
    {
        let mut taken = value;
        core::mem::swap(&mut self.value, &mut taken);
        taken
    }
}

impl<V: ValueType> Value<V> {
    /// Wraps the given payload, or the default payload if none is given.
    pub fn from_option(data: Option<V>) -> (r: Self)
        ensures
            r@ == (match data {
                Option::Some(v) => v,
                Option::None => V::spec_default(),
            }),
    {
        match data {
            Option::Some(v) => Value { value: v },
            Option::None => Value { value: V::default_value() },
        }
    }
}

} // verus!
