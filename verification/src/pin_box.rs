//! An owning, read-only wrapper around one heap-allocated value.
//!
//! The cache stores each value behind a `PinBox` so that the table may be
//! reorganised freely: an entry's value is set once, at construction of the
//! box, and no operation of the box can replace or mutate it afterwards.
//! Every read of the box observes the value it was built from.

use vstd::prelude::*;

verus! {

/// Owns exactly one heap-allocated value and exposes only read access to it.
///
/// There is no mutation API: the value a `PinBox` yields is the value it was
/// constructed from, for the whole lifetime of the box.
#[derive(Debug)]
pub(crate) struct PinBox<V> {
    value: Box<V>,
}

impl<V> PinBox<V> {
    /// The value this box holds.
    pub(crate) closed spec fn spec_value(&self) -> V {
        *self.value
    }

    /// Wraps an already heap-allocated value.
    pub(crate) fn new(x: Box<V>) -> (r: Self)
        ensures
            r.spec_value() == *x,
    {
        PinBox { value: x }
    }

    /// Read access to the held value.
    pub(crate) fn as_ref(&self) -> (r: &V)
        ensures
            *r == self.spec_value(),
    {
        &*self.value
    }
}

} // verus!
