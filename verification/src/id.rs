//! Identifiers and typed handles.
//!
//! An [`Id`] is the positive integer naming a record within one
//! document. A [`TypedId`] adds a phantom record-kind marker: a handle
//! to a record of a statically known kind. An [`IdOr`] is either such a
//! handle or an owned, not-yet-stored value awaiting materialization
//! into the store.

use core::marker::PhantomData;
use vstd::prelude::*;

verus! {

/// The integer naming one record in a document. Valid identifiers are
/// strictly positive; the store and the document driver maintain that.
#[derive(Clone, Copy, PartialEq, Eq, Structural, Debug)]
pub struct Id(pub u64);

impl View for Id {
    type V = u64;

    open spec fn view(&self) -> u64 {
        self.0
    }
}

impl Id {
    /// Identifiers read from text or handed out by the allocator are
    /// strictly positive.
    pub open spec fn wf(self) -> bool {
        self.0 >= 1
    }
}

/// A reference to a record of the kind `T`: the identifier plus a
/// phantom marker. It never owns the record; the store does.
#[derive(PartialEq, Eq, Debug)]
pub struct TypedId<T> {
    pub id: Id,
    pub kind: PhantomData<T>,
}

impl<T> Clone for TypedId<T> {
    fn clone(&self) -> (r: Self)
        ensures
            r == *self,
    {
        TypedId { id: self.id, kind: PhantomData }
    }
}

impl<T> Copy for TypedId<T> {

}

impl<T> View for TypedId<T> {
    type V = u64;

    open spec fn view(&self) -> u64 {
        self.id.0
    }
}

impl<T> TypedId<T> {
    /// Wraps a raw identifier without checking that the store holds a
    /// record of the kind: for use where the target is known to be
    /// inserted shortly after, as with mutually referencing records.
    pub fn new(id: Id) -> (r: Self)
        ensures
            r@ == id@,
    {
        TypedId { id, kind: PhantomData }
    }

    /// The raw identifier this handle points at.
    pub fn id(&self) -> (r: Id)
        ensures
            r@ == self@,
    {
        self.id
    }
}

/// The view of an [`IdOr`]: either the identifier of an already stored
/// record, or the view of an owned value not yet in the store.
pub enum IdOrV<V> {
    Id(u64),
    Val(V),
}

/// Either a typed reference to a stored record, or an owned value that
/// materializes into the store on first use.
#[derive(Clone, PartialEq, Eq, Debug)]
pub enum IdOr<T> {
    Id(TypedId<T>),
    Custom(T),
}

impl<T: View> View for IdOr<T> {
    type V = IdOrV<T::V>;

    open spec fn view(&self) -> IdOrV<T::V> {
        match self {
            IdOr::Id(t) => IdOrV::Id(t@),
            IdOr::Custom(v) => IdOrV::Val(v@),
        }
    }
}

impl<T> IdOr<T> {
    /// Wraps an existing typed reference.
    pub fn from_id(t: TypedId<T>) -> (r: Self) where T: View
        ensures
            r@ == IdOrV::<T::V>::Id(t@),
    {
        IdOr::Id(t)
    }

    /// Wraps an owned value, to be inserted when first materialized.
    pub fn from_value(v: T) -> (r: Self) where T: View
        ensures
            r@ == IdOrV::<T::V>::Val(v@),
    {
        IdOr::Custom(v)
    }
}

/// Whether a reference-or-value already wraps a typed reference.
pub open spec fn is_ref<T>(a: IdOr<T>) -> bool {
    a is Id
}

/// Whether an optional reference-or-value holds no owned value.
pub open spec fn opt_is_ref<T>(a: Option<IdOr<T>>) -> bool {
    match a {
        None => true,
        Some(x) => is_ref(x),
    }
}

/// The identifier a reference-or-value resolves to when materialized
/// while the allocator's next value is `next`: the wrapped reference's
/// identifier, or the freshly allocated one.
pub open spec fn materialized_id<T>(a: IdOr<T>, next: int) -> int {
    match a {
        IdOr::Id(t) => t@ as int,
        IdOr::Custom(_) => next,
    }
}

/// The allocator's next value after materializing one
/// reference-or-value: unchanged for a reference, advanced by one for
/// an owned value.
pub open spec fn next_after<T>(a: IdOr<T>, next: int) -> int {
    match a {
        IdOr::Id(_) => next,
        IdOr::Custom(_) => next + 1,
    }
}

/// The allocator's next value after materializing an optional
/// reference-or-value.
pub open spec fn opt_next_after<T>(a: Option<IdOr<T>>, next: int) -> int {
    match a {
        None => next,
        Some(x) => next_after(x, next),
    }
}

} // verus!
