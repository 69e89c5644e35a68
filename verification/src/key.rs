//! Routing keys.
//!
//! An envelope is routed by the pair of its source id and the tag of its
//! payload's concrete type. The tag is `std::any::TypeId`, which is opaque:
//! all the library ever does with one is to compare it with another.

use std::any::TypeId;
use vstd::prelude::*;
use vstd::std_specs::cmp::PartialEqSpec;

verus! {

/// `std::any::TypeId`, carried through as an opaque value.
#[verifier::external_type_specification]
#[verifier::external_body]
pub struct ExTypeId(TypeId);

/// The composite key under which a handler is registered and an envelope is
/// routed: who emitted, and what type of event.
pub type Key<Id> = (Id, TypeId);

/// Calls `std::any::TypeId::of::<E>()`, as `tag_of` does. Nothing calls it:
/// it is there for `tag_for` to speak of what the call answers.
#[verifier::external_body]
fn type_id_of<E: 'static>() -> TypeId {
    TypeId::of::<E>()
}

/// The tag of the type `E`: what `TypeId::of::<E>()` answers.
pub closed spec fn tag_for<E: 'static>() -> TypeId {
    choose|tag: TypeId| call_ensures(type_id_of::<E>, (), tag)
}

/// Calls `std::any::TypeId::of::<E>()`.
///
/// Claims that the call answers the same for the same type every time, which
/// is what makes a `TypeId` an identifier of the type.
#[verifier::external_body]
pub(crate) fn tag_of<E: 'static>() -> (tag: TypeId)
    ensures
        tag == tag_for::<E>(),
{
    TypeId::of::<E>()
}

/// `TypeId`'s `Clone::clone`. A tag is `Copy`: its clone is the tag itself.
pub assume_specification[ <TypeId as Clone>::clone ](tag: &TypeId) -> (copy: TypeId)
    ensures
        copy == *tag,
;

/// Calls `TypeId`'s `PartialEq::eq`.
///
/// Claims that two tags compare equal exactly when they are the same tag:
/// a `TypeId` is plain data, and std's `==` on it compares that data.
#[verifier::external_body]
pub(crate) fn same_tag(a: &TypeId, b: &TypeId) -> (same: bool)
    ensures
        same == (*a == *b),
{
    a.eq(b)
}

/// What the library needs of a source-id type: `==` says whether two ids are
/// the same value, and `clone` hands back the same value. The integer types
/// meet both.
pub open spec fn plain_id<Id: Clone + PartialEq>() -> bool {
    &&& Id::obeys_eq_spec()
    &&& forall|a: Id, b: Id| #[trigger] a.eq_spec(&b) <==> a == b
    &&& forall|a: Id, b: Id| #[trigger] cloned::<Id>(a, b) ==> a == b
}

} // verus!
