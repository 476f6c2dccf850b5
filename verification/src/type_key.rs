use std::any::TypeId;
use vstd::prelude::*;

verus! {

/// `std::any::TypeId` serves as the type key. To the verifier it is an opaque
/// value: two keys are either the same key or different keys, nothing more.
#[verifier::external_type_specification]
#[verifier::external_body]
pub struct ExTypeId(TypeId);

/// Compares two type keys with `TypeId`'s own `==`.
///
/// Trusted: the comparison is taken to hold exactly when both arguments are
/// the same key, which is what `TypeId` documents (one identifier per type).
#[verifier::external_body]
pub(crate) fn same_key(a: TypeId, b: TypeId) -> (r: bool)
    ensures
        r == (a == b),
{
    a == b
}

} // verus!
