//! Functions of the standard library that several modules call.

use vstd::prelude::*;
use std::sync::Arc;

verus! {

/// `Arc::clone` makes another pointer to the same value.
#[verifier::external_body]
pub(crate) fn arc_clone<T>(value: &Arc<T>) -> (copy: Arc<T>)
    ensures
        copy == *value,
{
    Arc::clone(value)
}

/// `Arc::ptr_eq` tells whether two pointers point to the same value. Two
/// pointers to equal values may still be told apart.
#[verifier::external_body]
pub(crate) fn arc_ptr_eq<T>(a: &Arc<T>, b: &Arc<T>) -> (same: bool)
    ensures
        same ==> *a == *b,
{
    Arc::ptr_eq(a, b)
}

} // verus!
