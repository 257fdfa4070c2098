//! Sharing of immutable tree nodes through `Arc`.
use std::sync::Arc;
use vstd::prelude::*;

verus! {

/// `Arc::clone`: a new handle to the same allocation, hence the same value.
#[verifier::external_body]
pub fn share<T>(a: &Arc<T>) -> (r: Arc<T>)
    ensures
        r == *a,
{
    Arc::clone(a)
}

/// `Arc::as_ptr` as a number: the address of the shared node. Nothing is
/// promised of it: it depends on the allocator and the run, so a table
/// keyed by it checks every hit with `same_node`.
#[verifier::external_body]
pub fn node_address<T>(a: &Arc<T>) -> (r: usize) {
    Arc::as_ptr(a) as usize
}

/// `Arc::ptr_eq`: whether two handles point to the same allocation; when
/// they do, they hold the same value.
#[verifier::external_body]
pub fn same_node<T>(a: &Arc<T>, b: &Arc<T>) -> (r: bool)
    ensures
        r ==> *a == *b,
{
    Arc::ptr_eq(a, b)
}

} // verus!
