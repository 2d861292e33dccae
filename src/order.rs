//! Comparators: rules that decide when one element has strictly higher
//! priority than another.
use vstd::prelude::*;
use vstd::std_specs::cmp::PartialOrdSpec;

verus! {

/// A priority rule over elements of type `T`.
pub trait Comparator<T> {
    /// `a` has strictly higher priority than `b`.
    spec fn outranks(&self, a: T, b: T) -> bool;

    /// `compare` answers by `outranks`.
    spec fn consistent(&self) -> bool;

    /// Whether `a` has strictly higher priority than `b`.
    fn compare(&self, a: &T, b: &T) -> (r: bool)
        requires
            self.consistent(),
        ensures
            r == self.outranks(*a, *b),
    ;
}

/// The comparator can drive a heap: `compare` follows `outranks`, and
/// `outranks` is a strict weak order (asymmetric, transitive, and with
/// "does not outrank" transitive too).
pub open spec fn lawful<T, C: Comparator<T>>(c: C) -> bool {
    &&& c.consistent()
    &&& forall|a: T, b: T| #[trigger] c.outranks(a, b) ==> !c.outranks(b, a)
    &&& forall|a: T, b: T, x: T|
        #[trigger] c.outranks(a, b) && #[trigger] c.outranks(b, x) ==> c.outranks(a, x)
    &&& forall|a: T, b: T, x: T|
        !#[trigger] c.outranks(a, b) && !#[trigger] c.outranks(b, x) ==> !c.outranks(a, x)
}

/// Smaller elements first: `a` outranks `b` when `a < b`.
pub struct MinOrder;

/// Larger elements first: `a` outranks `b` when `a > b`.
pub struct MaxOrder;

impl<T: Ord> Comparator<T> for MinOrder {
    open spec fn outranks(&self, a: T, b: T) -> bool {
        a.partial_cmp_spec(&b) == Some(core::cmp::Ordering::Less)
    }

    open spec fn consistent(&self) -> bool {
        T::obeys_partial_cmp_spec()
    }

    fn compare(&self, a: &T, b: &T) -> (r: bool) {
        *a < *b
    }
}

impl<T: Ord> Comparator<T> for MaxOrder {
    open spec fn outranks(&self, a: T, b: T) -> bool {
        a.partial_cmp_spec(&b) == Some(core::cmp::Ordering::Greater)
    }

    open spec fn consistent(&self) -> bool {
        T::obeys_partial_cmp_spec()
    }

    fn compare(&self, a: &T, b: &T) -> (r: bool) {
        *a > *b
    }
}

} // verus!
