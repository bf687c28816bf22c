//! What the library relies on about slices of the standard library.

use vstd::prelude::*;

verus! {

/// `core::slice::from_ref` views one value as a slice of length one that
/// holds that value.
pub assume_specification<T>[ core::slice::from_ref ](s: &T) -> (r: &[T])
    ensures
        r@ == seq![*s],
;

} // verus!
