//! Helpers for vectors that are taken apart element by element.

use vstd::prelude::*;

verus! {

/// The elements of `vec` in the opposite order, so that popping hands them
/// out first to last.
pub fn reversed<T>(vec: Vec<T>) -> (out: Vec<T>)
    ensures
        out@ == vec@.reverse(),
{
    let ghost whole = vec@;
    let mut rest = vec;
    let mut out: Vec<T> = Vec::new();
    while rest.len() > 0
        invariant
            rest@.len() + out@.len() == whole.len(),
            rest@ == whole.take(rest@.len() as int),
            forall|k: int| 0 <= k < out@.len() ==> #[trigger] out@[k] == whole[whole.len() - 1 - k],
        decreases rest@.len(),
    {
        match rest.pop() {
            Some(item) => {
                out.push(item);
            },
            None => {},
        }
    }
    assert(out@ =~= whole.reverse());
    out
}

} // verus!
