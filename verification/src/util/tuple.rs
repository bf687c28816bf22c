//! Regrouping helpers for pairs.

use vstd::prelude::*;

verus! {

/// Regroups a pair of pairs so that the first components travel together
/// and the second components travel together.
pub fn transpose<T0, T1, S0, S1>(pairs: ((T0, S0), (T1, S1))) -> (out: ((T0, T1), (S0, S1)))
    ensures
        out == ((pairs.0.0, pairs.1.0), (pairs.0.1, pairs.1.1)),
{
    let ((t0, s0), (t1, s1)) = pairs;
    ((t0, t1), (s0, s1))
}

/// The pair with its components exchanged.
pub open spec fn flipped<T0, T1>(pair: (T0, T1)) -> (T1, T0) {
    (pair.1, pair.0)
}

/// Exchanges the components of every pair; the order of the pairs stays.
pub fn flip_tuple_vec<T0, T1>(vec: Vec<(T0, T1)>) -> (out: Vec<(T1, T0)>)
    ensures
        out@ == vec@.map_values(|pair: (T0, T1)| flipped(pair)),
{
    let ghost whole = vec@;
    let mut rest = vec;
    let mut backwards: Vec<(T1, T0)> = Vec::new();
    while rest.len() > 0
        invariant
            rest@.len() + backwards@.len() == whole.len(),
            rest@ == whole.take(rest@.len() as int),
            forall|k: int|
                0 <= k < backwards@.len() ==> #[trigger] backwards@[k] == flipped(
                    whole[whole.len() - 1 - k],
                ),
        decreases rest@.len(),
    {
        match rest.pop() {
            Some(pair) => {
                let (t0, t1) = pair;
                backwards.push((t1, t0));
            },
            None => {},
        }
    }
    let ghost turned = backwards@;
    let mut out: Vec<(T1, T0)> = Vec::new();
    while backwards.len() > 0
        invariant
            turned.len() == whole.len(),
            backwards@.len() + out@.len() == whole.len(),
            backwards@ == turned.take(backwards@.len() as int),
            forall|k: int|
                0 <= k < turned.len() ==> #[trigger] turned[k] == flipped(
                    whole[whole.len() - 1 - k],
                ),
            forall|k: int| 0 <= k < out@.len() ==> #[trigger] out@[k] == flipped(whole[k]),
        decreases backwards@.len(),
    {
        match backwards.pop() {
            Some(pair) => {
                out.push(pair);
            },
            None => {},
        }
    }
    assert(out@ =~= whole.map_values(|pair: (T0, T1)| flipped(pair)));
    out
}

} // verus!
