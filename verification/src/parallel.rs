use vstd::prelude::*;
use rayon::iter::IntoParallelIterator;
use rayon::iter::ParallelIterator;

verus! {

/// Applies `f` to every index below `n` on rayon's worker threads and gathers the
/// results in index order.
///
/// Trusted: the body is rayon's `into_par_iter` on the range `0..n`, followed by
/// `ParallelIterator::map` and `ParallelIterator::collect` into a `Vec`. The contract
/// claims what rayon documents of that chain: `map` applies `f` to each item, and a
/// range collected into a vector keeps the order of the range, so the result has `n`
/// entries and entry `i` is a value that `f` returned for `i`. Which thread ran which
/// index is left open.
#[verifier::external_body]
pub(crate) fn par_map_index<R, F>(n: usize, f: F) -> (out: Vec<R>) where
    F: Fn(usize) -> R + Sync + Send,
    R: Send,

    requires
        forall|i: usize| i < n ==> call_requires(f, (i,)),
    ensures
        out@.len() == n,
        forall|i: int| 0 <= i < n ==> call_ensures(f, (i as usize,), #[trigger] out@[i]),
{
    (0..n).into_par_iter().map(f).collect()
}

} // verus!
