//! Work that is handed out to the thread pool of the `rayon` crate, item by
//! item. The contract is taken from the crate's documentation, not proved.

use rayon::iter::IntoParallelIterator;
use rayon::iter::ParallelIterator;
use vstd::prelude::*;

verus! {

/// `rayon`'s parallel iterator over `0..n`, mapped through `f` and collected
/// into a vector: the results of `f` on `0, 1, .., n - 1`, in that order.
#[verifier::external_body]
pub(crate) fn par_tabulate<U: Send, F: Fn(usize) -> U + Sync + Send>(n: usize, f: F) -> (r: Vec<U>)
    requires
        forall|i: usize| i < n ==> call_requires(f, (i,)),
    ensures
        r@.len() == n,
        forall|i: usize| i < n ==> call_ensures(f, (i,), #[trigger] r@[i as int]),
{
    (0..n).into_par_iter().map(f).collect()
}

} // verus!
