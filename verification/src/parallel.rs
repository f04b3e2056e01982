//! Work handed out to the threads of a pool.

use rayon::iter::{IndexedParallelIterator, IntoParallelIterator, ParallelIterator};
use vstd::prelude::*;

verus! {

/// `rayon`'s parallel iterator over `0..count`, mapped through `job` and gathered with
/// `collect_into_vec`: `job` is called once for every index below `count`, on whichever
/// thread, and the results stand in the order of the indices.
#[verifier::external_body]
pub(crate) fn par_map<T: Send, F: Fn(usize) -> T + Sync + Send>(count: usize, job: F) -> (results:
    Vec<T>)
    requires
        forall|i: usize| i < count ==> call_requires(job, (i,)),
    ensures
        results@.len() == count,
        forall|i: int| 0 <= i < count ==> call_ensures(job, (i as usize,), #[trigger] results@[i]),
{
    let mut results: Vec<T> = Vec::new();
    (0..count).into_par_iter().map(job).collect_into_vec(&mut results);
    results
}

} // verus!
