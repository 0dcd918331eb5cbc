//! Work on the threads of a rayon pool.
use vstd::prelude::*;

use rayon::prelude::IntoParallelIterator;
use rayon::prelude::ParallelIterator;

verus! {

/// The thread pool of rayon, carried through to where the work is handed to it.
#[verifier::external_type_specification]
#[verifier::external_body]
pub struct ExThreadPool(rayon::ThreadPool);

/// Applies `f` to every item on the threads of the pool: inside `rayon::ThreadPool::install`, the
/// items go through rayon's parallel iterator of a `Vec`, its `map` and its `collect`.
///
/// Claimed of rayon is that every item is handed to `f`, that the results come out as `f` gave
/// them, and that they stand in the order of the items.  On which thread an item is worked on, and
/// which item comes first, is left open.
#[verifier::external_body]
pub(crate) fn map_in_pool<A: Send, R: Send, F: Fn(A) -> R + Sync + Send>(
    pool: &rayon::ThreadPool,
    items: Vec<A>,
    f: F,
) -> (results: Vec<R>)
    requires
        forall|k: int| 0 <= k < items@.len() ==> call_requires(f, (#[trigger] items@[k],)),
    ensures
        results@.len() == items@.len(),
        forall|k: int|
            0 <= k < results@.len() ==> call_ensures(f, (items@[k],), #[trigger] results@[k]),
{
    pool.install(|| items.into_par_iter().map(f).collect())
}

} // verus!
