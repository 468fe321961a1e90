//! Tracking the load progress of a batch of assets.

use vstd::prelude::*;

verus! {

/// Immediate status (results) of a batch load.
#[derive(Copy, Clone, Debug)]
pub struct BatchLoadResults {
    /// Number of already loaded assets from the batch.
    pub loaded: usize,
    /// Number of not yet loaded assets from the batch.
    pub unloaded: usize,
}

impl Default for BatchLoadResults {
    fn default() -> (r: Self)
        ensures
            r.loaded == 0,
            r.unloaded == 0,
    {
        BatchLoadResults { loaded: 0, unloaded: 0 }
    }
}

impl BatchLoadResults {
    /// Returns whether the batch is complete - all assets are loaded.
    #[inline]
    pub fn is_complete(&self) -> (r: bool)
        ensures
            r == (self.unloaded == 0),
    {
        self.unloaded == 0
    }
}

/// Number of `true` entries.
pub open spec fn count_ready(ready: Seq<bool>) -> nat
    decreases ready.len(),
{
    if ready.len() == 0 {
        0
    } else {
        count_ready(ready.drop_last()) + if ready.last() {
            1nat
        } else {
            0nat
        }
    }
}

/// Counts the loaded and the not yet loaded assets of a batch, given for each
/// asset of the batch whether the storage reports it ready.
pub fn check_result(ready: &[bool]) -> (r: BatchLoadResults)
    ensures
        r.loaded == count_ready(ready@),
        r.unloaded == ready@.len() - count_ready(ready@),
{
    let mut results = BatchLoadResults::default();
    let mut i: usize = 0;
    while i < ready.len()
        invariant
            i <= ready@.len(),
            results.loaded == count_ready(ready@.take(i as int)),
            results.loaded + results.unloaded == i,
        decreases ready@.len() - i,
    {
        proof {
            assert(ready@.take(i + 1).drop_last() =~= ready@.take(i as int));
        }
        if ready[i] {
            results.loaded += 1;
        } else {
            results.unloaded += 1;
        }
        i = i + 1;
    }
    proof {
        assert(ready@.take(i as int) =~= ready@);
    }
    results
}

/// At most all of the assets are ready.
proof fn lemma_count_ready_bound(ready: Seq<bool>)
    ensures
        count_ready(ready) <= ready.len(),
        count_ready(ready) == ready.len() <==> forall|i: int| 0 <= i < ready.len() ==> ready[i],
    decreases ready.len(),
{
    if ready.len() > 0 {
        lemma_count_ready_bound(ready.drop_last());
        let init = ready.drop_last();
        if count_ready(ready) == ready.len() {
            assert forall|i: int| 0 <= i < ready.len() implies ready[i] by {
                if i < ready.len() - 1 {
                    assert(init[i] == ready[i]);
                }
            }
        }
        if forall|i: int| 0 <= i < ready.len() ==> ready[i] {
            assert forall|i: int| 0 <= i < init.len() implies init[i] by {
                assert(ready[i]);
            }
        }
    }
}

/// Every asset of the batch is counted once, and the batch is complete exactly
/// when every asset is ready.
pub proof fn lemma_batch_results(ready: Seq<bool>, r: BatchLoadResults)
    requires
        r.loaded == count_ready(ready),
        r.unloaded == ready.len() - count_ready(ready),
    ensures
        r.loaded + r.unloaded == ready.len(),
        (r.unloaded == 0) <==> forall|i: int| 0 <= i < ready.len() ==> ready[i],
{
    lemma_count_ready_bound(ready);
}

} // verus!
