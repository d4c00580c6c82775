//! Budget side of bounded-concurrency completion batches: a batch reserves
//! one LLM call per prompt before any call is made.

use vstd::prelude::*;

use crate::progress::{BudgetExceeded, ProgressTracker};

verus! {

/// Reserve the calls of a batch of `n` prompts, failing closed (with
/// nothing reserved) when the budget cannot cover all of them.
pub fn reserve_batch(progress: &mut ProgressTracker, n: usize) -> (r: Result<(), BudgetExceeded>)
    ensures
        final(progress).spec_max() == old(progress).spec_max(),
        old(progress).wf() ==> final(progress).wf(),
        old(progress).spec_used() + n <= old(progress).spec_max() ==> r is Ok
            && final(progress).spec_used() == old(progress).spec_used() + n,
        old(progress).spec_used() + n > old(progress).spec_max() ==> r == Err::<(), BudgetExceeded>(
            BudgetExceeded { used: old(progress).spec_used(), max: old(progress).spec_max() },
        ) && final(progress).spec_used() == old(progress).spec_used(),
        final(progress).spec_stage() == old(progress).spec_stage(),
        final(progress).spec_completed() == old(progress).spec_completed(),
{
    if n > u32::MAX as usize {
        return Err(progress.budget_exceeded());
    }
    progress.reserve_llm_calls(n as u32)
}

} // verus!
