//! Progress tracking and a fail-closed ceiling on LLM calls.

use vstd::prelude::*;

verus! {

/// Error when the LLM call ceiling is hit.
#[derive(Clone, Debug, PartialEq, Eq)]
pub struct BudgetExceeded {
    /// Calls already recorded.
    pub used: u32,
    /// Configured maximum.
    pub max: u32,
}

impl BudgetExceeded {
    /// The error message.
    pub fn to_string(&self) -> (r: String)
        ensures
            r@ == "LLM call budget exceeded: used "@ + crate::text::decimal(self.used as nat)
                + " of max "@ + crate::text::decimal(self.max as nat),
    {
        let mut out: Vec<char> = Vec::new();
        crate::text::push_str(&mut out, "LLM call budget exceeded: used ");
        crate::text::push_all(&mut out, &crate::text::decimal_chars(self.used as u64));
        crate::text::push_str(&mut out, " of max ");
        crate::text::push_all(&mut out, &crate::text::decimal_chars(self.max as u64));
        crate::text::string_of(&out)
    }
}

/// Snapshot of progress for display and logging.
#[derive(Clone, Debug, PartialEq, Eq)]
pub struct ProgressSnapshot {
    /// LLM calls completed (or reserved) so far.
    pub llm_calls_used: u32,
    /// Hard ceiling.
    pub max_llm_calls: u32,
    /// Remaining calls before failure (`max - used`, saturating).
    pub llm_calls_remaining: u32,
    /// Stage label currently running, if any.
    pub current_stage: Option<String>,
    /// Number of stages marked complete.
    pub stages_completed: u32,
}

/// Fail-closed LLM call budget and light progress state.
#[derive(Debug)]
pub struct ProgressTracker {
    max_llm_calls: u32,
    llm_calls_used: u32,
    current_stage: Option<String>,
    stages_completed: u32,
}

impl ProgressTracker {
    /// Hard ceiling on calls.
    pub closed spec fn spec_max(&self) -> u32 {
        self.max_llm_calls
    }

    /// Calls used so far.
    pub closed spec fn spec_used(&self) -> u32 {
        self.llm_calls_used
    }

    /// Current stage label (as characters), if any.
    pub closed spec fn spec_stage(&self) -> Option<Seq<char>> {
        match self.current_stage {
            Some(s) => Some(s@),
            None => None,
        }
    }

    /// Number of stages completed.
    pub closed spec fn spec_completed(&self) -> u32 {
        self.stages_completed
    }

    /// The tracker never records more calls than its ceiling: `new`
    /// establishes this and every method keeps it.
    pub open spec fn wf(&self) -> bool {
        self.spec_used() <= self.spec_max()
    }

    /// Every tracker, whatever calls it went through, is within its ceiling.
    #[verifier::type_invariant]
    spec fn within_ceiling(&self) -> bool {
        self.llm_calls_used <= self.max_llm_calls
    }

    /// Create a tracker with the given hard ceiling (`0` means no calls allowed).
    pub fn new(max_llm_calls: u32) -> (t: Self)
        ensures
            t.wf(),
            t.spec_max() == max_llm_calls,
            t.spec_used() == 0,
            t.spec_stage() is None,
            t.spec_completed() == 0,
    {
        ProgressTracker { max_llm_calls, llm_calls_used: 0, current_stage: None, stages_completed: 0 }
    }

    /// Record one LLM call; fails closed once the ceiling is reached.
    pub fn record_llm_call(&mut self) -> (r: Result<(), BudgetExceeded>)
        ensures
            final(self).spec_max() == old(self).spec_max(),
            final(self).spec_stage() == old(self).spec_stage(),
            final(self).spec_completed() == old(self).spec_completed(),
            old(self).wf() ==> final(self).wf(),
            old(self).spec_used() < old(self).spec_max() ==> r is Ok && final(self).spec_used()
                == old(self).spec_used() + 1,
            old(self).spec_used() >= old(self).spec_max() ==> r == Err::<(), BudgetExceeded>(
                BudgetExceeded { used: old(self).spec_used(), max: old(self).spec_max() },
            ) && final(self).spec_used() == old(self).spec_used(),
    {
        proof {
            use_type_invariant(&*self);
        }
        if self.llm_calls_used >= self.max_llm_calls {
            return Err(BudgetExceeded { used: self.llm_calls_used, max: self.max_llm_calls });
        }
        self.llm_calls_used = self.llm_calls_used + 1;
        Ok(())
    }

    /// Reserve `n` calls up front; fails closed if not enough remain.
    pub fn reserve_llm_calls(&mut self, n: u32) -> (r: Result<(), BudgetExceeded>)
        ensures
            final(self).spec_max() == old(self).spec_max(),
            final(self).spec_stage() == old(self).spec_stage(),
            final(self).spec_completed() == old(self).spec_completed(),
            old(self).wf() ==> final(self).wf(),
            old(self).spec_used() + n <= old(self).spec_max() ==> r is Ok && final(self).spec_used()
                == old(self).spec_used() + n,
            old(self).spec_used() + n > old(self).spec_max() ==> r == Err::<(), BudgetExceeded>(
                BudgetExceeded { used: old(self).spec_used(), max: old(self).spec_max() },
            ) && final(self).spec_used() == old(self).spec_used(),
    {
        proof {
            use_type_invariant(&*self);
        }
        match self.llm_calls_used.checked_add(n) {
            Some(new_used) => {
                if new_used > self.max_llm_calls {
                    return Err(BudgetExceeded { used: self.llm_calls_used, max: self.max_llm_calls });
                }
                self.llm_calls_used = new_used;
            },
            None => {
                return Err(BudgetExceeded { used: self.llm_calls_used, max: self.max_llm_calls });
            },
        }
        Ok(())
    }

    /// The error reported when the ceiling is reached at the current count.
    pub(crate) fn budget_exceeded(&self) -> (e: BudgetExceeded)
        ensures
            e == (BudgetExceeded { used: self.spec_used(), max: self.spec_max() }),
    {
        BudgetExceeded { used: self.llm_calls_used, max: self.max_llm_calls }
    }

    /// Set the current stage label.
    pub fn set_stage(&mut self, stage: &str)
        ensures
            final(self).spec_max() == old(self).spec_max(),
            final(self).spec_used() == old(self).spec_used(),
            final(self).spec_completed() == old(self).spec_completed(),
            final(self).spec_stage() == Some(stage@),
            old(self).wf() ==> final(self).wf(),
    {
        proof {
            use_type_invariant(&*self);
        }
        self.current_stage = Some(stage.to_owned());
    }

    /// Clear the current stage and count it as completed (saturating).
    pub fn complete_stage(&mut self)
        ensures
            final(self).spec_max() == old(self).spec_max(),
            final(self).spec_used() == old(self).spec_used(),
            final(self).spec_stage() is None,
            final(self).spec_completed() == (if old(self).spec_completed() == u32::MAX {
                u32::MAX as int
            } else {
                old(self).spec_completed() + 1
            }),
            old(self).wf() ==> final(self).wf(),
    {
        proof {
            use_type_invariant(&*self);
        }
        self.current_stage = None;
        self.stages_completed = self.stages_completed.saturating_add(1);
    }

    /// Snapshot of the current counters.
    pub fn snapshot(&self) -> (s: ProgressSnapshot)
        ensures
            s.llm_calls_used == self.spec_used(),
            s.max_llm_calls == self.spec_max(),
            s.llm_calls_used <= s.max_llm_calls,
            s.llm_calls_remaining == s.max_llm_calls - s.llm_calls_used,
            self.wf(),
            s.stages_completed == self.spec_completed(),
            match s.current_stage {
                Some(c) => self.spec_stage() == Some(c@),
                None => self.spec_stage() is None,
            },
    {
        proof {
            use_type_invariant(&*self);
        }
        ProgressSnapshot {
            llm_calls_used: self.llm_calls_used,
            max_llm_calls: self.max_llm_calls,
            llm_calls_remaining: self.max_llm_calls.saturating_sub(self.llm_calls_used),
            current_stage: self.current_stage.clone(),
            stages_completed: self.stages_completed,
        }
    }
}

impl Clone for ProgressTracker {
    fn clone(&self) -> (r: Self)
        ensures
            r.spec_max() == self.spec_max(),
            r.spec_used() == self.spec_used(),
            r.spec_stage() == self.spec_stage(),
            r.spec_completed() == self.spec_completed(),
    {
        proof {
            use_type_invariant(self);
        }
        ProgressTracker {
            max_llm_calls: self.max_llm_calls,
            llm_calls_used: self.llm_calls_used,
            current_stage: match &self.current_stage {
                Some(c) => Some(c.clone()),
                None => None,
            },
            stages_completed: self.stages_completed,
        }
    }
}

} // verus!
