//! Fractional progress reporting for the solver's nested enumeration
//! loops, with cooperative cancellation through the reporter's answer.
use vstd::prelude::*;

use crate::solver::SolverResult;

verus! {

/// One whole unit of progress, as a 32.32 fixed-point number.
pub const PROGRESS_SCALE: u64 = 0x1_0000_0000;

/// A cap on a single loop's counters; keeps the fixed-point progress
/// arithmetic within u64.
pub const MAX_LOOP_TOTAL: usize = 0x100_0000;

/// The number of deepest loop levels that stay silent, as a latency
/// optimization.
pub const REPORT_DEPTH: usize = 3;

/// A sink for progress reports. The solver hands it the progress as a
/// 32.32 fixed-point fraction and the frontier found so far; answering
/// `false` cancels the search.
pub trait ProgressReporter {
    fn report(&mut self, progress: u64, current: &SolverResult) -> bool;
}

/// A reporter that never cancels.
pub struct NullReporter;

impl ProgressReporter for NullReporter {
    fn report(&mut self, progress: u64, current: &SolverResult) -> bool {
        true
    }
}

/// The fraction of the enumeration that lies behind the given stack of
/// (current, total) loop counters, in 32.32 fixed point: each level
/// contributes its finished share of the slice its ancestors left to it.
pub open spec fn progress_fixed(stack: Seq<(usize, usize)>) -> int
    decreases stack.len(),
{
    if stack.len() == 0 {
        0
    } else {
        (stack[0].0 * PROGRESS_SCALE + progress_fixed(stack.drop_first())) / (stack[0].1 as int)
    }
}

/// A fully walked enumeration reports exactly one unit of progress: once
/// only the outermost loop remains and it has finished every iteration,
/// the computed fraction is exactly the scale.
pub proof fn lemma_progress_complete(stack: Seq<(usize, usize)>)
    requires
        stack.len() == 1,
        stack[0].0 == stack[0].1,
        stack[0].1 >= 1,
    ensures
        progress_fixed(stack) == PROGRESS_SCALE,
{
    let n = stack[0].1 as int;
    assert(progress_fixed(stack.drop_first()) == 0);
    assert(progress_fixed(stack) == (n * PROGRESS_SCALE + 0) / n);
    assert((n * PROGRESS_SCALE + 0) / n == PROGRESS_SCALE) by (nonlinear_arith)
        requires
            n >= 1,
    ;
}

/// Tracks the solver's nested loops and reports fractional progress.
pub struct ProgressTracker<R> {
    /// The reporter that is called when the progress changes.
    pub progress_reporter: Option<R>,
    /// The current and total iteration count of each live loop, outermost
    /// first.
    pub progress_stack: Vec<(usize, usize)>,
    /// The deepest stack ever seen; gates reporting.
    pub max_depth_encountered: usize,
}

impl<R: ProgressReporter> ProgressTracker<R> {
    /// The stack stays small enough for the fixed-point arithmetic.
    pub open spec fn stack_wf(self) -> bool {
        &&& self.progress_stack@.len() <= 64
        &&& forall|i: int|
            0 <= i < self.progress_stack@.len() ==> (#[trigger] self.progress_stack@[i]).0
                <= MAX_LOOP_TOTAL && self.progress_stack@[i].1 <= MAX_LOOP_TOTAL
    }

    pub fn new(progress_reporter: Option<R>) -> (r: Self)
        ensures
            r.progress_stack@.len() == 0,
            r.max_depth_encountered == 0,
            r.stack_wf(),
            r.progress_reporter == progress_reporter,
    {
        ProgressTracker { progress_reporter, progress_stack: Vec::new(), max_depth_encountered: 0 }
    }

    /// Enters a loop of `count` iterations.
    pub fn start_loop(&mut self, count: usize)
        requires
            old(self).stack_wf(),
            old(self).progress_stack@.len() < 64,
            count <= MAX_LOOP_TOTAL,
        ensures
            final(self).progress_stack@ == old(self).progress_stack@.push((0usize, count)),
            final(self).stack_wf(),
            final(self).progress_reporter == old(self).progress_reporter,
            final(self).max_depth_encountered >= old(self).max_depth_encountered,
    {
        self.progress_stack.push((0, count));
        if self.progress_stack.len() > self.max_depth_encountered {
            self.max_depth_encountered = self.progress_stack.len();
        }
    }

    /// Leaves the innermost loop.
    pub fn end_loop(&mut self)
        requires
            old(self).stack_wf(),
        ensures
            final(self).progress_stack@ == if old(self).progress_stack@.len() > 0 {
                old(self).progress_stack@.drop_last()
            } else {
                old(self).progress_stack@
            },
            final(self).stack_wf(),
            final(self).progress_reporter == old(self).progress_reporter,
            final(self).max_depth_encountered == old(self).max_depth_encountered,
    {
        if self.progress_stack.len() > 0 {
            let _ = self.progress_stack.pop();
        }
    }

    /// Marks one iteration of the innermost loop as finished.
    pub fn bump_loop_progress(&mut self)
        requires
            old(self).stack_wf(),
            old(self).progress_stack@.len() > 0 ==> old(self).progress_stack@.last().0
                < MAX_LOOP_TOTAL,
        ensures
            final(self).progress_stack@ == if old(self).progress_stack@.len() > 0 {
                old(self).progress_stack@.update(
                    old(self).progress_stack@.len() - 1,
                    ((old(self).progress_stack@.last().0 + 1) as usize, old(
                        self,
                    ).progress_stack@.last().1),
                )
            } else {
                old(self).progress_stack@
            },
            final(self).stack_wf(),
            final(self).progress_reporter == old(self).progress_reporter,
            final(self).max_depth_encountered == old(self).max_depth_encountered,
    {
        let len = self.progress_stack.len();
        if len > 0 {
            let (cur, total) = self.progress_stack[len - 1];
            self.progress_stack.set(len - 1, (cur + 1, total));
        }
    }

    /// The current progress as a 32.32 fixed-point fraction.
    pub fn get_current_progress(&self) -> (r: u64)
        requires
            self.stack_wf(),
            forall|i: int| 0 <= i < self.progress_stack@.len() ==> (#[trigger] self.progress_stack@[i]).1 >= 1,
        ensures
            r == progress_fixed(self.progress_stack@),
    {
        let mut f: u64 = 0;
        let len = self.progress_stack.len();
        let mut i: usize = len;
        while i > 0
            invariant
                i <= len,
                len == self.progress_stack@.len(),
                self.stack_wf(),
                forall|k: int|
                    0 <= k < self.progress_stack@.len() ==> (
                    #[trigger] self.progress_stack@[k]).1 >= 1,
                f == progress_fixed(self.progress_stack@.subrange(i as int, len as int)),
                f <= (len - i) * 0x100_0000_0000_0000,
            decreases i,
        {
            let (cur, total) = self.progress_stack[i - 1];
            let ghost tail = self.progress_stack@.subrange(i as int, len as int);
            let ghost whole = self.progress_stack@.subrange(i - 1, len as int);
            proof {
                assert(whole.drop_first() =~= tail);
                assert(whole[0] == self.progress_stack@[i - 1]);
                assert(cur as int * PROGRESS_SCALE as int <= 0x100_0000_0000_0000int)
                    by (nonlinear_arith)
                    requires
                        0 <= cur <= 0x100_0000,
                ;
                assert((len - i) * 0x100_0000_0000_0000 <= 63 * 0x100_0000_0000_0000)
                    by (nonlinear_arith)
                    requires
                        0 <= len - i <= 63,
                ;
                assert(0 <= (cur * PROGRESS_SCALE + f) as int / (total as int) <= (cur
                    * PROGRESS_SCALE + f)) by (nonlinear_arith)
                    requires
                        total as int >= 1,
                        cur * PROGRESS_SCALE + f >= 0,
                ;
            }
            f = (cur as u64 * PROGRESS_SCALE + f) / (total as u64);
            i -= 1;
            proof {
                assert((len - i) * 0x100_0000_0000_0000 == (len - i - 1) * 0x100_0000_0000_0000
                    + 0x100_0000_0000_0000) by (nonlinear_arith);
            }
        }
        proof {
            assert(self.progress_stack@.subrange(0, len as int) =~= self.progress_stack@);
        }
        f
    }

    /// Reports the current progress to the reporter, unless the stack is
    /// within the silent depth; answers whether the search should go on.
    pub fn report_progress(&mut self, current: &SolverResult) -> (r: bool)
        requires
            old(self).stack_wf(),
            forall|i: int|
                0 <= i < old(self).progress_stack@.len() ==> (
                #[trigger] old(self).progress_stack@[i]).1 >= 1,
        ensures
            final(self).progress_stack@ == old(self).progress_stack@,
            final(self).max_depth_encountered == old(self).max_depth_encountered,
            final(self).stack_wf(),
            (final(self).progress_reporter is None) == (old(self).progress_reporter is None),
            old(self).progress_reporter is None ==> r,
            old(self).progress_stack@.len() > (if old(self).max_depth_encountered >= REPORT_DEPTH {
                (old(self).max_depth_encountered - REPORT_DEPTH) as int
            } else {
                0int
            }) ==> r,
    {
        let silent_above = if self.max_depth_encountered >= REPORT_DEPTH {
            self.max_depth_encountered - REPORT_DEPTH
        } else {
            0
        };
        if self.progress_stack.len() > silent_above {
            return true;
        }
        let progress = self.get_current_progress();
        match &mut self.progress_reporter {
            Some(reporter) => reporter.report(progress, current),
            None => true,
        }
    }
}

} // verus!
