//! Per-goal achievement counts and the weak-domination order on them.
use vstd::prelude::*;

use crate::types::Goal;

verus! {

/// How many of the first `n` thresholds the score reaches.
pub open spec fn count_met(thresholds: Seq<u32>, score: u32, n: int) -> int
    decreases n,
{
    if n <= 0 {
        0
    } else {
        count_met(thresholds, score, n - 1) + if thresholds[n - 1] <= score {
            1int
        } else {
            0int
        }
    }
}

/// Weak domination: at least as high in every coordinate.
#[verifier::opaque]
pub open spec fn dominates(a: Seq<usize>, b: Seq<usize>) -> bool {
    forall|i: int| #![trigger a[i], b[i]] 0 <= i < a.len() && 0 <= i < b.len() ==> a[i] >= b[i]
}

/// Weak domination is reflexive.
pub proof fn lemma_dominates_reflexive(a: Seq<usize>)
    ensures
        dominates(a, a),
{
    reveal(dominates);
}

/// The count of met thresholds lies between zero and the thresholds read.
pub proof fn lemma_count_met_bounds(thresholds: Seq<u32>, score: u32, n: int)
    requires
        0 <= n,
    ensures
        0 <= count_met(thresholds, score, n) <= n,
    decreases n,
{
    if n > 0 {
        lemma_count_met_bounds(thresholds, score, n - 1);
    }
}

/// Weak domination is transitive over counts of equal width.
pub proof fn lemma_dominates_transitive(a: Seq<usize>, b: Seq<usize>, c: Seq<usize>)
    requires
        dominates(a, b),
        dominates(b, c),
        a.len() == b.len(),
        b.len() == c.len(),
    ensures
        dominates(a, c),
{
    reveal(dominates);
    assert forall|i: int| 0 <= i < a.len() && 0 <= i < c.len() implies #[trigger] a[i] >= c[i] by {
        assert(a[i] >= b[i]);
        assert(b[i] >= c[i]);
    }
}

/// The amount of thresholds that are met for each goal.
#[derive(Debug)]
pub struct GoalResult {
    pub achieved_goals: Vec<usize>,
}

impl GoalResult {
    /// Counts, for each goal, how many of its thresholds the group's score
    /// reaches.
    pub fn from_scores(score: &Vec<u32>, goals: &Vec<Goal>) -> (r: Self)
        requires
            score@.len() == goals@.len(),
        ensures
            r.achieved_goals@.len() == goals@.len(),
            forall|g: int|
                0 <= g < goals@.len() ==> #[trigger] r.achieved_goals@[g] == count_met(
                    goals@[g].effect_value_thresholds@,
                    score@[g],
                    goals@[g].effect_value_thresholds@.len() as int,
                ),
    {
        let mut achieved: Vec<usize> = Vec::new();
        let mut g: usize = 0;
        while g < goals.len()
            invariant
                g <= goals@.len(),
                score@.len() == goals@.len(),
                achieved@.len() == g,
                forall|gi: int|
                    0 <= gi < g ==> #[trigger] achieved@[gi] == count_met(
                        goals@[gi].effect_value_thresholds@,
                        score@[gi],
                        goals@[gi].effect_value_thresholds@.len() as int,
                    ),
            decreases goals@.len() - g,
        {
            let thresholds = &goals[g].effect_value_thresholds;
            let s = score[g];
            let mut met: usize = 0;
            let mut t: usize = 0;
            while t < thresholds.len()
                invariant
                    t <= thresholds@.len(),
                    met == count_met(thresholds@, s, t as int),
                    met <= t,
                decreases thresholds@.len() - t,
            {
                if thresholds[t] <= s {
                    met += 1;
                }
                t += 1;
            }
            achieved.push(met);
            g += 1;
        }
        GoalResult { achieved_goals: achieved }
    }

    /// Weak domination: every coordinate of `self` is at least the
    /// matching coordinate of `other`. Despite the name, a result also
    /// counts as strictly better than an equal one.
    pub fn is_strictly_better(&self, other: &Self) -> (r: bool)
        requires
            self.achieved_goals@.len() == other.achieved_goals@.len(),
        ensures
            r == dominates(self.achieved_goals@, other.achieved_goals@),
    {
        let mut i: usize = 0;
        let len = self.achieved_goals.len();
        let mut all_at_least = true;
        while i < len
            invariant
                i <= len,
                len == self.achieved_goals@.len(),
                len == other.achieved_goals@.len(),
                all_at_least == forall|j: int|
                    0 <= j < i ==> #[trigger] self.achieved_goals@[j] >= other.achieved_goals@[j],
            decreases len - i,
        {
            if self.achieved_goals[i] < other.achieved_goals[i] {
                all_at_least = false;
            }
            proof {
                if all_at_least {
                    assert forall|j: int| 0 <= j < i + 1 implies #[trigger] self.achieved_goals@[j]
                        >= other.achieved_goals@[j] by {}
                }
            }
            i += 1;
        }
        proof {
            reveal(dominates);
        }
        all_at_least
    }

    /// An identical copy of the result.
    pub fn duplicate(&self) -> (r: Self)
        ensures
            r.achieved_goals@ == self.achieved_goals@,
    {
        let mut achieved: Vec<usize> = Vec::new();
        let mut i: usize = 0;
        while i < self.achieved_goals.len()
            invariant
                i <= self.achieved_goals@.len(),
                achieved@ =~= self.achieved_goals@.subrange(0, i as int),
            decreases self.achieved_goals@.len() - i,
        {
            achieved.push(self.achieved_goals[i]);
            i += 1;
        }
        proof {
            assert(achieved@ =~= self.achieved_goals@);
        }
        GoalResult { achieved_goals: achieved }
    }
}

impl PartialEq for GoalResult {
    fn eq(&self, other: &GoalResult) -> (r: bool) {
        let mut i: usize = 0;
        if self.achieved_goals.len() != other.achieved_goals.len() {
            return false;
        }
        let len = self.achieved_goals.len();
        let mut same = true;
        while i < len
            invariant
                i <= len,
                len == self.achieved_goals@.len(),
                len == other.achieved_goals@.len(),
                same == forall|j: int|
                    0 <= j < i ==> #[trigger] self.achieved_goals@[j] == other.achieved_goals@[j],
            decreases len - i,
        {
            if self.achieved_goals[i] != other.achieved_goals[i] {
                same = false;
            }
            proof {
                if same {
                    assert forall|j: int| 0 <= j < i + 1 implies #[trigger] self.achieved_goals@[j]
                        == other.achieved_goals@[j] by {}
                }
            }
            i += 1;
        }
        proof {
            if same {
                assert(self.achieved_goals@ =~= other.achieved_goals@);
            }
        }
        same
    }
}

impl vstd::std_specs::cmp::PartialEqSpecImpl for GoalResult {
    open spec fn obeys_eq_spec() -> bool {
        true
    }

    open spec fn eq_spec(&self, other: &GoalResult) -> bool {
        self.achieved_goals@ == other.achieved_goals@
    }
}

} // verus!
