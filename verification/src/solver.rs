//! The exhaustive search: enumerate every order of placing the materials,
//! every allowed transformation and every board position, and keep the
//! Pareto-optimal frontier of goal results. Every route the solver reports
//! replays to exactly the goal result it carries.
use vstd::prelude::*;

use crate::cauldron::Cauldron;
use crate::cauldron::coverage_counts;
use crate::cauldron::place_scores_after;
use crate::cauldron::replay;
use crate::cauldron::scores_view;
use crate::cauldron::tiles_compatible;
use crate::cauldron::zero_scores;
use crate::cauldron::MAX_PLACE_SCORE;
use crate::goal_result::count_met;
use crate::goal_result::dominates;
use crate::goal_result::GoalResult;
use crate::progress::ProgressReporter;
use crate::progress::ProgressTracker;
use crate::score::group_score;
use crate::score::ColorScoreSet;
use crate::score::RAW_SCORE_CAP;
use crate::shape::normalized_bits;
use crate::shape::raw_transform;
use crate::shape::Shape;
use crate::shape::Transformation;
use crate::types::groups_view;
use crate::types::material_groups_wf;
use crate::types::Goal;
use crate::types::Material;
use crate::types::Move;
use crate::types::Placement;
use crate::types::TransformationType;

verus! {

/// The frontier the solver returns: each Pareto-optimal goal result with
/// one move sequence that reaches it.
pub type SolverResult = Vec<(GoalResult, Vec<Move>)>;

/// The solver's settings.
#[derive(Debug, Default, Clone, Copy)]
pub struct SolverSettings {
    /// The allowed transformations.
    pub transformations: TransformationType,
    /// Whether overlapping placements are allowed.
    pub allow_overlaps: bool,
}

/// The total number of materials over the first `n` groups.
pub open spec fn total_materials(groups: Seq<Seq<Material>>, n: int) -> int
    decreases n,
{
    if n <= 0 {
        0
    } else {
        total_materials(groups, n - 1) + groups[n - 1].len()
    }
}

/// Every move of the path names an existing material, and no material is
/// placed twice.
pub open spec fn path_wf(path: Seq<Move>, groups: Seq<Seq<Material>>) -> bool {
    &&& forall|k: int|
        0 <= k < path.len() ==> (#[trigger] path[k]).material_index.0 < groups.len()
            && path[k].material_index.1 < groups[path[k].material_index.0 as int].len()
    &&& forall|j: int, k: int|
        0 <= j < k < path.len() ==> (#[trigger] path[j]).material_index != (
        #[trigger] path[k]).material_index
}

/// The final score of group `g` after replaying a move sequence on a
/// fresh board.
pub open spec fn replayed_group_score(
    c0: Cauldron,
    groups: Seq<Seq<Material>>,
    allow_overlap: bool,
    moves: Seq<Move>,
    g: int,
) -> int {
    let state = replay(
        c0.tiles@,
        zero_scores(groups.len() as nat),
        c0.size as int,
        c0.bonus_scores,
        groups,
        allow_overlap,
        moves,
        moves.len() as int,
    )->Some_0;
    group_score(groups[g], state.1[g], coverage_counts(state.0, groups), c0.tiles@.len() as int, 5)
}

/// A sound route: a complete, replayable placement of all materials whose
/// recorded goal result is exactly what the replay achieves.
pub open spec fn route_valid(
    c0: Cauldron,
    groups: Seq<Seq<Material>>,
    goals: Seq<Goal>,
    allow_overlap: bool,
    entry: (GoalResult, Vec<Move>),
) -> bool {
    let moves = entry.1@;
    &&& moves.len() == total_materials(groups, groups.len() as int)
    &&& path_wf(moves, groups)
    &&& replay(
        c0.tiles@,
        zero_scores(groups.len() as nat),
        c0.size as int,
        c0.bonus_scores,
        groups,
        allow_overlap,
        moves,
        moves.len() as int,
    ) is Some
    &&& entry.0.achieved_goals@.len() == goals.len()
    &&& forall|g: int|
        0 <= g < goals.len() ==> #[trigger] entry.0.achieved_goals@[g] == count_met(
            goals[g].effect_value_thresholds@,
            replayed_group_score(c0, groups, allow_overlap, moves, g) as u32,
            goals[g].effect_value_thresholds@.len() as int,
        )
}

/// Whether some entry of the frontier weakly dominates the given
/// achievement counts.
pub open spec fn result_covered(entries: Seq<(GoalResult, Vec<Move>)>, x: Seq<usize>) -> bool {
    exists|j: int|
        0 <= j < entries.len() && dominates((#[trigger] entries[j]).0.achieved_goals@, x)
}

/// The per-goal achievement counts a complete replay earns: for each
/// goal, how many of its thresholds the replayed group score reaches.
pub open spec fn leaf_result(
    c0: Cauldron,
    groups: Seq<Seq<Material>>,
    goals: Seq<Goal>,
    allow_overlap: bool,
    moves: Seq<Move>,
) -> Seq<usize> {
    Seq::new(
        goals.len(),
        |g: int|
            count_met(
                goals[g].effect_value_thresholds@,
                replayed_group_score(c0, groups, allow_overlap, moves, g) as u32,
                goals[g].effect_value_thresholds@.len() as int,
            ) as usize,
    )
}

/// Whether the counts meet every threshold of every goal.
pub open spec fn is_perfect(achieved: Seq<usize>, goals: Seq<Goal>) -> bool {
    &&& achieved.len() == goals.len()
    &&& forall|g: int|
        0 <= g < goals.len() ==> #[trigger] achieved[g] == goals[g].effect_value_thresholds@.len()
}

/// A Pareto frontier: no entry weakly dominates another, and every entry
/// carries one achievement count per goal.
pub open spec fn pareto_wf(entries: Seq<(GoalResult, Vec<Move>)>, goals_len: int) -> bool {
    &&& forall|j: int|
        0 <= j < entries.len() ==> (#[trigger] entries[j]).0.achieved_goals@.len() == goals_len
    &&& forall|j: int, k: int|
        0 <= j < entries.len() && 0 <= k < entries.len() && j != k ==> !dominates(
            (#[trigger] entries[j]).0.achieved_goals@,
            (#[trigger] entries[k]).0.achieved_goals@,
        )
}

/// A canonical completion of a partial path: a full-length, non-repeating,
/// replayable move sequence that extends the path, drawing every remaining
/// transformation from the enumerated candidates for its material.
pub open spec fn canonical_completion(
    m: Seq<Move>,
    path: Seq<Move>,
    c0: Cauldron,
    groups: Seq<Seq<Material>>,
    allow_overlap: bool,
    tt: TransformationType,
) -> bool {
    &&& m.len() == total_materials(groups, groups.len() as int)
    &&& path.len() <= m.len()
    &&& m.subrange(0, path.len() as int) == path
    &&& path_wf(m, groups)
    &&& replay(
        c0.tiles@,
        zero_scores(groups.len() as nat),
        c0.size as int,
        c0.bonus_scores,
        groups,
        allow_overlap,
        m,
        m.len() as int,
    ) is Some
    &&& forall|k: int|
        path.len() <= k < m.len() ==> transformations_for(
            groups[(#[trigger] m[k]).material_index.0 as int][m[k].material_index.1 as int].shape.0,
            tt,
        ).contains(m[k].placement.transformation)
}

/// Whether the frontier weakly dominates the goal result a complete
/// replay earns.
pub open spec fn completion_covered(
    frontier: Seq<(GoalResult, Vec<Move>)>,
    c0: Cauldron,
    groups: Seq<Seq<Material>>,
    goals: Seq<Goal>,
    allow_overlap: bool,
    m: Seq<Move>,
) -> bool {
    result_covered(frontier, leaf_result(c0, groups, goals, allow_overlap, m))
}

/// Whatever a frontier weakly dominates, a frontier that covers all of its
/// entries weakly dominates too.
proof fn lemma_covered_monotone(
    mid: Seq<(GoalResult, Vec<Move>)>,
    fin: Seq<(GoalResult, Vec<Move>)>,
    x: Seq<usize>,
    glen: int,
)
    requires
        result_covered(mid, x),
        forall|k: int|
            0 <= k < mid.len() ==> result_covered(fin, (#[trigger] mid[k]).0.achieved_goals@),
        pareto_wf(mid, glen),
        pareto_wf(fin, glen),
        x.len() == glen,
    ensures
        result_covered(fin, x),
{
    let j = choose|j: int| 0 <= j < mid.len() && dominates((#[trigger] mid[j]).0.achieved_goals@, x);
    let i = choose|i: int|
        0 <= i < fin.len() && dominates(
            (#[trigger] fin[i]).0.achieved_goals@,
            mid[j].0.achieved_goals@,
        );
    crate::goal_result::lemma_dominates_transitive(
        fin[i].0.achieved_goals@,
        mid[j].0.achieved_goals@,
        x,
    );
}

/// A placement that succeeds names a tile index on the grid.
proof fn lemma_place_ok_index(tiles: Seq<Option<crate::types::Tile>>, size: int, m: Material, pl: Placement, allow_overlap: bool)
    requires
        4 <= size <= 6,
        crate::cauldron::place_ok(tiles, size, m, pl, allow_overlap),
    ensures
        pl.index < size * size,
{
    let py = pl.index as int / size;
    assert(py < size);
    assert(pl.index < size * size) by (nonlinear_arith)
        requires
            pl.index as int / size < size,
            size >= 1,
            pl.index >= 0,
    ;
}

/// The transformations worth trying for a shape: the identity always, and
/// each allowed transformation that actually changes the shape.
pub open spec fn transformations_for(s: u16, tt: TransformationType) -> Seq<
    Option<Transformation>,
> {
    let r90 = normalized_bits(raw_transform(s, Transformation::Rotate90));
    let r180 = normalized_bits(raw_transform(s, Transformation::Rotate180));
    let r270 = normalized_bits(raw_transform(s, Transformation::Rotate270));
    match tt {
        TransformationType::NoTransform => seq![None],
        TransformationType::FlipHorizontal => if normalized_bits(
            raw_transform(s, Transformation::FlipHorizontal),
        ) != s {
            seq![None, Some(Transformation::FlipHorizontal)]
        } else {
            seq![None]
        },
        TransformationType::FlipVertical => if normalized_bits(
            raw_transform(s, Transformation::FlipVertical),
        ) != s {
            seq![None, Some(Transformation::FlipVertical)]
        } else {
            seq![None]
        },
        TransformationType::Rotate => {
            let with_quarters = if r90 != s {
                if r90 != r270 {
                    seq![None, Some(Transformation::Rotate90), Some(Transformation::Rotate270)]
                } else {
                    seq![None, Some(Transformation::Rotate90)]
                }
            } else {
                seq![Option::<Transformation>::None]
            };
            if r180 != s {
                with_quarters.push(Some(Transformation::Rotate180))
            } else {
                with_quarters
            }
        },
    }
}

/// Enumerates the transformations worth trying for a shape, deduplicated
/// by applying each candidate and comparing with the original.
pub fn generate_transformations(shape: Shape, transformation_type: TransformationType) -> (r: Vec<
    Option<Transformation>,
>)
    ensures
        r@ == transformations_for(shape.0, transformation_type),
        1 <= r@.len() <= 4,
        r@[0] is None,
{
    let mut r: Vec<Option<Transformation>> = Vec::new();
    r.push(None);
    match transformation_type {
        TransformationType::NoTransform => {},
        TransformationType::FlipHorizontal => {
            if shape.apply_transformation(Transformation::FlipHorizontal) != shape {
                r.push(Some(Transformation::FlipHorizontal));
            }
        },
        TransformationType::FlipVertical => {
            if shape.apply_transformation(Transformation::FlipVertical) != shape {
                r.push(Some(Transformation::FlipVertical));
            }
        },
        TransformationType::Rotate => {
            if shape.apply_transformation(Transformation::Rotate90) != shape {
                r.push(Some(Transformation::Rotate90));
                if shape.apply_transformation(Transformation::Rotate90)
                    != shape.apply_transformation(Transformation::Rotate270) {
                    r.push(Some(Transformation::Rotate270));
                }
            }
            if shape.apply_transformation(Transformation::Rotate180) != shape {
                r.push(Some(Transformation::Rotate180));
            }
        },
    }
    proof {
        assert(r@ =~= transformations_for(shape.0, transformation_type));
    }
    r
}

/// An identical copy of a move sequence.
fn dup_moves(moves: &Vec<Move>) -> (r: Vec<Move>)
    ensures
        r@ == moves@,
{
    let mut r: Vec<Move> = Vec::new();
    let mut i: usize = 0;
    while i < moves.len()
        invariant
            i <= moves@.len(),
            r@ =~= moves@.subrange(0, i as int),
        decreases moves@.len() - i,
    {
        r.push(moves[i]);
        i += 1;
    }
    proof {
        assert(r@ =~= moves@);
    }
    r
}

/// An identical copy of a list of score sets.
fn dup_score_sets(scores: &Vec<ColorScoreSet>) -> (r: Vec<ColorScoreSet>)
    ensures
        r@ == scores@,
{
    let mut r: Vec<ColorScoreSet> = Vec::new();
    let mut i: usize = 0;
    while i < scores.len()
        invariant
            i <= scores@.len(),
            r@ =~= scores@.subrange(0, i as int),
        decreases scores@.len() - i,
    {
        r.push(scores[i]);
        i += 1;
    }
    proof {
        assert(r@ =~= scores@);
    }
    r
}

/// What the retention pass and the addition test of a frontier update
/// establish: `src` names where each survivor stood in the original
/// frontier (in order), survivors are exactly the entries the result does
/// not weakly dominate, and `dominated` answers whether a survivor weakly
/// dominates the result.
#[verifier::opaque]
pub open spec fn screened(
    orig: Seq<(GoalResult, Vec<Move>)>,
    kept: Seq<(GoalResult, Vec<Move>)>,
    src: Seq<int>,
    result_achieved: Seq<usize>,
    dominated: bool,
) -> bool {
    &&& src.len() == kept.len()
    &&& forall|j: int|
        0 <= j < src.len() ==> 0 <= #[trigger] src[j] < orig.len() && orig[src[j]] == kept[j]
            && !dominates(result_achieved, orig[src[j]].0.achieved_goals@)
    &&& forall|j1: int, j2: int| 0 <= j1 < j2 < src.len() ==> src[j1] < src[j2]
    &&& forall|k: int|
        0 <= k < orig.len() && !dominates(
            result_achieved,
            (#[trigger] orig[k]).0.achieved_goals@,
        ) ==> exists|j: int| 0 <= j < kept.len() && kept[j] == orig[k]
    &&& dominated == exists|q: int|
        0 <= q < kept.len() && dominates((#[trigger] kept[q]).0.achieved_goals@, result_achieved)
}

/// What the retention pass and the addition test leave behind: the
/// combined facts of both phases imply every clause of the frontier
/// update law.
#[verifier::rlimit(100)]
#[verifier::spinoff_prover]
proof fn lemma_pareto_insert_post(
    orig: Seq<(GoalResult, Vec<Move>)>,
    kept_before: Seq<(GoalResult, Vec<Move>)>,
    kept: Seq<(GoalResult, Vec<Move>)>,
    src: Seq<int>,
    result: GoalResult,
    path: Vec<Move>,
    added: bool,
)
    requires
        pareto_wf(orig, result.achieved_goals@.len() as int),
        screened(orig, kept_before, src, result.achieved_goals@, !added),
        kept == if added {
            kept_before.push((result, path))
        } else {
            kept_before
        },
    ensures
        pareto_wf(kept, result.achieved_goals@.len() as int),
        forall|j: int|
            0 <= j < kept.len() ==> ((#[trigger] kept[j]) == (result, path) || exists|k: int|
                0 <= k < orig.len() && orig[k] == kept[j]),
        added ==> kept.len() > 0 && kept.last() == (result, path),
        orig.len() > 0 ==> kept.len() > 0,
{
    reveal(screened);
    let glen = result.achieved_goals@.len() as int;
    assert forall|q: int| 0 <= q < kept_before.len() implies (
    #[trigger] kept_before[q]).0.achieved_goals@.len() == glen by {
        assert(orig[src[q]] == kept_before[q]);
    }
    // The frontier stays free of dominating pairs.
    assert forall|j1: int, k1: int|
        0 <= j1 < kept.len() && 0 <= k1 < kept.len() && j1 != k1 implies !dominates(
        (#[trigger] kept[j1]).0.achieved_goals@,
        (#[trigger] kept[k1]).0.achieved_goals@,
    ) by {
        if j1 < kept_before.len() && k1 < kept_before.len() {
            let oj = src[j1];
            let ok = src[k1];
            assert(oj != ok);
            assert(orig[oj] == kept_before[j1] && orig[ok] == kept_before[k1]);
            assert(!dominates(orig[oj].0.achieved_goals@, orig[ok].0.achieved_goals@));
        } else if j1 < kept_before.len() {
            assert(kept[k1] == (result, path));
            assert(!dominates(kept_before[j1].0.achieved_goals@, result.achieved_goals@));
        } else {
            assert(kept[j1] == (result, path));
            let ok = src[k1];
            assert(!dominates(result.achieved_goals@, orig[ok].0.achieved_goals@));
        }
    }
    // Membership: each final entry is the inserted pair or an old entry.
    assert forall|j: int|
        0 <= j < kept.len() implies ((#[trigger] kept[j]) == (result, path) || exists|k: int|
            0 <= k < orig.len() && orig[k] == kept[j]) by {
        if j < kept_before.len() {
            assert(orig[src[j]] == kept_before[j]);
        }
    }
    // Nonemptiness.
    if orig.len() > 0 && !added {
        let q = choose|q: int|
            0 <= q < kept_before.len() && dominates(
                (#[trigger] kept_before[q]).0.achieved_goals@,
                result.achieved_goals@,
            );
        assert(kept_before.len() > 0);
    }
}

/// The survivors of a frontier update: every old entry the result does
/// not weakly dominate is still present, with its counts and its route.
#[verifier::spinoff_prover]
proof fn lemma_pareto_survivors(
    orig: Seq<(GoalResult, Vec<Move>)>,
    kept_before: Seq<(GoalResult, Vec<Move>)>,
    kept: Seq<(GoalResult, Vec<Move>)>,
    src: Seq<int>,
    result: GoalResult,
    path: Vec<Move>,
    added: bool,
)
    requires
        screened(orig, kept_before, src, result.achieved_goals@, !added),
        kept == if added {
            kept_before.push((result, path))
        } else {
            kept_before
        },
    ensures
        forall|k: int|
            0 <= k < orig.len() && !dominates(
                result.achieved_goals@,
                (#[trigger] orig[k]).0.achieved_goals@,
            ) ==> exists|j: int|
                0 <= j < kept.len() && (#[trigger] kept[j]).0.achieved_goals@
                    == orig[k].0.achieved_goals@ && kept[j].1@ == orig[k].1@,
{
    reveal(screened);
    assert forall|k: int|
        0 <= k < orig.len() && !dominates(
            result.achieved_goals@,
            (#[trigger] orig[k]).0.achieved_goals@,
        ) implies exists|j: int|
        0 <= j < kept.len() && (#[trigger] kept[j]).0.achieved_goals@ == orig[k].0.achieved_goals@
            && kept[j].1@ == orig[k].1@ by {
        let j0 = choose|j0: int| 0 <= j0 < kept_before.len() && kept_before[j0] == orig[k];
        assert(kept[j0].0.achieved_goals@ == orig[k].0.achieved_goals@ && kept[j0].1@
            == orig[k].1@);
    }
}

/// The addition test of a frontier update: the result joined exactly when
/// no old entry strictly preceded it (dominated it without being dominated
/// back).
#[verifier::spinoff_prover]
proof fn lemma_pareto_addition(
    orig: Seq<(GoalResult, Vec<Move>)>,
    kept_before: Seq<(GoalResult, Vec<Move>)>,
    src: Seq<int>,
    result: GoalResult,
    added: bool,
)
    requires
        screened(orig, kept_before, src, result.achieved_goals@, !added),
    ensures
        added == !(exists|k: int|
            0 <= k < orig.len() && dominates(
                (#[trigger] orig[k]).0.achieved_goals@,
                result.achieved_goals@,
            ) && !dominates(result.achieved_goals@, orig[k].0.achieved_goals@)),
{
    reveal(screened);
    if !added {
        let q = choose|q: int|
            0 <= q < kept_before.len() && dominates(
                (#[trigger] kept_before[q]).0.achieved_goals@,
                result.achieved_goals@,
            );
        assert(orig[src[q]] == kept_before[q]);
        assert(dominates(orig[src[q]].0.achieved_goals@, result.achieved_goals@) && !dominates(
            result.achieved_goals@,
            orig[src[q]].0.achieved_goals@,
        ));
    } else {
        if exists|k: int|
            0 <= k < orig.len() && dominates(
                (#[trigger] orig[k]).0.achieved_goals@,
                result.achieved_goals@,
            ) && !dominates(result.achieved_goals@, orig[k].0.achieved_goals@) {
            let k = choose|k: int|
                0 <= k < orig.len() && dominates(
                    (#[trigger] orig[k]).0.achieved_goals@,
                    result.achieved_goals@,
                ) && !dominates(result.achieved_goals@, orig[k].0.achieved_goals@);
            let j0 = choose|j0: int| 0 <= j0 < kept_before.len() && kept_before[j0] == orig[k];
            assert(dominates(kept_before[j0].0.achieved_goals@, result.achieved_goals@));
            assert(false);
        }
    }
}

/// The coverage of a frontier update: the new result and every old entry
/// stay weakly dominated by some entry of the updated frontier.
#[verifier::spinoff_prover]
proof fn lemma_pareto_coverage(
    orig: Seq<(GoalResult, Vec<Move>)>,
    kept_before: Seq<(GoalResult, Vec<Move>)>,
    kept: Seq<(GoalResult, Vec<Move>)>,
    src: Seq<int>,
    result: GoalResult,
    path: Vec<Move>,
    added: bool,
)
    requires
        pareto_wf(orig, result.achieved_goals@.len() as int),
        screened(orig, kept_before, src, result.achieved_goals@, !added),
        kept == if added {
            kept_before.push((result, path))
        } else {
            kept_before
        },
    ensures
        result_covered(kept, result.achieved_goals@),
        forall|k: int|
            0 <= k < orig.len() ==> result_covered(kept, (#[trigger] orig[k]).0.achieved_goals@),
{
    reveal(screened);
    let glen = result.achieved_goals@.len() as int;
    assert forall|q: int| 0 <= q < kept_before.len() implies (
    #[trigger] kept_before[q]).0.achieved_goals@.len() == glen by {
        assert(orig[src[q]] == kept_before[q]);
    }
    if added {
        crate::goal_result::lemma_dominates_reflexive(result.achieved_goals@);
        assert(dominates(kept[kept.len() - 1].0.achieved_goals@, result.achieved_goals@));
    } else {
        let q = choose|q: int|
            0 <= q < kept_before.len() && dominates(
                (#[trigger] kept_before[q]).0.achieved_goals@,
                result.achieved_goals@,
            );
        assert(dominates(kept[q].0.achieved_goals@, result.achieved_goals@));
    }
    assert forall|k: int| 0 <= k < orig.len() implies result_covered(
        kept,
        (#[trigger] orig[k]).0.achieved_goals@,
    ) by {
        if dominates(result.achieved_goals@, orig[k].0.achieved_goals@) {
            let jr = choose|j: int|
                0 <= j < kept.len() && dominates(
                    (#[trigger] kept[j]).0.achieved_goals@,
                    result.achieved_goals@,
                );
            crate::goal_result::lemma_dominates_transitive(
                kept[jr].0.achieved_goals@,
                result.achieved_goals@,
                orig[k].0.achieved_goals@,
            );
        } else {
            let j0 = choose|j0: int| 0 <= j0 < kept_before.len() && kept_before[j0] == orig[k];
            crate::goal_result::lemma_dominates_reflexive(orig[k].0.achieved_goals@);
            assert(dominates(kept[j0].0.achieved_goals@, orig[k].0.achieved_goals@));
        }
    }
}

/// The retention pass and the addition test of a frontier update: drops
/// every entry the result weakly dominates (keeping the order) and answers
/// whether a surviving entry weakly dominates the result. The ghost result
/// names where each survivor stood.
fn pareto_screen(max_scores: &mut SolverResult, result: &GoalResult) -> (r: (bool, Ghost<Seq<int>>))
    requires
        pareto_wf(old(max_scores)@, result.achieved_goals@.len() as int),
    ensures
        screened(old(max_scores)@, final(max_scores)@, r.1@, result.achieved_goals@, r.0),
{
    let ghost glen = result.achieved_goals@.len() as int;
    let ghost orig = max_scores@;

    // Drain the frontier, twice reversed, so entries keep their order and
    // move without being copied.
    let mut reversed: SolverResult = Vec::new();
    while max_scores.len() > 0
        invariant
            reversed@.len() + max_scores@.len() == orig.len(),
            max_scores@ == orig.subrange(0, max_scores@.len() as int),
            forall|j: int|
                0 <= j < reversed@.len() ==> #[trigger] reversed@[j] == orig[orig.len() - 1 - j],
        decreases max_scores@.len(),
    {
        let e = max_scores.pop().unwrap();
        proof {
            assert(e == orig[max_scores@.len() as int]);
            assert(max_scores@ =~= orig.subrange(0, max_scores@.len() as int));
        }
        reversed.push(e);
    }

    // Keep only the entries the new result does not weakly dominate.
    let mut kept: SolverResult = Vec::new();
    let ghost mut src: Seq<int> = Seq::empty();
    while reversed.len() > 0
        invariant
            reversed@.len() <= orig.len(),
            glen == result.achieved_goals@.len(),
            pareto_wf(orig, glen),
            forall|j: int|
                0 <= j < reversed@.len() ==> #[trigger] reversed@[j] == orig[orig.len() - 1 - j],
            src.len() == kept@.len(),
            forall|j: int|
                0 <= j < src.len() ==> 0 <= #[trigger] src[j] < orig.len() - reversed@.len()
                    && orig[src[j]] == kept@[j] && !dominates(
                    result.achieved_goals@,
                    orig[src[j]].0.achieved_goals@,
                ),
            forall|j1: int, j2: int| 0 <= j1 < j2 < src.len() ==> src[j1] < src[j2],
            forall|k: int|
                0 <= k < orig.len() - reversed@.len() && !dominates(
                    result.achieved_goals@,
                    (#[trigger] orig[k]).0.achieved_goals@,
                ) ==> exists|j: int| 0 <= j < kept@.len() && kept@[j] == orig[k],
        decreases reversed@.len(),
    {
        let e = reversed.pop().unwrap();
        let ghost i = orig.len() - 1 - reversed@.len();
        proof {
            assert(e == orig[i]);
        }
        let ghost kept0 = kept@;
        if !result.is_strictly_better(&e.0) {
            proof {
                src = src.push(i);
            }
            kept.push(e);
            proof {
                assert forall|j1: int, j2: int| 0 <= j1 < j2 < src.len() implies src[j1]
                    < src[j2] by {
                    if j2 == src.len() - 1 {
                        assert(src[j1] < i);
                    }
                }
                assert(kept@[kept@.len() - 1] == orig[i]);
                assert forall|k: int|
                    0 <= k <= i && !dominates(
                        result.achieved_goals@,
                        (#[trigger] orig[k]).0.achieved_goals@,
                    ) implies exists|j: int| 0 <= j < kept@.len() && kept@[j] == orig[k] by {
                    if k < i {
                        let j0 = choose|j0: int| 0 <= j0 < kept0.len() && kept0[j0] == orig[k];
                        assert(kept@[j0] == orig[k]);
                    } else {
                        assert(kept@[kept@.len() - 1] == orig[k]);
                    }
                }
            }
        }
    }
    proof {
        assert forall|q: int| 0 <= q < kept@.len() implies (
        #[trigger] kept@[q]).0.achieved_goals@.len() == glen by {
            assert(orig[src[q]] == kept@[q]);
            assert(orig[src[q]].0.achieved_goals@.len() == glen);
        }
    }

    let mut dominated = false;
    let mut j: usize = 0;
    let klen = kept.len();
    while j < klen
        invariant
            j <= klen,
            klen == kept@.len(),
            glen == result.achieved_goals@.len(),
            forall|q: int|
                0 <= q < kept@.len() ==> (#[trigger] kept@[q]).0.achieved_goals@.len() == glen,
            dominated == exists|q: int|
                0 <= q < j && dominates(
                    (#[trigger] kept@[q]).0.achieved_goals@,
                    result.achieved_goals@,
                ),
        decreases klen - j,
    {
        if kept[j].0.is_strictly_better(result) {
            dominated = true;
        }
        proof {
            if !dominated {
                assert forall|q: int|
                    0 <= q < j + 1 implies !dominates(
                    (#[trigger] kept@[q]).0.achieved_goals@,
                    result.achieved_goals@,
                ) by {}
            }
        }
        j += 1;
    }
    *max_scores = kept;
    proof {
        reveal(screened);
        assert(screened(orig, max_scores@, src, result.achieved_goals@, dominated));
    }
    (dominated, Ghost(src))
}

/// Updates the Pareto frontier with a new result: entries the result
/// weakly dominates are dropped, every other entry survives, and the
/// result joins the frontier exactly when no old entry strictly precedes
/// it (dominates it without being dominated back). The frontier stays free
/// of any pair where one entry weakly dominates the other, and everything
/// it ever dominated stays dominated.
#[verifier::rlimit(100)]
#[verifier::spinoff_prover]
pub fn pareto_insert(max_scores: &mut SolverResult, result: GoalResult, path: Vec<Move>) -> (added:
    bool)
    requires
        pareto_wf(old(max_scores)@, result.achieved_goals@.len() as int),
    ensures
        pareto_wf(final(max_scores)@, result.achieved_goals@.len() as int),
        forall|j: int|
            0 <= j < final(max_scores)@.len() ==> ((#[trigger] final(max_scores)@[j]) == (
            result,
            path,
            ) || exists|k: int|
                0 <= k < old(max_scores)@.len() && old(max_scores)@[k] == final(max_scores)@[j]),
        added ==> final(max_scores)@.len() > 0 && final(max_scores)@.last() == (result, path),
        forall|k: int|
            0 <= k < old(max_scores)@.len() && !dominates(
                result.achieved_goals@,
                (#[trigger] old(max_scores)@[k]).0.achieved_goals@,
            ) ==> exists|j: int|
                0 <= j < final(max_scores)@.len() && (#[trigger] final(max_scores)@[j]).0.achieved_goals@
                    == old(max_scores)@[k].0.achieved_goals@ && final(max_scores)@[j].1@
                    == old(max_scores)@[k].1@,
        added == !(exists|k: int|
            0 <= k < old(max_scores)@.len() && dominates(
                (#[trigger] old(max_scores)@[k]).0.achieved_goals@,
                result.achieved_goals@,
            ) && !dominates(result.achieved_goals@, old(max_scores)@[k].0.achieved_goals@)),
        result_covered(final(max_scores)@, result.achieved_goals@),
        forall|k: int|
            0 <= k < old(max_scores)@.len() ==> result_covered(
                final(max_scores)@,
                (#[trigger] old(max_scores)@[k]).0.achieved_goals@,
            ),
        old(max_scores)@.len() > 0 ==> final(max_scores)@.len() > 0,
{
    let ghost orig = max_scores@;
    let ghost resultg = result;
    let ghost pathg = path;
    let (dominated, src) = pareto_screen(max_scores, &result);
    let ghost kept_before = max_scores@;
    let added = !dominated;
    if added {
        max_scores.push((result, path));
    }
    proof {
        let glen = resultg.achieved_goals@.len() as int;
        assert(pareto_wf(max_scores@, glen)) by {
            lemma_pareto_insert_post(orig, kept_before, max_scores@, src@, resultg, pathg, added);
        }
        assert(forall|j: int|
            0 <= j < max_scores@.len() ==> ((#[trigger] max_scores@[j]) == (resultg, pathg)
                || exists|k: int| 0 <= k < orig.len() && orig[k] == max_scores@[j])) by {
            lemma_pareto_insert_post(orig, kept_before, max_scores@, src@, resultg, pathg, added);
        }
        assert(added ==> max_scores@.len() > 0 && max_scores@.last() == (resultg, pathg)) by {
            lemma_pareto_insert_post(orig, kept_before, max_scores@, src@, resultg, pathg, added);
        }
        assert(orig.len() > 0 ==> max_scores@.len() > 0) by {
            lemma_pareto_insert_post(orig, kept_before, max_scores@, src@, resultg, pathg, added);
        }
        assert(forall|k: int|
            0 <= k < orig.len() && !dominates(
                resultg.achieved_goals@,
                (#[trigger] orig[k]).0.achieved_goals@,
            ) ==> exists|j: int|
                0 <= j < max_scores@.len() && (#[trigger] max_scores@[j]).0.achieved_goals@
                    == orig[k].0.achieved_goals@ && max_scores@[j].1@ == orig[k].1@) by {
            lemma_pareto_survivors(orig, kept_before, max_scores@, src@, resultg, pathg, added);
        }
        assert(added == !(exists|k: int|
            0 <= k < orig.len() && dominates(
                (#[trigger] orig[k]).0.achieved_goals@,
                resultg.achieved_goals@,
            ) && !dominates(resultg.achieved_goals@, orig[k].0.achieved_goals@))) by {
            lemma_pareto_addition(orig, kept_before, src@, resultg, added);
        }
        assert(result_covered(max_scores@, resultg.achieved_goals@) && forall|k: int|
            0 <= k < orig.len() ==> result_covered(
                max_scores@,
                (#[trigger] orig[k]).0.achieved_goals@,
            )) by {
            lemma_pareto_coverage(orig, kept_before, max_scores@, src@, resultg, pathg, added);
        }
    }
    added
}


/// The total number of materials of well-formed groups is at most the
/// group limit times the group size limit.
pub proof fn lemma_total_materials_bound(groups: Seq<Seq<Material>>, n: int)
    requires
        material_groups_wf(groups),
        0 <= n <= groups.len(),
    ensures
        0 <= total_materials(groups, n) <= 5 * n,
    decreases n,
{
    if n > 0 {
        lemma_total_materials_bound(groups, n - 1);
    }
}

/// A route's validity reads only the entry's achievement counts and its
/// move sequence: entries with equal views are equally valid.
proof fn lemma_route_valid_views(
    c0: Cauldron,
    groups: Seq<Seq<Material>>,
    goals: Seq<Goal>,
    allow_overlap: bool,
    a: (GoalResult, Vec<Move>),
    b: (GoalResult, Vec<Move>),
)
    requires
        route_valid(c0, groups, goals, allow_overlap, a),
        a.0.achieved_goals@ == b.0.achieved_goals@,
        a.1@ == b.1@,
    ensures
        route_valid(c0, groups, goals, allow_overlap, b),
{
}

/// A leaf of the search: score the finished board, update the Pareto
/// frontier, and signal an early exit when every threshold of every goal
/// is met.
fn check_end_of_path(
    playfield: &Cauldron,
    materials: &Vec<Vec<Material>>,
    goals: &Vec<Goal>,
    path: Vec<Move>,
    score_sets: &Vec<ColorScoreSet>,
    max_scores: &mut SolverResult,
    Ghost(c0): Ghost<Cauldron>,
    Ghost(allow): Ghost<bool>,
) -> (cont: bool)
    requires
        playfield.wf(),
        material_groups_wf(groups_view(materials@)),
        goals@.len() == materials@.len(),
        tiles_compatible(playfield.tiles@, groups_view(materials@)),
        score_sets@.len() == materials@.len(),
        forall|g: int|
            0 <= g < score_sets@.len() ==> (#[trigger] score_sets@[g]).bounded(RAW_SCORE_CAP as int),
        c0.size == playfield.size,
        c0.bonus_scores == playfield.bonus_scores,
        c0.tiles@.len() == playfield.tiles@.len(),
        path@.len() == total_materials(groups_view(materials@), materials@.len() as int),
        path_wf(path@, groups_view(materials@)),
        replay(
            c0.tiles@,
            zero_scores(materials@.len() as nat),
            c0.size as int,
            c0.bonus_scores,
            groups_view(materials@),
            allow,
            path@,
            path@.len() as int,
        ) == Some((playfield.tiles@, scores_view(score_sets@))),
        pareto_wf(old(max_scores)@, goals@.len() as int),
        forall|j: int|
            0 <= j < old(max_scores)@.len() ==> route_valid(
                c0,
                groups_view(materials@),
                goals@,
                allow,
                #[trigger] old(max_scores)@[j],
            ),
    ensures
        pareto_wf(final(max_scores)@, goals@.len() as int),
        forall|j: int|
            0 <= j < final(max_scores)@.len() ==> route_valid(
                c0,
                groups_view(materials@),
                goals@,
                allow,
                #[trigger] final(max_scores)@[j],
            ),
        result_covered(
            final(max_scores)@,
            leaf_result(c0, groups_view(materials@), goals@, allow, path@),
        ),
        forall|k: int|
            0 <= k < old(max_scores)@.len() ==> result_covered(
                final(max_scores)@,
                (#[trigger] old(max_scores)@[k]).0.achieved_goals@,
            ),
        cont == !(is_perfect(
            leaf_result(c0, groups_view(materials@), goals@, allow, path@),
            goals@,
        ) && !(exists|k: int|
            0 <= k < old(max_scores)@.len() && dominates(
                (#[trigger] old(max_scores)@[k]).0.achieved_goals@,
                leaf_result(c0, groups_view(materials@), goals@, allow, path@),
            ) && !dominates(
                leaf_result(c0, groups_view(materials@), goals@, allow, path@),
                old(max_scores)@[k].0.achieved_goals@,
            ))),
        !cont ==> exists|j: int|
            0 <= j < final(max_scores)@.len() && is_perfect(
                (#[trigger] final(max_scores)@[j]).0.achieved_goals@,
                goals@,
            ),
        old(max_scores)@.len() > 0 ==> final(max_scores)@.len() > 0,
{
    let ghost groups = groups_view(materials@);
    let scores = playfield.calculate_final_score(materials, score_sets);
    let current_results = GoalResult::from_scores(&scores, goals);
    proof {
        assert forall|g: int| 0 <= g < goals@.len() implies #[trigger] current_results.achieved_goals@[g]
            == count_met(
            goals@[g].effect_value_thresholds@,
            replayed_group_score(c0, groups, allow, path@, g) as u32,
            goals@[g].effect_value_thresholds@.len() as int,
        ) by {
            assert(scores_view(score_sets@)[g] == score_sets@[g].scores@);
            assert(replayed_group_score(c0, groups, allow, path@, g) == scores@[g]);
        }
        assert(route_valid(c0, groups, goals@, allow, (current_results, path)));
        assert forall|g: int| 0 <= g < goals@.len() implies 0 <= #[trigger] count_met(
            goals@[g].effect_value_thresholds@,
            replayed_group_score(c0, groups, allow, path@, g) as u32,
            goals@[g].effect_value_thresholds@.len() as int,
        ) <= goals@[g].effect_value_thresholds@.len() by {
            crate::goal_result::lemma_count_met_bounds(
                goals@[g].effect_value_thresholds@,
                replayed_group_score(c0, groups, allow, path@, g) as u32,
                goals@[g].effect_value_thresholds@.len() as int,
            );
        }
        assert(current_results.achieved_goals@ =~= leaf_result(c0, groups, goals@, allow, path@));
    }

    let mut perfect = true;
    let mut g: usize = 0;
    while g < goals.len()
        invariant
            g <= goals@.len(),
            current_results.achieved_goals@.len() == goals@.len(),
            perfect == forall|gi: int|
                0 <= gi < g ==> #[trigger] current_results.achieved_goals@[gi]
                    == goals@[gi].effect_value_thresholds@.len(),
        decreases goals@.len() - g,
    {
        if current_results.achieved_goals[g] != goals[g].effect_value_thresholds.len() {
            perfect = false;
        }
        proof {
            if perfect {
                assert forall|gi: int|
                    0 <= gi < g + 1 implies #[trigger] current_results.achieved_goals@[gi]
                    == goals@[gi].effect_value_thresholds@.len() by {}
            }
        }
        g += 1;
    }

    let ghost entry = (current_results, path);
    let ghost before = max_scores@;
    let added = pareto_insert(max_scores, current_results, path);
    proof {
        assert forall|j: int| 0 <= j < max_scores@.len() implies route_valid(
            c0,
            groups,
            goals@,
            allow,
            #[trigger] max_scores@[j],
        ) by {
            if max_scores@[j] != entry {
                let k = choose|k: int| 0 <= k < before.len() && before[k] == max_scores@[j];
                assert(route_valid(c0, groups, goals@, allow, before[k]));
            } else {
                lemma_route_valid_views(c0, groups, goals@, allow, entry, max_scores@[j]);
            }
        }
    }
    proof {
        let lr = leaf_result(c0, groups, goals@, allow, path@);
        assert(entry.0.achieved_goals@ == lr);
        assert(perfect == is_perfect(lr, goals@));
        if added && perfect {
            assert(max_scores@.last().0.achieved_goals@ == lr);
            assert(is_perfect(max_scores@.last().0.achieved_goals@, goals@));
        }
    }
    if added && perfect {
        // A perfect score: every threshold of every goal is met, so the
        // search can stop.
        return false;
    }
    true
}

/// One level of the exhaustive enumeration: try every unused material,
/// every allowed transformation and every board position, recursing on
/// each successful placement.
#[verifier::loop_isolation(false)]
#[verifier::rlimit(100)]
fn find_optimal_recursive<R: ProgressReporter>(
    playfield: &Cauldron,
    materials: &Vec<Vec<Material>>,
    goals: &Vec<Goal>,
    properties: &SolverSettings,
    progress_tracker: &mut ProgressTracker<R>,
    path: Vec<Move>,
    score_sets: Vec<ColorScoreSet>,
    max_scores: &mut SolverResult,
    Ghost(c0): Ghost<Cauldron>,
) -> (cont: bool)
    requires
        playfield.wf(),
        material_groups_wf(groups_view(materials@)),
        goals@.len() == materials@.len(),
        tiles_compatible(playfield.tiles@, groups_view(materials@)),
        score_sets@.len() == materials@.len(),
        forall|g: int, ci: int|
            0 <= g < score_sets@.len() && 0 <= ci < 5 ==> (#[trigger] score_sets@[g].scores@[ci])
                <= path@.len() * MAX_PLACE_SCORE,
        c0.size == playfield.size,
        c0.bonus_scores == playfield.bonus_scores,
        c0.color == playfield.color,
        c0.properties == playfield.properties,
        c0.tiles@.len() == playfield.tiles@.len(),
        path_wf(path@, groups_view(materials@)),
        path@.len() <= total_materials(groups_view(materials@), materials@.len() as int),
        replay(
            c0.tiles@,
            zero_scores(materials@.len() as nat),
            c0.size as int,
            c0.bonus_scores,
            groups_view(materials@),
            properties.allow_overlaps,
            path@,
            path@.len() as int,
        ) == Some((playfield.tiles@, scores_view(score_sets@))),
        pareto_wf(old(max_scores)@, goals@.len() as int),
        forall|j: int|
            0 <= j < old(max_scores)@.len() ==> route_valid(
                c0,
                groups_view(materials@),
                goals@,
                properties.allow_overlaps,
                #[trigger] old(max_scores)@[j],
            ),
        old(progress_tracker).stack_wf(),
        forall|i: int|
            0 <= i < old(progress_tracker).progress_stack@.len() ==> (
            #[trigger] old(progress_tracker).progress_stack@[i]).1 >= 1,
        old(progress_tracker).progress_stack@.len() + 3 * (total_materials(
            groups_view(materials@),
            materials@.len() as int,
        ) - path@.len()) <= 64,
    ensures
        pareto_wf(final(max_scores)@, goals@.len() as int),
        forall|j: int|
            0 <= j < final(max_scores)@.len() ==> route_valid(
                c0,
                groups_view(materials@),
                goals@,
                properties.allow_overlaps,
                #[trigger] final(max_scores)@[j],
            ),
        old(max_scores)@.len() > 0 ==> final(max_scores)@.len() > 0,
        forall|k: int|
            0 <= k < old(max_scores)@.len() ==> result_covered(
                final(max_scores)@,
                (#[trigger] old(max_scores)@[k]).0.achieved_goals@,
            ),
        (final(progress_tracker).progress_reporter is None) == (old(
            progress_tracker,
        ).progress_reporter is None),
        !cont && old(progress_tracker).progress_reporter is None ==> exists|j: int|
            0 <= j < final(max_scores)@.len() && is_perfect(
                (#[trigger] final(max_scores)@[j]).0.achieved_goals@,
                goals@,
            ),
        cont ==> forall|m: Seq<Move>|
            #[trigger] canonical_completion(
                m,
                path@,
                c0,
                groups_view(materials@),
                properties.allow_overlaps,
                properties.transformations,
            ) ==> completion_covered(
                final(max_scores)@,
                c0,
                groups_view(materials@),
                goals@,
                properties.allow_overlaps,
                m,
            ),
        cont ==> final(progress_tracker).progress_stack@ == old(
            progress_tracker,
        ).progress_stack@ && final(progress_tracker).stack_wf(),
    decreases total_materials(groups_view(materials@), materials@.len() as int) - path@.len(),
{
    let ghost groups = groups_view(materials@);
    let ghost total = total_materials(groups, materials@.len() as int);
    let ghost allow = properties.allow_overlaps;
    proof {
        lemma_total_materials_bound(groups, materials@.len() as int);
        crate::cauldron::lemma_board_total(playfield.size as int);
    }

    let mut material_count: usize = 0;
    let mut gi: usize = 0;
    while gi < materials.len()
        invariant
            gi <= materials@.len(),
            material_count == total_materials(groups, gi as int),
            material_count <= 5 * gi,
        decreases materials@.len() - gi,
    {
        proof {
            assert(groups[gi as int] == materials@[gi as int]@);
            lemma_total_materials_bound(groups, gi + 1);
        }
        material_count += materials[gi].len();
        gi += 1;
    }

    let current_depth = path.len();
    if current_depth == material_count {
        let ghost path_view = path@;
        let cont = check_end_of_path(
            playfield,
            materials,
            goals,
            path,
            &score_sets,
            max_scores,
            Ghost(c0),
            Ghost(allow),
        );
        proof {
            // The only canonical completion of a full path is the path
            // itself, whose leaf the frontier now covers.
            assert forall|m: Seq<Move>|
                #[trigger] canonical_completion(
                    m,
                    path_view,
                    c0,
                    groups,
                    allow,
                    properties.transformations,
                ) implies completion_covered(max_scores@, c0, groups, goals@, allow, m) by {
                assert(m.len() == path_view.len());
                assert(m =~= path_view);
            }
        }
        return cont;
    }

    proof {
        assert(path@.len() < total);
    }
    progress_tracker.start_loop(material_count - current_depth);
    let ghost base = old(progress_tracker).progress_stack@;
    proof {
        assert(progress_tracker.progress_stack@.drop_last() =~= base);
        assert forall|k: int| 0 <= k < old(max_scores)@.len() implies result_covered(
            max_scores@,
            (#[trigger] old(max_scores)@[k]).0.achieved_goals@,
        ) by {
            crate::goal_result::lemma_dominates_reflexive(old(max_scores)@[k].0.achieved_goals@);
            assert(dominates(
                max_scores@[k].0.achieved_goals@,
                old(max_scores)@[k].0.achieved_goals@,
            ));
        }
    }

    let mut group_index: usize = 0;
    while group_index < materials.len()
        invariant
            group_index <= materials@.len(),
            progress_tracker.stack_wf(),
            forall|i: int|
                0 <= i < progress_tracker.progress_stack@.len() ==> (
                #[trigger] progress_tracker.progress_stack@[i]).1 >= 1,
            progress_tracker.progress_stack@.len() == base.len() + 1,
            progress_tracker.progress_stack@.drop_last() == base,
            progress_tracker.progress_stack@.last().1 == material_count - current_depth,
            progress_tracker.progress_stack@.last().0 <= 5 * group_index,
            pareto_wf(max_scores@, goals@.len() as int),
            old(max_scores)@.len() > 0 ==> max_scores@.len() > 0,
            (progress_tracker.progress_reporter is None) == (old(
                progress_tracker,
            ).progress_reporter is None),
            forall|k: int|
                0 <= k < old(max_scores)@.len() ==> result_covered(
                    max_scores@,
                    (#[trigger] old(max_scores)@[k]).0.achieved_goals@,
                ),
            forall|j: int|
                0 <= j < max_scores@.len() ==> route_valid(
                    c0,
                    groups,
                    goals@,
                    allow,
                    #[trigger] max_scores@[j],
                ),
            forall|m: Seq<Move>|
                #[trigger] canonical_completion(m, path@, c0, groups, allow, properties.transformations)
                    && m[path@.len() as int].material_index.0 < group_index
                    ==> completion_covered(max_scores@, c0, groups, goals@, allow, m),
        decreases materials@.len() - group_index,
    {
        let group_len = materials[group_index].len();
        let mut material_index: usize = 0;
        while material_index < group_len
            invariant
                group_index < materials@.len(),
                material_index <= group_len,
                group_len == materials@[group_index as int]@.len(),
                progress_tracker.stack_wf(),
                forall|i: int|
                    0 <= i < progress_tracker.progress_stack@.len() ==> (
                    #[trigger] progress_tracker.progress_stack@[i]).1 >= 1,
                progress_tracker.progress_stack@.len() == base.len() + 1,
                progress_tracker.progress_stack@.drop_last() == base,
                progress_tracker.progress_stack@.last().1 == material_count - current_depth,
                progress_tracker.progress_stack@.last().0 <= 5 * group_index + material_index,
                pareto_wf(max_scores@, goals@.len() as int),
                old(max_scores)@.len() > 0 ==> max_scores@.len() > 0,
                (progress_tracker.progress_reporter is None) == (old(
                progress_tracker,
            ).progress_reporter is None),
            forall|k: int|
                0 <= k < old(max_scores)@.len() ==> result_covered(
                    max_scores@,
                    (#[trigger] old(max_scores)@[k]).0.achieved_goals@,
                ),
                forall|j: int|
                    0 <= j < max_scores@.len() ==> route_valid(
                        c0,
                        groups,
                        goals@,
                        allow,
                        #[trigger] max_scores@[j],
                    ),
                forall|m: Seq<Move>|
                    #[trigger] canonical_completion(m, path@, c0, groups, allow, properties.transformations)
                        && (m[path@.len() as int].material_index.0 < group_index || (m[path@.len() as int].material_index.0
                        == group_index && m[path@.len() as int].material_index.1 < material_index))
                        ==> completion_covered(max_scores@, c0, groups, goals@, allow, m),
            decreases group_len - material_index,
        {
            let mut used = false;
            let mut pi: usize = 0;
            while pi < path.len()
                invariant
                    pi <= path@.len(),
                    used == exists|q: int|
                        0 <= q < pi && (#[trigger] path@[q]).material_index == (
                        group_index,
                        material_index,
                        ),
                decreases path@.len() - pi,
            {
                let mv = &path[pi];
                if mv.material_index.0 == group_index && mv.material_index.1 == material_index {
                    used = true;
                    proof {
                        assert(path@[pi as int].material_index == (group_index, material_index));
                    }
                }
                pi += 1;
            }
            if !used {
                if !progress_tracker.report_progress(max_scores) {
                    return false;
                }
                let transformations = generate_transformations(
                    materials[group_index][material_index].shape,
                    properties.transformations,
                );
                let ghost base2 = progress_tracker.progress_stack@;
                progress_tracker.start_loop(transformations.len());
                let mut t: usize = 0;
                while t < transformations.len()
                    invariant
                        t <= transformations@.len(),
                        1 <= transformations@.len() <= 4,
                        progress_tracker.stack_wf(),
                        forall|i: int|
                            0 <= i < progress_tracker.progress_stack@.len() ==> (
                            #[trigger] progress_tracker.progress_stack@[i]).1 >= 1,
                        progress_tracker.progress_stack@.len() == base2.len() + 1,
                        progress_tracker.progress_stack@.drop_last() == base2,
                        progress_tracker.progress_stack@.last().1 == transformations@.len(),
                        progress_tracker.progress_stack@.last().0 == t,
                        pareto_wf(max_scores@, goals@.len() as int),
                        old(max_scores)@.len() > 0 ==> max_scores@.len() > 0,
                        (progress_tracker.progress_reporter is None) == (old(
                progress_tracker,
            ).progress_reporter is None),
            forall|k: int|
                0 <= k < old(max_scores)@.len() ==> result_covered(
                    max_scores@,
                    (#[trigger] old(max_scores)@[k]).0.achieved_goals@,
                ),
                        forall|j: int|
                            0 <= j < max_scores@.len() ==> route_valid(
                                c0,
                                groups,
                                goals@,
                                allow,
                                #[trigger] max_scores@[j],
                            ),
                        forall|m: Seq<Move>|
                            #[trigger] canonical_completion(m, path@, c0, groups, allow, properties.transformations)
                                && (m[path@.len() as int].material_index.0 < group_index || (m[path@.len() as int].material_index.0
                                == group_index && m[path@.len() as int].material_index.1 < material_index))
                                ==> completion_covered(max_scores@, c0, groups, goals@, allow, m),
                        forall|m: Seq<Move>|
                            #[trigger] canonical_completion(m, path@, c0, groups, allow, properties.transformations)
                                && m[path@.len() as int].material_index == (group_index, material_index)
                                && (exists|t2: int|
                                0 <= t2 < t && transformations@[t2] == m[path@.len() as int].placement.transformation)
                                ==> completion_covered(max_scores@, c0, groups, goals@, allow, m),
                    decreases transformations@.len() - t,
                {
                    if !progress_tracker.report_progress(max_scores) {
                        return false;
                    }
                    let ghost base3 = progress_tracker.progress_stack@;
                    progress_tracker.start_loop(playfield.tiles.len());
                    let mut index: usize = 0;
                    while index < playfield.tiles.len()
                        invariant
                            index <= playfield.tiles@.len(),
                            progress_tracker.stack_wf(),
                            forall|i: int|
                                0 <= i < progress_tracker.progress_stack@.len() ==> (
                                #[trigger] progress_tracker.progress_stack@[i]).1 >= 1,
                            progress_tracker.progress_stack@.len() == base3.len() + 1,
                            progress_tracker.progress_stack@.drop_last() == base3,
                            progress_tracker.progress_stack@.last().1 == playfield.tiles@.len(),
                            progress_tracker.progress_stack@.last().0 == index,
                            pareto_wf(max_scores@, goals@.len() as int),
                            old(max_scores)@.len() > 0 ==> max_scores@.len() > 0,
                            (progress_tracker.progress_reporter is None) == (old(
                progress_tracker,
            ).progress_reporter is None),
            forall|k: int|
                0 <= k < old(max_scores)@.len() ==> result_covered(
                    max_scores@,
                    (#[trigger] old(max_scores)@[k]).0.achieved_goals@,
                ),
                            forall|j: int|
                                0 <= j < max_scores@.len() ==> route_valid(
                                    c0,
                                    groups,
                                    goals@,
                                    allow,
                                    #[trigger] max_scores@[j],
                                ),
                            forall|m: Seq<Move>|
                                #[trigger] canonical_completion(m, path@, c0, groups, allow, properties.transformations)
                                    && (m[path@.len() as int].material_index.0 < group_index || (m[path@.len() as int].material_index.0
                                    == group_index && m[path@.len() as int].material_index.1 < material_index))
                                    ==> completion_covered(max_scores@, c0, groups, goals@, allow, m),
                            forall|m: Seq<Move>|
                                #[trigger] canonical_completion(m, path@, c0, groups, allow, properties.transformations)
                                    && m[path@.len() as int].material_index == (group_index, material_index)
                                    && (exists|t2: int|
                                    0 <= t2 < t && transformations@[t2] == m[path@.len() as int].placement.transformation)
                                    ==> completion_covered(max_scores@, c0, groups, goals@, allow, m),
                            forall|m: Seq<Move>|
                                #[trigger] canonical_completion(m, path@, c0, groups, allow, properties.transformations)
                                    && m[path@.len() as int].material_index == (group_index, material_index)
                                    && m[path@.len() as int].placement.transformation == transformations@[t as int]
                                    && m[path@.len() as int].placement.index < index
                                    ==> completion_covered(max_scores@, c0, groups, goals@, allow, m),
                        decreases playfield.tiles@.len() - index,
                    {
                        if !progress_tracker.report_progress(max_scores) {
                            return false;
                        }
                        let ghost frontier0 = max_scores@;
                        let placement = Placement::new(index, transformations[t]);
                        let mv = Move { material_index: (group_index, material_index), placement };
                        let mut new_path = dup_moves(&path);
                        new_path.push(mv);
                        let mut new_playfield = playfield.duplicate();
                        let mut new_score_sets = dup_score_sets(&score_sets);
                        proof {
                            assert(groups[group_index as int] == materials@[group_index as int]@);
                            assert forall|g2: int|
                                0 <= g2 < score_sets@.len() implies (
                            #[trigger] score_sets@[g2]).bounded(RAW_SCORE_CAP as int) by {
                                assert forall|ci: int| 0 <= ci < 5 implies
                                    #[trigger] score_sets@[g2].scores@[ci] <= RAW_SCORE_CAP
                                    as int by {
                                    assert(score_sets@[g2].scores@[ci] <= path@.len()
                                        * MAX_PLACE_SCORE);
                                    assert(path@.len() * MAX_PLACE_SCORE <= 20 * MAX_PLACE_SCORE)
                                        by (nonlinear_arith)
                                        requires
                                            0 <= path@.len() <= 20,
                                    ;
                                }
                            }
                            assert(path@.len() <= 20) by {
                                lemma_total_materials_bound(groups, materials@.len() as int);
                            }
                        }
                        let outcome = new_playfield.place(
                            materials,
                            (group_index, material_index),
                            placement,
                            properties.allow_overlaps,
                            &mut new_score_sets,
                        );
                        if outcome.is_ok() {
                            proof {
                                let m = groups[group_index as int][material_index as int];
                                crate::cauldron::lemma_replay_prefix(
                                    c0.tiles@,
                                    zero_scores(materials@.len() as nat),
                                    c0.size as int,
                                    c0.bonus_scores,
                                    groups,
                                    allow,
                                    new_path@,
                                    path@,
                                    path@.len() as int,
                                );
                                assert(scores_view(new_score_sets@) =~~= place_scores_after(
                                    scores_view(score_sets@),
                                    playfield.tiles@,
                                    c0.size as int,
                                    c0.bonus_scores,
                                    m,
                                    placement,
                                    (group_index, material_index),
                                ));
                                assert(replay(
                                    c0.tiles@,
                                    zero_scores(materials@.len() as nat),
                                    c0.size as int,
                                    c0.bonus_scores,
                                    groups,
                                    allow,
                                    new_path@,
                                    new_path@.len() as int,
                                ) == Some((new_playfield.tiles@, scores_view(new_score_sets@))));
                                crate::cauldron::lemma_place_tiles_compat(
                                    playfield.tiles@,
                                    c0.size as int,
                                    m,
                                    placement,
                                    (group_index, material_index),
                                    groups,
                                );
                                assert forall|g2: int, ci: int|
                                    0 <= g2 < new_score_sets@.len() && 0 <= ci < 5 implies (
                                #[trigger] new_score_sets@[g2].scores@[ci]) <= new_path@.len()
                                    * MAX_PLACE_SCORE by {
                                    assert(score_sets@[g2].scores@[ci] <= path@.len()
                                        * MAX_PLACE_SCORE);
                                }
                            }
                            let cont = find_optimal_recursive(
                                &new_playfield,
                                materials,
                                goals,
                                properties,
                                progress_tracker,
                                new_path,
                                new_score_sets,
                                max_scores,
                                Ghost(c0),
                            );
                            if !cont {
                                proof {
                                    assert forall|k: int|
                                        0 <= k < old(max_scores)@.len() implies result_covered(
                                        max_scores@,
                                        (#[trigger] old(max_scores)@[k]).0.achieved_goals@,
                                    ) by {
                                        lemma_covered_monotone(
                                            frontier0,
                                            max_scores@,
                                            old(max_scores)@[k].0.achieved_goals@,
                                            goals@.len() as int,
                                        );
                                    }
                                }
                                return false;
                            }
                            proof {
                                // The move just explored heads a covered
                                // completion class now.
                                let plen = path@.len() as int;
                                assert forall|m: Seq<Move>|
                                    #[trigger] canonical_completion(
                                        m,
                                        path@,
                                        c0,
                                        groups,
                                        allow,
                                        properties.transformations,
                                    ) && m[plen].material_index == (group_index, material_index)
                                        && m[plen].placement.transformation
                                        == transformations@[t as int] && m[plen].placement.index
                                        == index implies completion_covered(
                                    max_scores@,
                                    c0,
                                    groups,
                                    goals@,
                                    allow,
                                    m,
                                ) by {
                                    assert(m[plen].placement == placement);
                                    assert(m[plen] == mv);
                                    assert(m.subrange(0, plen + 1) =~= new_path@);
                                    assert(canonical_completion(
                                        m,
                                        new_path@,
                                        c0,
                                        groups,
                                        allow,
                                        properties.transformations,
                                    ));
                                }
                            }
                        } else {
                            proof {
                                // A placement the engine rejects heads no
                                // replayable completion at all.
                                let plen = path@.len() as int;
                                let mat = groups[group_index as int][material_index as int];
                                assert forall|m: Seq<Move>|
                                    #[trigger] canonical_completion(
                                        m,
                                        path@,
                                        c0,
                                        groups,
                                        allow,
                                        properties.transformations,
                                    ) && m[plen].material_index == (group_index, material_index)
                                        && m[plen].placement.transformation
                                        == transformations@[t as int] && m[plen].placement.index
                                        == index implies completion_covered(
                                    max_scores@,
                                    c0,
                                    groups,
                                    goals@,
                                    allow,
                                    m,
                                ) by {
                                    assert(m[plen].placement == placement);
                                    assert(m[plen] == mv);
                                    assert forall|q: int| 0 <= q < plen implies m[q] == path@[q] by {
                                        assert(m.subrange(0, plen)[q] == path@[q]);
                                    }
                                    crate::cauldron::lemma_replay_prefix(
                                        c0.tiles@,
                                        zero_scores(materials@.len() as nat),
                                        c0.size as int,
                                        c0.bonus_scores,
                                        groups,
                                        allow,
                                        m,
                                        path@,
                                        plen,
                                    );
                                    assert(replay(
                                        c0.tiles@,
                                        zero_scores(materials@.len() as nat),
                                        c0.size as int,
                                        c0.bonus_scores,
                                        groups,
                                        allow,
                                        m,
                                        plen + 1,
                                    ) is None);
                                    crate::cauldron::lemma_replay_none(
                                        c0.tiles@,
                                        zero_scores(materials@.len() as nat),
                                        c0.size as int,
                                        c0.bonus_scores,
                                        groups,
                                        allow,
                                        m,
                                        plen + 1,
                                        m.len() as int,
                                    );
                                    assert(false);
                                }
                            }
                        }
                        proof {
                            // Everything covered before this position stays
                            // covered, and the cursor advances by one tile.
                            let plen = path@.len() as int;
                            assert forall|k: int|
                                0 <= k < frontier0.len() implies result_covered(
                                max_scores@,
                                (#[trigger] frontier0[k]).0.achieved_goals@,
                            ) by {
                                if max_scores@ != frontier0 {
                                } else {
                                    crate::goal_result::lemma_dominates_reflexive(
                                        frontier0[k].0.achieved_goals@,
                                    );
                                }
                            }
                            assert forall|k: int|
                                0 <= k < old(max_scores)@.len() implies result_covered(
                                max_scores@,
                                (#[trigger] old(max_scores)@[k]).0.achieved_goals@,
                            ) by {
                                lemma_covered_monotone(
                                    frontier0,
                                    max_scores@,
                                    old(max_scores)@[k].0.achieved_goals@,
                                    goals@.len() as int,
                                );
                            }
                            assert forall|m: Seq<Move>|
                                #[trigger] canonical_completion(
                                    m,
                                    path@,
                                    c0,
                                    groups,
                                    allow,
                                    properties.transformations,
                                ) && completion_covered(
                                    frontier0,
                                    c0,
                                    groups,
                                    goals@,
                                    allow,
                                    m,
                                ) implies completion_covered(
                                max_scores@,
                                c0,
                                groups,
                                goals@,
                                allow,
                                m,
                            ) by {
                                lemma_covered_monotone(
                                    frontier0,
                                    max_scores@,
                                    leaf_result(c0, groups, goals@, allow, m),
                                    goals@.len() as int,
                                );
                            }
                        }
                        progress_tracker.bump_loop_progress();
                        proof {
                            assert(progress_tracker.progress_stack@.drop_last() =~= base3);
                        }
                        index += 1;
                    }
                    progress_tracker.end_loop();
                    progress_tracker.bump_loop_progress();
                    proof {
                        assert(progress_tracker.progress_stack@.drop_last() =~= base2);
                        // Every completion trying this transformation names a
                        // tile on the grid, so the finished tile sweep covered
                        // it; fold it into the finished-transformations class.
                        let plen = path@.len() as int;
                        assert forall|m: Seq<Move>|
                            #[trigger] canonical_completion(
                                m,
                                path@,
                                c0,
                                groups,
                                allow,
                                properties.transformations,
                            ) && m[plen].material_index == (group_index, material_index) && (exists|
                            t2: int,
                        |
                            0 <= t2 < t + 1 && transformations@[t2]
                                == m[plen].placement.transformation) implies completion_covered(
                            max_scores@,
                            c0,
                            groups,
                            goals@,
                            allow,
                            m,
                        ) by {
                            let t2 = choose|t2: int|
                                0 <= t2 < t + 1 && transformations@[t2]
                                    == m[plen].placement.transformation;
                            if t2 == t {
                                assert forall|q: int| 0 <= q < plen implies m[q] == path@[q] by {
                                    assert(m.subrange(0, plen)[q] == path@[q]);
                                }
                                crate::cauldron::lemma_replay_prefix(
                                    c0.tiles@,
                                    zero_scores(materials@.len() as nat),
                                    c0.size as int,
                                    c0.bonus_scores,
                                    groups,
                                    allow,
                                    m,
                                    path@,
                                    plen,
                                );
                                if replay(
                                    c0.tiles@,
                                    zero_scores(materials@.len() as nat),
                                    c0.size as int,
                                    c0.bonus_scores,
                                    groups,
                                    allow,
                                    m,
                                    plen + 1,
                                ) is None {
                                    crate::cauldron::lemma_replay_none(
                                        c0.tiles@,
                                        zero_scores(materials@.len() as nat),
                                        c0.size as int,
                                        c0.bonus_scores,
                                        groups,
                                        allow,
                                        m,
                                        plen + 1,
                                        m.len() as int,
                                    );
                                }
                                assert(crate::cauldron::place_ok(
                                    playfield.tiles@,
                                    c0.size as int,
                                    groups[group_index as int][material_index as int],
                                    m[plen].placement,
                                    allow,
                                ));
                                lemma_place_ok_index(
                                    playfield.tiles@,
                                    c0.size as int,
                                    groups[group_index as int][material_index as int],
                                    m[plen].placement,
                                    allow,
                                );
                                assert(m[plen].placement.index < playfield.tiles@.len());
                            }
                        }
                    }
                    t += 1;
                }
                progress_tracker.end_loop();
                progress_tracker.bump_loop_progress();
                proof {
                    assert(progress_tracker.progress_stack@.drop_last() =~= base);
                }
            }
            material_index += 1;
        }
        group_index += 1;
    }
    progress_tracker.end_loop();
    proof {
        assert(progress_tracker.progress_stack@ =~= base);
    }
    true
}

/// Searches every placement order exhaustively and returns the
/// Pareto-optimal frontier of goal results, each with one move sequence
/// that reaches it. Every reported route replays successfully on the given
/// cauldron to exactly the goal result it carries, and no reported result
/// weakly dominates another. When no reporter is given (so nothing can
/// cancel the search), the frontier is also complete: either it holds a
/// perfect entry, or every canonical completion — every full,
/// non-repeating, replayable placement drawing its transformations from
/// the enumerated candidates — is weakly dominated by some entry.
pub fn find_optimal_routes<R: ProgressReporter>(
    playfield: &Cauldron,
    materials: &Vec<Vec<Material>>,
    goals: &Vec<Goal>,
    properties: &SolverSettings,
    progress_reporter: Option<R>,
) -> (r: SolverResult)
    requires
        playfield.wf(),
        material_groups_wf(groups_view(materials@)),
        goals@.len() == materials@.len(),
        tiles_compatible(playfield.tiles@, groups_view(materials@)),
    ensures
        pareto_wf(r@, goals@.len() as int),
        forall|j: int|
            0 <= j < r@.len() ==> route_valid(
                *playfield,
                groups_view(materials@),
                goals@,
                properties.allow_overlaps,
                #[trigger] r@[j],
            ),
        progress_reporter is None ==> ((exists|j: int|
            0 <= j < r@.len() && is_perfect((#[trigger] r@[j]).0.achieved_goals@, goals@))
            || (forall|m: Seq<Move>|
            #[trigger] canonical_completion(
                m,
                Seq::empty(),
                *playfield,
                groups_view(materials@),
                properties.allow_overlaps,
                properties.transformations,
            ) ==> completion_covered(
                r@,
                *playfield,
                groups_view(materials@),
                goals@,
                properties.allow_overlaps,
                m,
            ))),
{
    let ghost groups = groups_view(materials@);
    let mut progress_tracker = ProgressTracker::new(progress_reporter);
    let path: Vec<Move> = Vec::new();
    let mut score_sets: Vec<ColorScoreSet> = Vec::new();
    let mut g: usize = 0;
    while g < materials.len()
        invariant
            g <= materials@.len(),
            score_sets@.len() == g,
            forall|i: int|
                0 <= i < g ==> (#[trigger] score_sets@[i]).scores@ =~= seq![
                    0u32,
                    0u32,
                    0u32,
                    0u32,
                    0u32,
                ],
        decreases materials@.len() - g,
    {
        score_sets.push(ColorScoreSet::new());
        g += 1;
    }
    let mut max_scores: SolverResult = Vec::new();
    proof {
        assert(scores_view(score_sets@) =~~= zero_scores(materials@.len() as nat));
        lemma_total_materials_bound(groups, materials@.len() as int);
    }
    let ghost empty_path = path@;
    let cont = find_optimal_recursive(
        playfield,
        materials,
        goals,
        properties,
        &mut progress_tracker,
        path,
        score_sets,
        &mut max_scores,
        Ghost(*playfield),
    );
    proof {
        assert(empty_path == Seq::<Move>::empty());
    }
    max_scores
}

} // verus!
