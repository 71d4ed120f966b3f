//! The cauldron: the playfield grid, the placement operation with bonus
//! propagation and overlap displacement, and the coverage and final-score
//! calculations.
use vstd::prelude::*;

use crate::color::Color;
use crate::errors::SynthError;
use crate::score::ColorScoreSet;
use crate::score::CoverageInfo;
use crate::score::RAW_SCORE_CAP;
use crate::shape::Transformation;
use crate::shape::is_neighbour;
use crate::shape::mask_bit;
use crate::shape::max_x_bits;
use crate::shape::max_y_bits;
use crate::shape::cell;
use crate::shape::normalized_bits;
use crate::shape::raw_transform;
use crate::types::CauldronProperties;
use crate::types::Material;
use crate::types::Move;
use crate::types::Placement;
use crate::types::Tile;

verus! {

/// The effective mask of a material under an optional transformation:
/// transformed if one is given, and normalized either way.
pub open spec fn effective_mask(m: Material, t: Option<Transformation>) -> u16 {
    match t {
        Some(tr) => normalized_bits(raw_transform(m.shape.0, tr)),
        None => normalized_bits(m.shape.0),
    }
}

/// The tile index covered by footprint cell `j` (in row-major cell order)
/// of a shape placed at (px, py).
pub open spec fn footprint_pos(size: int, px: int, py: int, j: int) -> int {
    (py + j / 3) * size + (px + j % 3)
}

/// Whether a shape placed at (px, py) stays within the grid.
pub open spec fn placement_in_bounds(size: int, px: int, py: int, e: u16) -> bool {
    px + max_x_bits(e) < size && py + max_y_bits(e) < size
}

/// Whether some footprint cell of the placed shape lands on a hole.
pub open spec fn footprint_has_hole(tiles: Seq<Option<Tile>>, size: int, px: int, py: int, e: u16) -> bool {
    exists|j: int|
        0 <= j < 9 && #[trigger] mask_bit(e, j) && tiles[footprint_pos(size, px, py, j)] is None
}

/// Whether some footprint cell of the placed shape lands on a tile already
/// covered by a material.
pub open spec fn footprint_has_overlap(tiles: Seq<Option<Tile>>, size: int, px: int, py: int, e: u16) -> bool {
    exists|j: int|
        0 <= j < 9 && #[trigger] mask_bit(e, j) && tiles[footprint_pos(size, px, py, j)] is Some
            && tiles[footprint_pos(size, px, py, j)]->Some_0.played_material_index is Some
}

/// Clears the played mark of every tile covered by the material `prev`.
pub open spec fn clear_played(tiles: Seq<Option<Tile>>, prev: (usize, usize)) -> Seq<Option<Tile>> {
    Seq::new(
        tiles.len(),
        |i: int|
            match tiles[i] {
                Some(t) => if t.played_material_index == Some(prev) {
                    Some(Tile { played_material_index: None, ..t })
                } else {
                    Some(t)
                },
                None => None,
            },
    )
}

/// One visit of a footprint cell: the tile is covered by the new material
/// and loses its bonus level; if another material covered it, that whole
/// material is displaced.
pub open spec fn walk_step(tiles: Seq<Option<Tile>>, pos: int, mi: (usize, usize)) -> Seq<Option<Tile>> {
    let t = tiles[pos]->Some_0;
    let covered = Tile { level: 0, played_material_index: Some(mi), ..t };
    let updated = tiles.update(pos, Some(covered));
    match t.played_material_index {
        Some(prev) => clear_played(updated, prev),
        None => updated,
    }
}

/// The first `k` footprint visits of a placement, in row-major cell order.
pub open spec fn walk(
    tiles: Seq<Option<Tile>>,
    size: int,
    px: int,
    py: int,
    e: u16,
    mi: (usize, usize),
    k: int,
) -> Seq<Option<Tile>>
    decreases k,
{
    if k <= 0 {
        tiles
    } else {
        let prev = walk(tiles, size, px, py, e, mi, k - 1);
        if mask_bit(e, k - 1) {
            walk_step(prev, footprint_pos(size, px, py, k - 1), mi)
        } else {
            prev
        }
    }
}

/// Twice the points one tile yields when stepped on: its level's bonus
/// score, one and a half times when the material matches the tile's color.
pub open spec fn tile_half_points(t: Tile, mc: Color, bonus: (u32, u32, u32)) -> int {
    let b = if t.level == 1 {
        bonus.0 as int
    } else if t.level == 2 {
        bonus.1 as int
    } else if t.level == 3 {
        bonus.2 as int
    } else {
        0
    };
    if t.color == mc {
        3 * b
    } else {
        2 * b
    }
}

/// Twice the score gathered over the first `k` footprint cells, read off
/// the tiles as they were before the placement.
pub open spec fn walk_half_score(
    tiles: Seq<Option<Tile>>,
    size: int,
    px: int,
    py: int,
    e: u16,
    mc: Color,
    bonus: (u32, u32, u32),
    k: int,
) -> int
    decreases k,
{
    if k <= 0 {
        0
    } else {
        walk_half_score(tiles, size, px, py, e, mc, bonus, k - 1) + if mask_bit(e, k - 1) {
            tile_half_points(
                tiles[footprint_pos(size, px, py, k - 1)]->Some_0,
                mc,
                bonus,
            )
        } else {
            0
        }
    }
}

/// One tile after bonus propagation: an uncovered tile next to the placed
/// shape gains a level, up to level 3.
pub open spec fn bump_tile(slot: Option<Tile>, size: int, px: int, py: int, e: u16, i: int) -> Option<Tile> {
    match slot {
        Some(t) => if is_neighbour(e, i % size - px, i / size - py)
            && t.played_material_index is None && t.level < 3 {
            Some(Tile { level: (t.level + 1) as u32, ..t })
        } else {
            Some(t)
        },
        None => None,
    }
}

/// The grid after bonus propagation around the placed shape.
pub open spec fn bump_all(tiles: Seq<Option<Tile>>, size: int, px: int, py: int, e: u16) -> Seq<Option<Tile>> {
    Seq::new(tiles.len(), |i: int| bump_tile(tiles[i], size, px, py, e, i))
}

/// Whether a placement succeeds: it stays in bounds, covers no hole, and
/// overlaps no covered tile unless overlaps are allowed.
pub open spec fn place_ok(tiles: Seq<Option<Tile>>, size: int, m: Material, pl: Placement, allow_overlap: bool) -> bool {
    let e = effective_mask(m, pl.transformation);
    let px = pl.index as int % size;
    let py = pl.index as int / size;
    &&& placement_in_bounds(size, px, py, e)
    &&& !footprint_has_hole(tiles, size, px, py, e)
    &&& (allow_overlap || !footprint_has_overlap(tiles, size, px, py, e))
}

/// The error a failed placement reports: out of bounds before anything
/// else, then an unavailable tile, then a disallowed overlap.
pub open spec fn place_err(tiles: Seq<Option<Tile>>, size: int, m: Material, pl: Placement, allow_overlap: bool) -> SynthError {
    let e = effective_mask(m, pl.transformation);
    let px = pl.index as int % size;
    let py = pl.index as int / size;
    if !placement_in_bounds(size, px, py, e) {
        SynthError::OutOfBounds
    } else if footprint_has_hole(tiles, size, px, py, e) {
        SynthError::UnavailableTile
    } else {
        SynthError::DisallowedOverlap
    }
}

/// The grid a successful placement leaves: the footprint walk, then bonus
/// propagation.
pub open spec fn place_tiles(tiles: Seq<Option<Tile>>, size: int, m: Material, pl: Placement, mi: (usize, usize)) -> Seq<Option<Tile>> {
    let e = effective_mask(m, pl.transformation);
    let px = pl.index as int % size;
    let py = pl.index as int / size;
    bump_all(walk(tiles, size, px, py, e, mi, 9), size, px, py, e)
}

/// The score a successful placement adds to its group's accumulator for
/// the material's color: the half-points of the footprint, truncated.
pub open spec fn place_score(tiles: Seq<Option<Tile>>, size: int, bonus: (u32, u32, u32), m: Material, pl: Placement) -> int {
    let e = effective_mask(m, pl.transformation);
    let px = pl.index as int % size;
    let py = pl.index as int / size;
    walk_half_score(tiles, size, px, py, e, m.color, bonus, 9) / 2
}

/// One zeroed score row per material group.
pub open spec fn zero_scores(n: nat) -> Seq<Seq<u32>> {
    Seq::new(n, |g: int| seq![0u32, 0u32, 0u32, 0u32, 0u32])
}

/// The view of a list of score sets as nested sequences.
pub open spec fn scores_view(scores: Seq<ColorScoreSet>) -> Seq<Seq<u32>> {
    scores.map_values(|s: ColorScoreSet| s.scores@)
}

/// The scores after one successful placement: the material's group gains
/// the placement's points on the material's color.
pub open spec fn place_scores_after(
    scores: Seq<Seq<u32>>,
    tiles: Seq<Option<Tile>>,
    size: int,
    bonus: (u32, u32, u32),
    m: Material,
    pl: Placement,
    mi: (usize, usize),
) -> Seq<Seq<u32>> {
    let g = mi.0 as int;
    let c = m.color.index();
    scores.update(
        g,
        scores[g].update(c, (scores[g][c] + place_score(tiles, size, bonus, m, pl)) as u32),
    )
}

/// The grid and scores after the first `k` moves, or `None` once one of
/// them fails.
pub open spec fn replay(
    tiles0: Seq<Option<Tile>>,
    scores0: Seq<Seq<u32>>,
    size: int,
    bonus: (u32, u32, u32),
    groups: Seq<Seq<Material>>,
    allow_overlap: bool,
    moves: Seq<Move>,
    k: int,
) -> Option<(Seq<Option<Tile>>, Seq<Seq<u32>>)>
    decreases k,
{
    if k <= 0 {
        Some((tiles0, scores0))
    } else {
        match replay(tiles0, scores0, size, bonus, groups, allow_overlap, moves, k - 1) {
            None => None,
            Some((tiles, scores)) => {
                let mv = moves[k - 1];
                let m = groups[mv.material_index.0 as int][mv.material_index.1 as int];
                if place_ok(tiles, size, m, mv.placement, allow_overlap) {
                    Some(
                        (
                            place_tiles(tiles, size, m, mv.placement, mv.material_index),
                            place_scores_after(
                                scores,
                                tiles,
                                size,
                                bonus,
                                m,
                                mv.placement,
                                mv.material_index,
                            ),
                        ),
                    )
                } else {
                    None
                }
            },
        }
    }
}

/// Iterated placement: replaying one more move applies exactly one
/// `place` transition to the state the earlier moves reached, succeeding
/// on the same condition, covering the same tiles and adding the same
/// score. Together with `place`'s own contract, a batch replay and a
/// move-by-move sequence of `place` calls are the same function.
pub proof fn lemma_replay_is_iterated_place(
    tiles0: Seq<Option<Tile>>,
    scores0: Seq<Seq<u32>>,
    size: int,
    bonus: (u32, u32, u32),
    groups: Seq<Seq<Material>>,
    allow_overlap: bool,
    moves: Seq<Move>,
    k: int,
)
    requires
        0 <= k < moves.len(),
    ensures
        replay(tiles0, scores0, size, bonus, groups, allow_overlap, moves, k + 1) == (match replay(
            tiles0,
            scores0,
            size,
            bonus,
            groups,
            allow_overlap,
            moves,
            k,
        ) {
            Option::Some(state) => {
                let mv = moves[k];
                let m = groups[mv.material_index.0 as int][mv.material_index.1 as int];
                if place_ok(state.0, size, m, mv.placement, allow_overlap) {
                    Option::Some(
                        (
                            place_tiles(state.0, size, m, mv.placement, mv.material_index),
                            place_scores_after(
                                state.1,
                                state.0,
                                size,
                                bonus,
                                m,
                                mv.placement,
                                mv.material_index,
                            ),
                        ),
                    )
                } else {
                    Option::None
                }
            },
            Option::None => Option::None,
        }),
{
}

/// Once a replay has failed, every longer replay has failed too.
pub proof fn lemma_replay_none(
    tiles0: Seq<Option<Tile>>,
    scores0: Seq<Seq<u32>>,
    size: int,
    bonus: (u32, u32, u32),
    groups: Seq<Seq<Material>>,
    allow_overlap: bool,
    moves: Seq<Move>,
    j: int,
    j2: int,
)
    requires
        replay(tiles0, scores0, size, bonus, groups, allow_overlap, moves, j) is None,
        j <= j2,
    ensures
        replay(tiles0, scores0, size, bonus, groups, allow_overlap, moves, j2) is None,
    decreases j2 - j,
{
    if j2 > j {
        lemma_replay_none(tiles0, scores0, size, bonus, groups, allow_overlap, moves, j, j2 - 1);
    }
}

/// Every played mark on the grid points at an existing material.
pub open spec fn tiles_compatible(tiles: Seq<Option<Tile>>, groups: Seq<Seq<Material>>) -> bool {
    forall|i: int|
        0 <= i < tiles.len() && tiles[i] is Some && (#[trigger] tiles[i])->Some_0.played_material_index is Some
            ==> {
            let p = tiles[i]->Some_0.played_material_index->Some_0;
            p.0 < groups.len() && p.1 < groups[p.0 as int].len()
        }
}

/// How many of the first `k` slots hold a played tile.
pub open spec fn count_played(tiles: Seq<Option<Tile>>, k: int) -> int
    decreases k,
{
    if k <= 0 {
        0
    } else {
        count_played(tiles, k - 1) + if tiles[k - 1] is Some && tiles[k
            - 1]->Some_0.played_material_index is Some {
            1int
        } else {
            0int
        }
    }
}

/// How many of the first `k` slots hold a tile played by a material of
/// color `c`.
pub open spec fn count_color(
    tiles: Seq<Option<Tile>>,
    groups: Seq<Seq<Material>>,
    c: Color,
    k: int,
) -> int
    decreases k,
{
    if k <= 0 {
        0
    } else {
        count_color(tiles, groups, c, k - 1) + if tiles[k - 1] is Some && tiles[k
            - 1]->Some_0.played_material_index is Some && groups[tiles[k
            - 1]->Some_0.played_material_index->Some_0.0 as int][tiles[k
            - 1]->Some_0.played_material_index->Some_0.1 as int].color == c {
            1int
        } else {
            0int
        }
    }
}

/// The coverage of a grid: per color, how many tiles a material of that
/// color covers.
pub open spec fn coverage_counts(tiles: Seq<Option<Tile>>, groups: Seq<Seq<Material>>) -> Seq<u32> {
    Seq::new(5, |ci: int| count_color(tiles, groups, crate::color::spec_color_of_index(ci), tiles.len() as int) as u32)
}

/// The playfield of the game.
#[derive(Debug)]
pub struct Cauldron {
    /// The panel size of the cauldron: 4x4, 5x5 or 6x6.
    pub size: usize,
    /// The individual tiles of the cauldron; `None` is a hole.
    pub tiles: Vec<Option<Tile>>,
    /// The bonus scores for stepping on a tile of level 1, 2 and 3.
    pub bonus_scores: (u32, u32, u32),
    /// The color of the item being crafted; read by the synergy property.
    pub color: Color,
    /// The properties of the cauldron.
    pub properties: CauldronProperties,
}

/// A generous bound on a single bonus score; keeps every score accumulated
/// over a full search within u32.
pub const MAX_BONUS_SCORE: u32 = 0xFFFF;

impl Cauldron {
    /// The grid is 4x4, 5x5 or 6x6 with one slot per cell, every tile's
    /// level is in range, and the bonus scores are small enough that no
    /// accumulated score can overflow.
    pub open spec fn wf(self) -> bool {
        &&& 4 <= self.size <= 6
        &&& self.tiles@.len() == self.size * self.size
        &&& forall|i: int|
            0 <= i < self.tiles@.len() && self.tiles@[i] is Some ==> (
            #[trigger] self.tiles@[i])->Some_0.wf()
        &&& self.bonus_scores.0 <= MAX_BONUS_SCORE
        &&& self.bonus_scores.1 <= MAX_BONUS_SCORE
        &&& self.bonus_scores.2 <= MAX_BONUS_SCORE
    }

    /// The height of the grid, which is also its width.
    pub fn height(&self) -> (r: usize)
        ensures
            r == self.size,
    {
        self.size
    }

    /// The x and y coordinate of a tile index.
    pub fn get_position(&self, index: usize) -> (r: (usize, usize))
        requires
            self.size > 0,
        ensures
            r.0 == index as int % self.size as int,
            r.1 == index as int / self.size as int,
    {
        (index % self.size, index / self.size)
    }

    /// The tile at the coordinate (x, y), or `None` for a hole.
    pub fn get_tile(&self, index: (usize, usize)) -> (r: Option<Tile>)
        requires
            self.wf(),
            index.0 < self.size,
            index.1 < self.size,
        ensures
            r == self.tiles@[index.1 * self.size + index.0],
    {
        let (x, y) = index;
        proof {
            lemma_grid_index_in_range(self.size as int, x as int, y as int);
        }
        self.tiles[y * self.size + x]
    }

    /// Replaces the tile slot at the coordinate (x, y).
    pub fn set_tile(&mut self, index: (usize, usize), tile: Option<Tile>)
        requires
            old(self).wf(),
            index.0 < old(self).size,
            index.1 < old(self).size,
            tile is Some ==> tile->Some_0.wf(),
        ensures
            final(self).tiles@ == old(self).tiles@.update(
                index.1 * old(self).size + index.0,
                tile,
            ),
            final(self).size == old(self).size,
            final(self).bonus_scores == old(self).bonus_scores,
            final(self).color == old(self).color,
            final(self).properties == old(self).properties,
            final(self).wf(),
    {
        let (x, y) = index;
        proof {
            lemma_grid_index_in_range(self.size as int, x as int, y as int);
        }
        self.tiles.set(y * self.size + x, tile);
    }

    /// Places a material on the playfield and adds the gathered points to
    /// its group's score: each covered tile yields its level's bonus score
    /// (one and a half times on a color match), is covered and reset to
    /// level zero, and displaces any material it overlapped; afterwards
    /// every uncovered neighbouring tile gains a bonus level.
    pub fn place(
        &mut self,
        material_groups: &Vec<Vec<Material>>,
        material_index: (usize, usize),
        placement: Placement,
        allow_overlap: bool,
        scores: &mut Vec<ColorScoreSet>,
    ) -> (r: Result<(), SynthError>)
        requires
            old(self).wf(),
            crate::types::material_groups_wf(crate::types::groups_view(material_groups@)),
            material_index.0 < material_groups@.len(),
            material_index.1 < material_groups@[material_index.0 as int]@.len(),
            old(scores)@.len() == material_groups@.len(),
            forall|g: int|
                0 <= g < old(scores)@.len() ==> (#[trigger] old(scores)@[g]).bounded(
                    crate::score::RAW_SCORE_CAP as int,
                ),
        ensures
            final(self).size == old(self).size,
            final(self).bonus_scores == old(self).bonus_scores,
            final(self).color == old(self).color,
            final(self).properties == old(self).properties,
            final(self).wf(),
            final(scores)@.len() == old(scores)@.len(),
            ({
                let m = material_groups@[material_index.0 as int]@[material_index.1 as int];
                let sz = old(self).size as int;
                let ok = place_ok(old(self).tiles@, sz, m, placement, allow_overlap);
                let score = place_score(old(self).tiles@, sz, old(self).bonus_scores, m, placement);
                &&& (r is Ok <==> ok)
                &&& (r is Err ==> r->Err_0 == place_err(
                    old(self).tiles@,
                    sz,
                    m,
                    placement,
                    allow_overlap,
                ) && final(self).tiles@ == old(self).tiles@ && final(scores)@ == old(scores)@)
                &&& (r is Ok ==> {
                    &&& 0 <= score <= MAX_PLACE_SCORE
                    &&& final(self).tiles@ == place_tiles(
                        old(self).tiles@,
                        sz,
                        m,
                        placement,
                        material_index,
                    )
                    &&& forall|g: int|
                        0 <= g < old(scores)@.len() && g != material_index.0 ==> final(scores)@[g]
                            == old(scores)@[g]
                    &&& final(scores)@[material_index.0 as int].scores@ == old(
                        scores,
                    )@[material_index.0 as int].scores@.update(
                        m.color.index(),
                        (old(scores)@[material_index.0 as int].spec_get(m.color) + score) as u32,
                    )
                })
            }),
    {
        let material = material_groups[material_index.0][material_index.1];
        proof {
            assert(crate::types::groups_view(material_groups@)[material_index.0 as int]
                == material_groups@[material_index.0 as int]@);
            lemma_effective_mask(material, placement.transformation);
        }
        let shape = match placement.transformation {
            Some(t) => material.shape.apply_transformation(t),
            None => material.shape.normalize(),
        };
        let ghost e = shape.0;
        let size = self.size;
        let ghost sz = size as int;
        let ghost orig = self.tiles@;
        let (px, py) = self.get_position(placement.index);
        proof {
            assert(e == effective_mask(material, placement.transformation));
        }

        proof {
            assert(px < size);
        }
        if px + shape.get_max_x() >= size || py >= size || py + shape.get_max_y() >= size {
            return Err(SynthError::OutOfBounds);
        }
        proof {
            assert(placement_in_bounds(sz, px as int, py as int, e));
            assert forall|j: int| 0 <= j < 9 && #[trigger] mask_bit(e, j) implies 0 <= footprint_pos(
                sz,
                px as int,
                py as int,
                j,
            ) < orig.len() && px + j % 3 < sz && py + j / 3 < sz by {
                lemma_footprint_in_range(sz, px as int, py as int, e, j);
                assert(sz * sz == orig.len());
            }
        }

        // Validate the whole footprint first: holes, then overlaps.
        let mut has_hole = false;
        let mut has_overlap = false;
        let mut j: usize = 0;
        while j < 9
            invariant
                j <= 9,
                self.wf(),
                self.size == size,
                4 <= size <= 6,
                self.tiles@ == orig,
                px < size,
                py < size,
                shape.0 == e,
                e == effective_mask(material, placement.transformation),
                placement_in_bounds(sz, px as int, py as int, e),
                sz == size as int,
                forall|jj: int|
                    0 <= jj < 9 && #[trigger] mask_bit(e, jj) ==> 0 <= footprint_pos(
                        sz,
                        px as int,
                        py as int,
                        jj,
                    ) < orig.len() && px + jj % 3 < sz && py + jj / 3 < sz,
                has_hole == exists|jj: int|
                    0 <= jj < j && #[trigger] mask_bit(e, jj) && orig[footprint_pos(
                        sz,
                        px as int,
                        py as int,
                        jj,
                    )] is None,
                has_overlap == exists|jj: int|
                    0 <= jj < j && #[trigger] mask_bit(e, jj) && orig[footprint_pos(
                        sz,
                        px as int,
                        py as int,
                        jj,
                    )] is Some && orig[footprint_pos(
                        sz,
                        px as int,
                        py as int,
                        jj,
                    )]->Some_0.played_material_index is Some,
            decreases 9 - j,
        {
            let sx = j % 3;
            let sy = j / 3;
            let ghost old_hole = has_hole;
            let ghost old_overlap = has_overlap;
            if shape.get(sx, sy) {
                proof {
                    vstd::arithmetic::div_mod::lemma_fundamental_div_mod(j as int, 3);
                    assert(j as int == 3 * (sy as int) + (sx as int));
                    assert(mask_bit(e, j as int));
                    lemma_grid_index_in_range(sz, px as int + sx as int, py as int + sy as int);
                }
                let pos = (py + sy) * size + (px + sx);
                proof {
                    assert(pos as int == footprint_pos(sz, px as int, py as int, j as int));
                }
                match self.tiles[pos] {
                    None => {
                        has_hole = true;
                    },
                    Some(t) => {
                        if t.played_material_index.is_some() {
                            has_overlap = true;
                        }
                    },
                }
            } else {
                proof {
                    vstd::arithmetic::div_mod::lemma_fundamental_div_mod(j as int, 3);
                    assert(j as int == 3 * (sy as int) + (sx as int));
                    assert(!mask_bit(e, j as int));
                }
            }
            proof {
                assert forall|jj: int| 0 <= jj < j + 1 && #[trigger] mask_bit(e, jj) && orig[
                footprint_pos(sz, px as int, py as int, jj)] is None implies has_hole by {
                    if jj < j {
                        assert(old_hole);
                    }
                }
                if has_hole && !old_hole {
                    assert(mask_bit(e, j as int) && orig[footprint_pos(
                        sz,
                        px as int,
                        py as int,
                        j as int,
                    )] is None);
                }
                assert forall|jj: int| 0 <= jj < j + 1 && #[trigger] mask_bit(e, jj) && orig[
                footprint_pos(sz, px as int, py as int, jj)] is Some && orig[footprint_pos(
                    sz,
                    px as int,
                    py as int,
                    jj,
                )]->Some_0.played_material_index is Some implies has_overlap by {
                    if jj < j {
                        assert(old_overlap);
                    }
                }
                if has_overlap && !old_overlap {
                    assert(mask_bit(e, j as int));
                }
            }
            j += 1;
        }
        if has_hole {
            return Err(SynthError::UnavailableTile);
        }
        if has_overlap && !allow_overlap {
            return Err(SynthError::DisallowedOverlap);
        }

        // Walk the footprint: gather points, cover tiles, displace overlaps.
        let mut score_half: u32 = 0;
        let mut j: usize = 0;
        while j < 9
            invariant
                j <= 9,
                4 <= size <= 6,
                self.size == size,
                sz == size as int,
                px < size,
                py < size,
                self.bonus_scores == old(self).bonus_scores,
                self.color == old(self).color,
                self.properties == old(self).properties,
                self.bonus_scores.0 <= MAX_BONUS_SCORE,
                self.bonus_scores.1 <= MAX_BONUS_SCORE,
                self.bonus_scores.2 <= MAX_BONUS_SCORE,
                orig.len() == sz * sz,
                forall|i: int|
                    0 <= i < orig.len() && orig[i] is Some ==> (
                    #[trigger] orig[i])->Some_0.wf(),
                shape.0 == e,
                e == effective_mask(material, placement.transformation),
                placement_in_bounds(sz, px as int, py as int, e),
                !footprint_has_hole(orig, sz, px as int, py as int, e),
                forall|jj: int|
                    0 <= jj < 9 && #[trigger] mask_bit(e, jj) ==> 0 <= footprint_pos(
                        sz,
                        px as int,
                        py as int,
                        jj,
                    ) < orig.len() && px + jj % 3 < sz && py + jj / 3 < sz,
                self.tiles@ == walk(orig, sz, px as int, py as int, e, material_index, j as int),
                score_half == walk_half_score(
                    orig,
                    sz,
                    px as int,
                    py as int,
                    e,
                    material.color,
                    self.bonus_scores,
                    j as int,
                ),
                score_half <= j * 196605,
            decreases 9 - j,
        {
            let sx = j % 3;
            let sy = j / 3;
            let ghost walked = self.tiles@;
            if shape.get(sx, sy) {
                proof {
                    vstd::arithmetic::div_mod::lemma_fundamental_div_mod(j as int, 3);
                    assert(j as int == 3 * (sy as int) + (sx as int));
                    assert(mask_bit(e, j as int));
                    lemma_grid_index_in_range(sz, px as int + sx as int, py as int + sy as int);
                    lemma_walk_frame(orig, sz, px as int, py as int, e, material_index, j as int);
                    assert forall|j2: int|
                        0 <= j2 < j && #[trigger] mask_bit(e, j2) implies footprint_pos(
                        sz,
                        px as int,
                        py as int,
                        j2,
                    ) != footprint_pos(sz, px as int, py as int, j as int) by {
                        lemma_footprint_injective(sz, px as int, py as int, j2, j as int);
                    }
                    assert(!visited(sz, px as int, py as int, e, j as int, footprint_pos(
                        sz,
                        px as int,
                        py as int,
                        j as int,
                    )));
                }
                let pos = (py + sy) * size + (px + sx);
                proof {
                    assert(pos as int == footprint_pos(sz, px as int, py as int, j as int));
                }
                match self.tiles[pos] {
                    None => {
                        proof {
                            assert(orig[pos as int] is Some);
                            assert(false);
                        }
                    },
                    Some(t) => {
                        let base = if t.level == 1 {
                            self.bonus_scores.0
                        } else if t.level == 2 {
                            self.bonus_scores.1
                        } else if t.level == 3 {
                            self.bonus_scores.2
                        } else {
                            0
                        };
                        let points = if t.color == material.color {
                            3 * base
                        } else {
                            2 * base
                        };
                        proof {
                            assert(t.level == orig[pos as int]->Some_0.level);
                            assert(t.color == orig[pos as int]->Some_0.color);
                            assert(points == tile_half_points(
                                orig[pos as int]->Some_0,
                                material.color,
                                self.bonus_scores,
                            ));
                        }
                        score_half = score_half + points;
                        let prev = t.played_material_index;
                        let covered = Tile {
                            color: t.color,
                            level: 0,
                            played_material_index: Some(material_index),
                        };
                        self.tiles.set(pos, Some(covered));
                        let ghost updated = self.tiles@;
                        match prev {
                            Some(prev_index) => {
                                let mut q: usize = 0;
                                let len = self.tiles.len();
                                while q < len
                                    invariant
                                        q <= len,
                                        len == self.tiles@.len(),
                                        updated.len() == len,
                                        self.size == size,
                                        self.bonus_scores == old(self).bonus_scores,
                                        self.color == old(self).color,
                                        self.properties == old(self).properties,
                                        forall|qq: int|
                                            0 <= qq < q ==> self.tiles@[qq] == clear_played(
                                                updated,
                                                prev_index,
                                            )[qq],
                                        forall|qq: int|
                                            q <= qq < len ==> self.tiles@[qq] == updated[qq],
                                    decreases len - q,
                                {
                                    match self.tiles[q] {
                                        Some(tq) => {
                                            let same = match tq.played_material_index {
                                                Some(p) => p.0 == prev_index.0 && p.1
                                                    == prev_index.1,
                                                None => false,
                                            };
                                            if same {
                                                self.tiles.set(
                                                    q,
                                                    Some(
                                                        Tile {
                                                            color: tq.color,
                                                            level: tq.level,
                                                            played_material_index: None,
                                                        },
                                                    ),
                                                );
                                            }
                                        },
                                        None => {},
                                    }
                                    q += 1;
                                }
                                proof {
                                    assert(self.tiles@ =~= clear_played(updated, prev_index));
                                }
                            },
                            None => {},
                        }
                        proof {
                            assert(walked[pos as int]->Some_0 == t);
                            assert(self.tiles@ == walk_step(walked, pos as int, material_index));
                            assert(self.tiles@ == walk(
                                orig,
                                sz,
                                px as int,
                                py as int,
                                e,
                                material_index,
                                j + 1,
                            ));
                        }
                    },
                }
            } else {
                proof {
                    vstd::arithmetic::div_mod::lemma_fundamental_div_mod(j as int, 3);
                    assert(j as int == 3 * (sy as int) + (sx as int));
                    assert(!mask_bit(e, j as int));
                    assert(self.tiles@ == walk(
                        orig,
                        sz,
                        px as int,
                        py as int,
                        e,
                        material_index,
                        j + 1,
                    ));
                }
            }
            j += 1;
        }
        let score = score_half / 2;

        // Propagate bonus levels to the placed shape's neighbours.
        let neighbours = shape.get_neighbours();
        let ghost walked = self.tiles@;
        proof {
            lemma_walk_frame(orig, sz, px as int, py as int, e, material_index, 9);
        }
        let mut q: usize = 0;
        let len = self.tiles.len();
        proof {
            lemma_board_total(sz);
        }
        while q < len
            invariant
                q <= len,
                len == self.tiles@.len(),
                len <= 36,
                walked.len() == len,
                4 <= size <= 6,
                self.size == size,
                sz == size as int,
                px < size,
                py < size,
                self.bonus_scores == old(self).bonus_scores,
                self.color == old(self).color,
                self.properties == old(self).properties,
                forall|i: int|
                    0 <= i < len && walked[i] is Some ==> (#[trigger] walked[i])->Some_0.wf(),
                forall|x: int, y: int|
                    crate::neighbours::offset_in_region(x, y) ==> #[trigger] neighbours.contains_offset(
                        x,
                        y,
                    ) == is_neighbour(e, x, y),
                forall|qq: int|
                    0 <= qq < q ==> self.tiles@[qq] == bump_all(
                        walked,
                        sz,
                        px as int,
                        py as int,
                        e,
                    )[qq],
                forall|qq: int| q <= qq < len ==> self.tiles@[qq] == walked[qq],
            decreases len - q,
        {
            let x = q % size;
            let y = q / size;
            proof {
                assert(q as int / sz <= q as int) by (nonlinear_arith)
                    requires
                        sz >= 1,
                        q >= 0,
                ;
            }
            let dx = x as isize - px as isize;
            let dy = y as isize - py as isize;
            let ghost dxi = q as int % sz - px as int;
            let ghost dyi = q as int / sz - py as int;
            proof {
                assert(dx as int == dxi && dy as int == dyi);
            }
            if dx >= -1 && dx <= 3 && dy >= -1 && dy <= 3 && neighbours.contains(dx, dy) {
                match self.tiles[q] {
                    Some(t) => {
                        if t.played_material_index.is_none() && t.level < 3 {
                            self.tiles.set(
                                q,
                                Some(
                                    Tile {
                                        color: t.color,
                                        level: t.level + 1,
                                        played_material_index: t.played_material_index,
                                    },
                                ),
                            );
                        }
                    },
                    None => {},
                }
            } else {
                proof {
                    if !(-1 <= dxi <= 3 && -1 <= dyi <= 3) {
                        assert(!is_neighbour(e, dxi, dyi));
                    }
                }
            }
            proof {
                assert(self.tiles@[q as int] == bump_tile(
                    walked[q as int],
                    sz,
                    px as int,
                    py as int,
                    e,
                    q as int,
                ));
            }
            q += 1;
        }
        proof {
            assert(self.tiles@ =~= bump_all(walked, sz, px as int, py as int, e));
        }

        // Apply the score, now that no error can occur.
        let mut entry = scores[material_index.0];
        entry.add(material.color, score);
        scores.set(material_index.0, entry);
        Ok(())
    }

    /// Applies a sequence of moves with [`Self::place`], accumulating one
    /// score set per material group; stops at the first failing move and
    /// returns its error, leaving the earlier moves applied.
    #[verifier::loop_isolation(false)]
    pub fn place_all(
        &mut self,
        material_groups: &Vec<Vec<Material>>,
        moves: &Vec<Move>,
        allow_overlap: bool,
    ) -> (r: Result<Vec<ColorScoreSet>, SynthError>)
        requires
            old(self).wf(),
            crate::types::material_groups_wf(crate::types::groups_view(material_groups@)),
            forall|k: int|
                0 <= k < moves@.len() ==> (#[trigger] moves@[k]).material_index.0
                    < material_groups@.len() && moves@[k].material_index.1
                    < material_groups@[moves@[k].material_index.0 as int]@.len(),
            moves@.len() <= 37,
        ensures
            final(self).size == old(self).size,
            final(self).bonus_scores == old(self).bonus_scores,
            final(self).color == old(self).color,
            final(self).properties == old(self).properties,
            final(self).wf(),
            ({
                let groups = crate::types::groups_view(material_groups@);
                let zeros = zero_scores(material_groups@.len() as nat);
                let sz = old(self).size as int;
                let bonus = old(self).bonus_scores;
                let full = replay(
                    old(self).tiles@,
                    zeros,
                    sz,
                    bonus,
                    groups,
                    allow_overlap,
                    moves@,
                    moves@.len() as int,
                );
                &&& (r is Ok <==> full is Some)
                &&& (r is Ok ==> final(self).tiles@ == full->Some_0.0 && scores_view(r->Ok_0@)
                    == full->Some_0.1 && r->Ok_0@.len() == material_groups@.len())
                &&& (r is Err ==> exists|k: int|
                    {
                        let partial = #[trigger] replay(
                            old(self).tiles@,
                            zeros,
                            sz,
                            bonus,
                            groups,
                            allow_overlap,
                            moves@,
                            k,
                        );
                        &&& 0 <= k < moves@.len()
                        &&& partial is Some
                        &&& !place_ok(
                            partial->Some_0.0,
                            sz,
                            groups[moves@[k].material_index.0 as int][moves@[k].material_index.1 as int],
                            moves@[k].placement,
                            allow_overlap,
                        )
                        &&& final(self).tiles@ == partial->Some_0.0
                        &&& r->Err_0 == place_err(
                            partial->Some_0.0,
                            sz,
                            groups[moves@[k].material_index.0 as int][moves@[k].material_index.1 as int],
                            moves@[k].placement,
                            allow_overlap,
                        )
                    })
            }),
    {
        let ghost groups = crate::types::groups_view(material_groups@);
        let ghost orig = self.tiles@;
        let ghost sz = self.size as int;
        let ghost bonus = self.bonus_scores;
        let ghost color0 = self.color;
        let ghost props0 = self.properties;
        let size = self.size;

        let mut scores: Vec<ColorScoreSet> = Vec::new();
        let mut g: usize = 0;
        while g < material_groups.len()
            invariant
                g <= material_groups@.len(),
                scores@.len() == g,
                forall|i: int|
                    0 <= i < g ==> (#[trigger] scores@[i]).scores@ =~= seq![
                        0u32,
                        0u32,
                        0u32,
                        0u32,
                        0u32,
                    ],
            decreases material_groups@.len() - g,
        {
            scores.push(ColorScoreSet::new());
            g += 1;
        }
        let ghost zeros = zero_scores(material_groups@.len() as nat);
        proof {
            assert(scores_view(scores@) =~~= zeros);
        }

        let mut k: usize = 0;
        while k < moves.len()
            invariant
                k <= moves@.len(),
                moves@.len() <= 37,
                self.wf(),
                self.size == size,
                sz == size as int,
                self.bonus_scores == bonus,
                self.color == color0,
                self.properties == props0,
                groups == crate::types::groups_view(material_groups@),
                crate::types::material_groups_wf(groups),
                forall|j: int|
                    0 <= j < moves@.len() ==> (#[trigger] moves@[j]).material_index.0
                        < material_groups@.len() && moves@[j].material_index.1
                        < material_groups@[moves@[j].material_index.0 as int]@.len(),
                scores@.len() == material_groups@.len(),
                zeros == zero_scores(material_groups@.len() as nat),
                replay(orig, zeros, sz, bonus, groups, allow_overlap, moves@, k as int) == Some(
                    (self.tiles@, scores_view(scores@)),
                ),
                forall|gi: int, ci: int|
                    0 <= gi < scores@.len() && 0 <= ci < 5 ==> #[trigger] scores@[gi].scores@[ci]
                        <= k * MAX_PLACE_SCORE,
            decreases moves@.len() - k,
        {
            let mv = moves[k];
            let ghost tiles_before = self.tiles@;
            let ghost scores_before = scores@;
            proof {
                assert(groups[mv.material_index.0 as int]
                    == material_groups@[mv.material_index.0 as int]@);
                assert forall|gi: int|
                    0 <= gi < scores@.len() implies (#[trigger] scores@[gi]).bounded(
                    RAW_SCORE_CAP as int,
                ) by {
                    assert forall|ci: int| 0 <= ci < 5 implies #[trigger] scores@[gi].scores@[ci]
                        <= RAW_SCORE_CAP as int by {
                        assert(scores@[gi].scores@[ci] <= k * MAX_PLACE_SCORE);
                        assert(k * MAX_PLACE_SCORE <= 37 * MAX_PLACE_SCORE) by (nonlinear_arith)
                            requires
                                0 <= k <= 37,
                        ;
                    }
                }
            }
            let outcome = self.place(
                material_groups,
                mv.material_index,
                mv.placement,
                allow_overlap,
                &mut scores,
            );
            match outcome {
                Ok(()) => {
                    proof {
                        let m = groups[mv.material_index.0 as int][mv.material_index.1 as int];
                        assert(scores_view(scores@) =~~= place_scores_after(
                            scores_view(scores_before),
                            tiles_before,
                            sz,
                            bonus,
                            m,
                            mv.placement,
                            mv.material_index,
                        ));
                        assert(replay(orig, zeros, sz, bonus, groups, allow_overlap, moves@, k + 1)
                            == Some((self.tiles@, scores_view(scores@))));
                        assert forall|gi: int, ci: int|
                            0 <= gi < scores@.len() && 0 <= ci < 5 implies
                            #[trigger] scores@[gi].scores@[ci] <= (k + 1) * MAX_PLACE_SCORE by {
                            assert(scores_before[gi].scores@[ci] <= k * MAX_PLACE_SCORE);
                        }
                    }
                },
                Err(err) => {
                    proof {
                        let m = groups[mv.material_index.0 as int][mv.material_index.1 as int];
                        let partial = replay(
                            orig,
                            zeros,
                            sz,
                            bonus,
                            groups,
                            allow_overlap,
                            moves@,
                            k as int,
                        );
                        assert(partial is Some);
                        assert(self.tiles@ == tiles_before);
                        assert(partial->Some_0.0 == tiles_before);
                        assert(!place_ok(tiles_before, sz, m, mv.placement, allow_overlap));
                        assert(err == place_err(tiles_before, sz, m, mv.placement, allow_overlap));
                        assert(replay(orig, zeros, sz, bonus, groups, allow_overlap, moves@, k + 1)
                            is None);
                        lemma_replay_none(
                            orig,
                            zeros,
                            sz,
                            bonus,
                            groups,
                            allow_overlap,
                            moves@,
                            k + 1,
                            moves@.len() as int,
                        );
                    }
                    return Err(err);
                },
            }
            k += 1;
        }
        Ok(scores)
    }

    /// Counts, for every color, the tiles covered by a material of that
    /// color.
    pub fn calculate_coverage(&self, material_groups: &Vec<Vec<Material>>) -> (r: CoverageInfo)
        requires
            self.wf(),
            tiles_compatible(self.tiles@, crate::types::groups_view(material_groups@)),
        ensures
            r.coverage@ =~= coverage_counts(self.tiles@, crate::types::groups_view(material_groups@)),
            r.bounded(self.tiles@.len() as int),
    {
        let ghost groups = crate::types::groups_view(material_groups@);
        let mut cov = CoverageInfo::new();
        let mut i: usize = 0;
        let len = self.tiles.len();
        proof {
            lemma_board_total(self.size as int);
        }
        while i < len
            invariant
                i <= len,
                len == self.tiles@.len(),
                len <= 36,
                groups == crate::types::groups_view(material_groups@),
                tiles_compatible(self.tiles@, groups),
                forall|ci: int|
                    0 <= ci < 5 ==> #[trigger] cov.coverage@[ci] == count_color(
                        self.tiles@,
                        groups,
                        crate::color::spec_color_of_index(ci),
                        i as int,
                    ),
                forall|ci: int| 0 <= ci < 5 ==> #[trigger] cov.coverage@[ci] <= i,
            decreases len - i,
        {
            match self.tiles[i] {
                Some(t) => {
                    match t.played_material_index {
                        Some(p) => {
                            proof {
                                assert(self.tiles@[i as int] is Some
                                    && self.tiles@[i as int]->Some_0.played_material_index
                                    is Some);
                                assert(p.0 < groups.len() && p.1 < groups[p.0 as int].len());
                                assert(groups[p.0 as int] == material_groups@[p.0 as int]@);
                            }
                            let m = material_groups[p.0][p.1];
                            cov = cov.add_color(m.color);
                            proof {
                                assert(groups[p.0 as int][p.1 as int] == m);
                                crate::color::lemma_color_of_index(m.color);
                                assert forall|ci: int| 0 <= ci < 5 implies
                                    #[trigger] cov.coverage@[ci] == count_color(
                                    self.tiles@,
                                    groups,
                                    crate::color::spec_color_of_index(ci),
                                    i + 1,
                                ) by {
                                    if ci != m.color.index() {
                                        assert(crate::color::spec_color_of_index(ci) != m.color);
                                    }
                                }
                            }
                        },
                        None => {},
                    }
                },
                None => {},
            }
            i += 1;
        }
        cov
    }

    /// The final score of every material group, with the coverage
    /// multiplier applied.
    pub fn calculate_final_score(
        &self,
        material_groups: &Vec<Vec<Material>>,
        score_sets: &Vec<ColorScoreSet>,
    ) -> (r: Vec<u32>)
        requires
            self.wf(),
            crate::types::material_groups_wf(crate::types::groups_view(material_groups@)),
            tiles_compatible(self.tiles@, crate::types::groups_view(material_groups@)),
            score_sets@.len() == material_groups@.len(),
            forall|g: int|
                0 <= g < score_sets@.len() ==> (#[trigger] score_sets@[g]).bounded(
                    RAW_SCORE_CAP as int,
                ),
        ensures
            r@.len() == score_sets@.len(),
            forall|g: int|
                0 <= g < r@.len() ==> #[trigger] r@[g] == crate::score::group_score(
                    material_groups@[g]@,
                    score_sets@[g].scores@,
                    coverage_counts(self.tiles@, crate::types::groups_view(material_groups@)),
                    self.tiles@.len() as int,
                    5,
                ),
    {
        let ghost groups = crate::types::groups_view(material_groups@);
        let coverage = self.calculate_coverage(material_groups);
        let mut r: Vec<u32> = Vec::new();
        let mut g: usize = 0;
        while g < score_sets.len()
            invariant
                g <= score_sets@.len(),
                r@.len() == g,
                self.wf(),
                groups == crate::types::groups_view(material_groups@),
                crate::types::material_groups_wf(groups),
                score_sets@.len() == material_groups@.len(),
                forall|gi: int|
                    0 <= gi < score_sets@.len() ==> (#[trigger] score_sets@[gi]).bounded(
                        RAW_SCORE_CAP as int,
                    ),
                coverage.coverage@ =~= coverage_counts(self.tiles@, groups),
                coverage.bounded(self.tiles@.len() as int),
                forall|gi: int|
                    0 <= gi < g ==> #[trigger] r@[gi] == crate::score::group_score(
                        material_groups@[gi]@,
                        score_sets@[gi].scores@,
                        coverage_counts(self.tiles@, groups),
                        self.tiles@.len() as int,
                        5,
                    ),
            decreases score_sets@.len() - g,
        {
            proof {
                assert(groups[g as int] == material_groups@[g as int]@);
            }
            let score = score_sets[g].calculate_score(&material_groups[g], &coverage, self);
            r.push(score);
            g += 1;
        }
        r
    }

    /// An identical copy of the cauldron.
    pub fn duplicate(&self) -> (r: Self)
        ensures
            r.size == self.size,
            r.tiles@ == self.tiles@,
            r.bonus_scores == self.bonus_scores,
            r.color == self.color,
            r.properties == self.properties,
    {
        let mut tiles: Vec<Option<Tile>> = Vec::new();
        let mut i: usize = 0;
        while i < self.tiles.len()
            invariant
                i <= self.tiles@.len(),
                tiles@ =~= self.tiles@.subrange(0, i as int),
            decreases self.tiles@.len() - i,
        {
            tiles.push(self.tiles[i]);
            i += 1;
        }
        proof {
            assert(tiles@ =~= self.tiles@);
        }
        Cauldron {
            size: self.size,
            tiles,
            bonus_scores: self.bonus_scores,
            color: self.color,
            properties: self.properties,
        }
    }
}

/// Within an n-by-n grid with n at most 6, the packed index of (x, y) is
/// in range.
pub proof fn lemma_grid_index_in_range(n: int, x: int, y: int)
    requires
        0 <= x < n,
        0 <= y < n,
        n <= 6,
    ensures
        0 <= y * n + x < n * n,
        n * n <= 36,
{
    assert(y * n + x < n * n && n * n <= 36) by (nonlinear_arith)
        requires
            0 <= x < n,
            0 <= y < n,
            n <= 6,
    ;
    assert(y * n + x >= 0) by (nonlinear_arith)
        requires
            0 <= x,
            0 <= y,
            n > 0,
    ;
}

/// A placement can add at most this many points in one call.
pub const MAX_PLACE_SCORE: u32 = 884722;

/// Whether some footprint cell among the first `k` covers the tile index `i`.
pub open spec fn visited(size: int, px: int, py: int, e: u16, k: int, i: int) -> bool {
    exists|j: int|
        0 <= j < k && #[trigger] mask_bit(e, j) && footprint_pos(size, px, py, j) == i
}

/// The effective mask of a well-formed material is a non-empty normalized
/// nine-bit mask.
pub proof fn lemma_effective_mask(m: Material, t: Option<Transformation>)
    requires
        m.wf(),
    ensures
        effective_mask(m, t) < 512,
        effective_mask(m, t) != 0,
        crate::shape::is_normalized_bits(effective_mask(m, t)),
{
    crate::shape::lemma_popcount_zero(m.shape.0);
    match t {
        Some(tr) => {
            crate::shape::lemma_raw_transform_wf(m.shape.0, tr);
            crate::shape::lemma_raw_transform_popcount(m.shape.0, tr);
            crate::shape::lemma_normalized_form(raw_transform(m.shape.0, tr));
            crate::shape::lemma_popcount_zero(effective_mask(m, t));
        },
        None => {
            crate::shape::lemma_normalized_form(m.shape.0);
            crate::shape::lemma_popcount_zero(effective_mask(m, t));
        },
    }
}

/// Distinct footprint cells cover distinct tile indices.
pub proof fn lemma_footprint_injective(size: int, px: int, py: int, j1: int, j2: int)
    requires
        0 <= j1 < 9,
        0 <= j2 < 9,
        j1 != j2,
        size >= 4,
    ensures
        footprint_pos(size, px, py, j1) != footprint_pos(size, px, py, j2),
{
    let r1 = j1 / 3;
    let c1 = j1 % 3;
    let r2 = j2 / 3;
    let c2 = j2 % 3;
    assert(j1 == 3 * r1 + c1 && j2 == 3 * r2 + c2);
    assert((py + r1) * size + (px + c1) != (py + r2) * size + (px + c2)) by (nonlinear_arith)
        requires
            size >= 4,
            0 <= c1 < 3,
            0 <= c2 < 3,
            !(r1 == r2 && c1 == c2),
    ;
}

/// Each footprint cell of an in-bounds placement lies on the grid.
pub proof fn lemma_footprint_in_range(size: int, px: int, py: int, e: u16, j: int)
    requires
        4 <= size <= 6,
        0 <= px,
        0 <= py,
        placement_in_bounds(size, px, py, e),
        0 <= j < 9,
        mask_bit(e, j),
    ensures
        0 <= footprint_pos(size, px, py, j) < size * size,
        px + j % 3 < size,
        py + j / 3 < size,
{
    assert(crate::shape::cell(e, j % 3, j / 3) == mask_bit(e, j));
    crate::shape::lemma_cell_within_max(e, j % 3, j / 3);
    lemma_grid_index_in_range(size, px + j % 3, py + j / 3);
}

/// The footprint walk changes neither the grid's holes nor any tile's
/// color; a tile's level is zeroed exactly when a footprint cell covered
/// it, and is otherwise untouched.
pub proof fn lemma_walk_frame(
    tiles: Seq<Option<Tile>>,
    size: int,
    px: int,
    py: int,
    e: u16,
    mi: (usize, usize),
    k: int,
)
    requires
        0 <= k <= 9,
        4 <= size <= 6,
        0 <= px,
        0 <= py,
        placement_in_bounds(size, px, py, e),
        !footprint_has_hole(tiles, size, px, py, e),
        tiles.len() == size * size,
    ensures
        ({
            let w = walk(tiles, size, px, py, e, mi, k);
            &&& w.len() == tiles.len()
            &&& forall|i: int| 0 <= i < tiles.len() ==> ((#[trigger] w[i]) is Some <==> tiles[i] is Some)
            &&& forall|i: int|
                0 <= i < tiles.len() && tiles[i] is Some ==> (#[trigger] w[i])->Some_0.color
                    == tiles[i]->Some_0.color
            &&& forall|i: int|
                0 <= i < tiles.len() && tiles[i] is Some ==> (#[trigger] w[i])->Some_0.level == (
                if visited(size, px, py, e, k, i) {
                    0int
                } else {
                    tiles[i]->Some_0.level as int
                })
            &&& forall|i: int|
                0 <= i < tiles.len() && tiles[i] is Some && (
                #[trigger] w[i])->Some_0.played_material_index is Some ==> (
                w[i]->Some_0.played_material_index == Some(mi)
                    || w[i]->Some_0.played_material_index
                    == tiles[i]->Some_0.played_material_index)
        }),
    decreases k,
{
    if k > 0 {
        lemma_walk_frame(tiles, size, px, py, e, mi, k - 1);
        let w0 = walk(tiles, size, px, py, e, mi, k - 1);
        let w = walk(tiles, size, px, py, e, mi, k);
        if mask_bit(e, k - 1) {
            lemma_footprint_in_range(size, px, py, e, k - 1);
            let pos = footprint_pos(size, px, py, k - 1);
            assert(tiles[pos] is Some);
            assert(w0[pos] is Some);
            assert forall|i: int| 0 <= i < tiles.len() && tiles[i] is Some implies (
            #[trigger] w[i])->Some_0.level == (if visited(size, px, py, e, k, i) {
                0int
            } else {
                tiles[i]->Some_0.level as int
            }) by {
                if i == pos {
                    assert(visited(size, px, py, e, k, i));
                } else {
                    if visited(size, px, py, e, k, i) {
                        let j = choose|j: int|
                            0 <= j < k && #[trigger] mask_bit(e, j) && footprint_pos(
                                size,
                                px,
                                py,
                                j,
                            ) == i;
                        assert(j < k - 1 && visited(size, px, py, e, k - 1, i));
                    } else {
                        assert(!visited(size, px, py, e, k - 1, i));
                    }
                }
            }
        } else {
            assert forall|i: int| 0 <= i < tiles.len() implies visited(size, px, py, e, k, i)
                == visited(size, px, py, e, k - 1, i) by {
                if visited(size, px, py, e, k, i) {
                    let j = choose|j: int|
                        0 <= j < k && #[trigger] mask_bit(e, j) && footprint_pos(size, px, py, j)
                            == i;
                    assert(j != k - 1);
                }
            }
        }
    }
}

/// Coverage conservation: summed over the five colors, the coverage
/// counts of the first `k` slots equal the number of played tiles among
/// them.
pub proof fn lemma_coverage_conservation(
    tiles: Seq<Option<Tile>>,
    groups: Seq<Seq<Material>>,
    k: int,
)
    ensures
        count_color(tiles, groups, Color::Red, k) + count_color(tiles, groups, Color::Blue, k)
            + count_color(tiles, groups, Color::Green, k) + count_color(
            tiles,
            groups,
            Color::Yellow,
            k,
        ) + count_color(tiles, groups, Color::White, k) == count_played(tiles, k),
    decreases k,
{
    if k > 0 {
        lemma_coverage_conservation(tiles, groups, k - 1);
    }
}

/// A replay of `k` moves reads only the first `k` moves.
pub proof fn lemma_replay_prefix(
    tiles0: Seq<Option<Tile>>,
    scores0: Seq<Seq<u32>>,
    size: int,
    bonus: (u32, u32, u32),
    groups: Seq<Seq<Material>>,
    allow_overlap: bool,
    moves1: Seq<Move>,
    moves2: Seq<Move>,
    k: int,
)
    requires
        forall|j: int| 0 <= j < k ==> moves1[j] == moves2[j],
    ensures
        replay(tiles0, scores0, size, bonus, groups, allow_overlap, moves1, k) == replay(
            tiles0,
            scores0,
            size,
            bonus,
            groups,
            allow_overlap,
            moves2,
            k,
        ),
    decreases k,
{
    if k > 0 {
        lemma_replay_prefix(
            tiles0,
            scores0,
            size,
            bonus,
            groups,
            allow_overlap,
            moves1,
            moves2,
            k - 1,
        );
    }
}

/// A successful placement keeps every played mark pointing at an existing
/// material.
pub proof fn lemma_place_tiles_compat(
    tiles: Seq<Option<Tile>>,
    size: int,
    m: Material,
    pl: Placement,
    mi: (usize, usize),
    groups: Seq<Seq<Material>>,
)
    requires
        4 <= size <= 6,
        tiles.len() == size * size,
        placement_in_bounds(size, pl.index as int % size, pl.index as int / size, effective_mask(m, pl.transformation)),
        !footprint_has_hole(tiles, size, pl.index as int % size, pl.index as int / size, effective_mask(m, pl.transformation)),
        tiles_compatible(tiles, groups),
        mi.0 < groups.len(),
        mi.1 < groups[mi.0 as int].len(),
    ensures
        tiles_compatible(place_tiles(tiles, size, m, pl, mi), groups),
{
    let e = effective_mask(m, pl.transformation);
    let px = pl.index as int % size;
    let py = pl.index as int / size;
    lemma_walk_frame(tiles, size, px, py, e, mi, 9);
    let w = walk(tiles, size, px, py, e, mi, 9);
    let after = place_tiles(tiles, size, m, pl, mi);
    assert forall|i: int|
        0 <= i < after.len() && after[i] is Some && (
        #[trigger] after[i])->Some_0.played_material_index is Some implies {
        let p = after[i]->Some_0.played_material_index->Some_0;
        p.0 < groups.len() && p.1 < groups[p.0 as int].len()
    } by {
        assert(after[i] == bump_tile(w[i], size, px, py, e, i));
        assert(w[i]->Some_0.played_material_index == after[i]->Some_0.played_material_index);
        assert(tiles[i] is Some);
    }
}

/// The tile count of a well-formed board lies between 16 and 36.
pub proof fn lemma_board_total(n: int)
    requires
        4 <= n <= 6,
    ensures
        16 <= n * n <= 36,
{
    assert(16 <= n * n <= 36) by (nonlinear_arith)
        requires
            4 <= n <= 6,
    ;
}

} // verus!
