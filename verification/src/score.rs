//! Per-color score accumulators and coverage counters, and the final score
//! of a material group: each color contributes
//! `floor((base + raw) * (1 + ratio))`, where the ratio is the color's
//! share of the playfield if it covers the most tiles, and zero otherwise.
use vstd::prelude::*;

use crate::cauldron::Cauldron;
use crate::color::Color;
use crate::types::Material;

verus! {

/// A cap on accumulated raw scores; keeps every final-score computation
/// within u32.
pub const RAW_SCORE_CAP: u32 = 0x0200_0000;

/// The raw score a material group has gathered for each color.
#[derive(Debug, Default, Clone, Copy)]
pub struct ColorScoreSet {
    pub scores: [u32; 5],
}

/// The sum of the effect values of the materials of a group whose color is
/// `c`, over the first `n` materials.
pub open spec fn base_value(items: Seq<Material>, c: Color, n: int) -> int
    decreases n,
{
    if n <= 0 {
        0
    } else {
        base_value(items, c, n - 1) + if items[n - 1].color == c {
            items[n - 1].effect_value as int
        } else {
            0
        }
    }
}

/// Whether color `c` covers at least as many tiles as every other color.
pub open spec fn is_max_color(cov: Seq<u32>, c: Color) -> bool {
    forall|i: int| 0 <= i < 5 ==> #[trigger] cov[i] <= cov[c.index()]
}

/// What one color contributes to a group's final score:
/// `floor((base + raw) * (1 + count/total))` when the color covers the most
/// tiles, and `base + raw` otherwise.
pub open spec fn color_contribution(
    items: Seq<Material>,
    raw: int,
    cov: Seq<u32>,
    c: Color,
    total: int,
) -> int {
    let base = base_value(items, c, items.len() as int);
    if is_max_color(cov, c) {
        ((base + raw) * (total + cov[c.index()])) / total
    } else {
        base + raw
    }
}

/// The final score of a group: the sum of the contributions of the first
/// `n` colors.
pub open spec fn group_score(
    items: Seq<Material>,
    raws: Seq<u32>,
    cov: Seq<u32>,
    total: int,
    n: int,
) -> int
    decreases n,
{
    if n <= 0 {
        0
    } else {
        group_score(items, raws, cov, total, n - 1) + color_contribution(
            items,
            raws[n - 1] as int,
            cov,
            crate::color::spec_color_of_index(n - 1),
            total,
        )
    }
}

impl ColorScoreSet {
    /// The raw score gathered for a color.
    pub open spec fn spec_get(self, c: Color) -> u32 {
        self.scores[c.index()]
    }

    /// All five raw scores stay under the cap.
    pub open spec fn bounded(self, cap: int) -> bool {
        forall|i: int| 0 <= i < 5 ==> #[trigger] self.scores[i] <= cap
    }

    /// A score set with every color at zero.
    pub fn new() -> (r: Self)
        ensures
            r.scores@ =~= seq![0u32, 0u32, 0u32, 0u32, 0u32],
    {
        ColorScoreSet { scores: [0, 0, 0, 0, 0] }
    }

    /// The raw score gathered for a color.
    pub fn get(&self, color: Color) -> (r: u32)
        ensures
            r == self.spec_get(color),
    {
        self.scores[color.get_index()]
    }

    /// Adds points to the raw score of a color.
    pub fn add(&mut self, color: Color, points: u32)
        requires
            old(self).spec_get(color) + points <= u32::MAX,
        ensures
            final(self).scores@ == old(self).scores@.update(color.index(), (old(self).spec_get(
                color,
            ) + points) as u32),
    {
        let i = color.get_index();
        let updated = self.scores[i] + points;
        self.scores[i] = updated;
    }

    /// The five colors with their raw scores, in index order.
    pub fn into_colors(self) -> (r: [(Color, u32); 5])
        ensures
            forall|i: int|
                0 <= i < 5 ==> (#[trigger] r[i]).0.index() == i && r[i].1 == self.scores[i],
    {
        [
            (Color::Red, self.scores[0]),
            (Color::Blue, self.scores[1]),
            (Color::Green, self.scores[2]),
            (Color::Yellow, self.scores[3]),
            (Color::White, self.scores[4]),
        ]
    }

    /// The final score of a material group: per color,
    /// `floor((base + raw) * (1 + conditional ratio))`, summed.
    pub fn calculate_score(
        &self,
        items: &Vec<Material>,
        coverage: &CoverageInfo,
        playfield: &Cauldron,
    ) -> (r: u32)
        requires
            playfield.wf(),
            items@.len() <= crate::MAX_ITEMS_IN_GROUP,
            forall|i: int| 0 <= i < items@.len() ==> (#[trigger] items@[i]).wf(),
            self.bounded(RAW_SCORE_CAP as int),
            coverage.bounded(playfield.tiles@.len() as int),
        ensures
            r == group_score(items@, self.scores@, coverage.coverage@, playfield.tiles@.len() as int, 5),
    {
        let total = playfield.tiles.len();
        proof {
            crate::cauldron::lemma_board_total(playfield.size as int);
        }
        let mut sum: u32 = 0;
        let mut ci: usize = 0;
        while ci < 5
            invariant
                ci <= 5,
                16 <= total <= 36,
                playfield.wf(),
                items@.len() <= crate::MAX_ITEMS_IN_GROUP,
                forall|i: int| 0 <= i < items@.len() ==> (#[trigger] items@[i]).wf(),
                self.bounded(RAW_SCORE_CAP as int),
                coverage.bounded(total as int),
                total == playfield.tiles@.len(),
                sum == group_score(items@, self.scores@, coverage.coverage@, total as int, ci as int),
                sum <= ci * 67110366,
            decreases 5 - ci,
        {
            let color = Color::from_index(ci as i32);
            proof {
                crate::color::lemma_color_of_index(color);
            }
            let raw = self.scores[ci];

            // The base value: the summed effect values of this color's materials.
            let mut base: u32 = 0;
            let mut k: usize = 0;
            while k < items.len()
                invariant
                    k <= items@.len(),
                    items@.len() <= crate::MAX_ITEMS_IN_GROUP,
                    forall|i: int| 0 <= i < items@.len() ==> (#[trigger] items@[i]).wf(),
                    base == base_value(items@, color, k as int),
                    base <= k * crate::types::MAX_EFFECT_VALUE,
                decreases items@.len() - k,
            {
                if items[k].color == color {
                    base = base + items[k].effect_value;
                }
                k += 1;
            }

            // Whether this color ties for the widest coverage.
            let cnt = coverage.coverage[ci];
            let mut is_max = true;
            let mut j: usize = 0;
            while j < 5
                invariant
                    j <= 5,
                    cnt == coverage.coverage@[color.index()],
                    is_max == forall|i: int| 0 <= i < j ==> #[trigger] coverage.coverage@[i] <= cnt,
                decreases 5 - j,
            {
                if coverage.coverage[j] > cnt {
                    is_max = false;
                }
                proof {
                    if is_max {
                        assert forall|i: int| 0 <= i < j + 1 implies #[trigger] coverage.coverage@[i]
                            <= cnt by {}
                    }
                }
                j += 1;
            }

            proof {
                let b = base as int;
                let rw = raw as int;
                let t = total as int;
                let cn = cnt as int;
                assert((b + rw) * (t + cn) <= (RAW_SCORE_CAP + 751) * 72) by (nonlinear_arith)
                    requires
                        1 <= t <= 36,
                        0 <= cn <= t,
                        0 <= b <= 750,
                        0 <= rw <= RAW_SCORE_CAP,
                ;
                assert(0 <= ((b + rw) * (t + cn)) / t <= (b + rw) * 2) by (nonlinear_arith)
                    requires
                        t >= 1,
                        0 <= cn <= t,
                        b >= 0,
                        rw >= 0,
                ;
            }
            let contribution: u32 = if is_max {
                (((base + raw) as u64 * (total as u64 + cnt as u64)) / (total as u64)) as u32
            } else {
                base + raw
            };
            proof {
                assert(contribution <= 67110366);
                assert(sum <= 4 * 67110366);
            }
            sum = sum + contribution;
            ci += 1;
        }
        sum
    }
}

/// How many tiles each color covers with played materials.
#[derive(Debug, Default, Clone, Copy)]
pub struct CoverageInfo {
    pub coverage: [u32; 5],
}

impl CoverageInfo {
    /// All five counters stay under a bound.
    pub open spec fn bounded(self, cap: int) -> bool {
        forall|i: int| 0 <= i < 5 ==> #[trigger] self.coverage[i] <= cap
    }

    /// The total number of covered tiles over all colors.
    pub open spec fn spec_total(self) -> int {
        self.coverage[0] + self.coverage[1] + self.coverage[2] + self.coverage[3]
            + self.coverage[4]
    }

    /// A coverage with every count at zero.
    pub fn new() -> (r: Self)
        ensures
            r.coverage@ =~= seq![0u32, 0u32, 0u32, 0u32, 0u32],
    {
        CoverageInfo { coverage: [0, 0, 0, 0, 0] }
    }

    /// The coverage with one more tile of the given color.
    #[must_use]
    pub fn add_color(self, color: Color) -> (r: Self)
        requires
            self.coverage[color.index()] < u32::MAX,
        ensures
            r.coverage@ == self.coverage@.update(color.index(), (self.coverage[color.index()]
                + 1) as u32),
    {
        let mut r = self;
        let i = color.get_index();
        let updated = r.coverage[i] + 1;
        r.coverage[i] = updated;
        r
    }

    /// How many tiles the given color covers.
    pub fn get_color(&self, color: Color) -> (r: u32)
        ensures
            r == self.coverage[color.index()],
    {
        self.coverage[color.get_index()]
    }

    /// The total number of covered tiles.
    pub fn total(&self) -> (r: u64)
        ensures
            r == self.spec_total(),
    {
        self.coverage[0] as u64 + self.coverage[1] as u64 + self.coverage[2] as u64
            + self.coverage[3] as u64 + self.coverage[4] as u64
    }
}

} // verus!
