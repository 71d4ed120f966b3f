//! The data types of the puzzle: tiles, materials, goals, placements and
//! the cauldron's optional properties.
use vstd::prelude::*;

use crate::color::Color;
use crate::shape::Shape;
use crate::shape::Transformation;
use crate::MAX_GOALS;
use crate::MAX_ITEMS_IN_GROUP;

verus! {

/// The largest effect value a material may carry.
pub const MAX_EFFECT_VALUE: u32 = 150;

/// The kinds of transformations the solver may try.
#[derive(Debug, Default, Clone, Copy, PartialEq, Eq, Structural)]
pub enum TransformationType {
    /// Place every material as it is.
    #[default]
    NoTransform,
    FlipHorizontal,
    FlipVertical,
    Rotate,
}

/// A tile of the cauldron's grid.
#[derive(Debug, Copy, Clone)]
pub struct Tile {
    pub color: Color,
    /// The bonus level of the tile, between 0 and 3 inclusive.
    pub level: u32,
    /// The group and item index of the material covering this tile, if any.
    pub played_material_index: Option<(usize, usize)>,
}

impl Tile {
    /// The bonus level never exceeds 3.
    pub open spec fn wf(self) -> bool {
        self.level <= 3
    }
}

/// An item that can be placed in the cauldron.
#[derive(Debug, Copy, Clone)]
pub struct Material {
    pub color: Color,
    /// The base value the material adds to the score, before the coverage
    /// multiplier.
    pub effect_value: u32,
    /// The shape of the material.
    pub shape: Shape,
}

impl Material {
    /// A material's shape is a non-empty nine-bit mask, and its effect value
    /// stays within the game's range.
    pub open spec fn wf(self) -> bool {
        &&& self.shape.wf()
        &&& self.shape.0 != 0
        &&& self.effect_value <= MAX_EFFECT_VALUE
    }

    pub fn new(color: Color, quality: u32, shape: Shape) -> (r: Self)
        ensures
            r.color == color,
            r.effect_value == quality,
            r.shape == shape,
    {
        Material { color, effect_value: quality, shape }
    }
}

/// Every group is well-formed: group and item counts stay within the game's
/// limits and every material is well-formed.
pub open spec fn material_groups_wf(groups: Seq<Seq<Material>>) -> bool {
    &&& groups.len() <= MAX_GOALS
    &&& forall|g: int|
        0 <= g < groups.len() ==> (#[trigger] groups[g]).len() <= MAX_ITEMS_IN_GROUP
    &&& forall|g: int, i: int|
        0 <= g < groups.len() && 0 <= i < groups[g].len() ==> (#[trigger] groups[g][i]).wf()
}

/// The view of material groups as nested sequences.
pub open spec fn groups_view(groups: Seq<Vec<Material>>) -> Seq<Seq<Material>> {
    groups.map_values(|g: Vec<Material>| g@)
}

/// A goal: the ascending thresholds at which one more level of the goal
/// counts as achieved.
#[derive(Debug, Clone)]
pub struct Goal {
    /// Thresholds where the goal is considered met.
    pub effect_value_thresholds: Vec<u32>,
}

/// The placement of a material on the playfield.
#[derive(Debug, Copy, Clone, Default)]
pub struct Placement {
    /// The tile index in the playfield where the material is placed.
    pub index: usize,
    pub transformation: Option<Transformation>,
}

impl Placement {
    pub fn new(index: usize, transformation: Option<Transformation>) -> (r: Self)
        ensures
            r.index == index,
            r.transformation == transformation,
    {
        Placement { index, transformation }
    }
}

/// One move of a solution: which material is placed, and where.
#[derive(Debug, Copy, Clone)]
pub struct Move {
    pub material_index: (usize, usize),
    pub placement: Placement,
}

/// Optional properties of a cauldron that change how score is calculated.
#[derive(Debug, Copy, Clone, PartialEq, Eq, Structural)]
pub struct CauldronProperties(pub u32);

/// The flag bit of the synergy property.
pub const SYNERGY_FLAG: u32 = 0b001;

impl CauldronProperties {
    /// No properties.
    pub fn empty() -> (r: Self)
        ensures
            r.0 == 0,
    {
        CauldronProperties(0)
    }

    /// The synergy property: bonuses matching the liquid color would be
    /// amplified. The game rule behind it is not defined yet, so scoring
    /// treats it as having no effect.
    pub fn synergy() -> (r: Self)
        ensures
            r.0 == SYNERGY_FLAG,
    {
        CauldronProperties(SYNERGY_FLAG)
    }

    /// Whether every flag of `other` is set in `self`.
    pub fn contains(self, other: Self) -> (r: bool)
        ensures
            r == (self.0 & other.0 == other.0),
    {
        self.0 & other.0 == other.0
    }
}

} // verus!
