//! Ready-made sample data: the five-by-five board, goals and materials of
//! the uni-bag synthesis.
use vstd::prelude::*;

use crate::color::Color;
use crate::cauldron::Cauldron;
use crate::shape::Shape;
use crate::types::CauldronProperties;
use crate::types::Goal;
use crate::types::Material;
use crate::types::Tile;

verus! {

/// A fresh, uncovered tile of the given color and bonus level.
pub open spec fn fresh_tile(color: Color, level: u32) -> Option<Tile> {
    Some(Tile { color, level, played_material_index: None })
}

/// A fresh tile of the given color and bonus level.
fn tile(color: Color, level: u32) -> (r: Option<Tile>)
    requires
        level <= 3,
    ensures
        r == fresh_tile(color, level),
{
    Some(Tile { color, level, played_material_index: None })
}

/// The five-by-five uni-bag board with bonus display level one.
pub fn uni_bag_5x5_bonus1() -> (r: Cauldron)
    ensures
        r.wf(),
        r.size == 5,
        r.bonus_scores == (3u32, 5u32, 7u32),
        r.color == Color::White,
        r.properties.0 == 0,
        r.tiles@ =~= seq![
            fresh_tile(Color::Blue, 0),
            fresh_tile(Color::Green, 0),
            fresh_tile(Color::Yellow, 0),
            fresh_tile(Color::Yellow, 0),
            fresh_tile(Color::White, 0),
            fresh_tile(Color::White, 0),
            fresh_tile(Color::Yellow, 0),
            fresh_tile(Color::Yellow, 0),
            fresh_tile(Color::Yellow, 0),
            fresh_tile(Color::Yellow, 1),
            fresh_tile(Color::Red, 0),
            fresh_tile(Color::Yellow, 0),
            fresh_tile(Color::Red, 1),
            fresh_tile(Color::Red, 0),
            fresh_tile(Color::Yellow, 0),
            fresh_tile(Color::Red, 0),
            fresh_tile(Color::Yellow, 0),
            fresh_tile(Color::Red, 0),
            fresh_tile(Color::Red, 0),
            fresh_tile(Color::Yellow, 1),
            fresh_tile(Color::White, 0),
            fresh_tile(Color::Yellow, 2),
            fresh_tile(Color::Yellow, 0),
            fresh_tile(Color::Yellow, 0),
            fresh_tile(Color::Yellow, 0),
        ],
        forall|i: int|
            0 <= i < r.tiles@.len() ==> (#[trigger] r.tiles@[i]) is Some
                && r.tiles@[i]->Some_0.played_material_index is None,
{
    let mut tiles: Vec<Option<Tile>> = Vec::new();
    tiles.push(tile(Color::Blue, 0));
    tiles.push(tile(Color::Green, 0));
    tiles.push(tile(Color::Yellow, 0));
    tiles.push(tile(Color::Yellow, 0));
    tiles.push(tile(Color::White, 0));
    tiles.push(tile(Color::White, 0));
    tiles.push(tile(Color::Yellow, 0));
    tiles.push(tile(Color::Yellow, 0));
    tiles.push(tile(Color::Yellow, 0));
    tiles.push(tile(Color::Yellow, 1));
    tiles.push(tile(Color::Red, 0));
    tiles.push(tile(Color::Yellow, 0));
    tiles.push(tile(Color::Red, 1));
    tiles.push(tile(Color::Red, 0));
    tiles.push(tile(Color::Yellow, 0));
    tiles.push(tile(Color::Red, 0));
    tiles.push(tile(Color::Yellow, 0));
    tiles.push(tile(Color::Red, 0));
    tiles.push(tile(Color::Red, 0));
    tiles.push(tile(Color::Yellow, 1));
    tiles.push(tile(Color::White, 0));
    tiles.push(tile(Color::Yellow, 2));
    tiles.push(tile(Color::Yellow, 0));
    tiles.push(tile(Color::Yellow, 0));
    tiles.push(tile(Color::Yellow, 0));
    Cauldron {
        size: 5,
        tiles,
        bonus_scores: (3, 5, 7),
        color: Color::White,
        properties: CauldronProperties(0),
    }
}

/// The three goals of the uni-bag synthesis.
pub fn uni_bag() -> (r: Vec<Goal>)
    ensures
        r@.len() == 3,
        r@[0].effect_value_thresholds@ =~= seq![50u32, 100u32],
        r@[1].effect_value_thresholds@ =~= seq![30u32, 50u32],
        r@[2].effect_value_thresholds@ =~= seq![30u32, 55u32],
{
    let mut goals: Vec<Goal> = Vec::new();
    let mut t0: Vec<u32> = Vec::new();
    t0.push(50);
    t0.push(100);
    goals.push(Goal { effect_value_thresholds: t0 });
    let mut t1: Vec<u32> = Vec::new();
    t1.push(30);
    t1.push(50);
    goals.push(Goal { effect_value_thresholds: t1 });
    let mut t2: Vec<u32> = Vec::new();
    t2.push(30);
    t2.push(55);
    goals.push(Goal { effect_value_thresholds: t2 });
    goals
}

/// A mask whose occupied cells are exactly the leftmost column is the
/// vertical tri.
proof fn lemma_vertical_tri_bits(b: u16)
    requires
        b < 512,
        crate::shape::cell(b, 0, 0),
        !crate::shape::cell(b, 1, 0),
        !crate::shape::cell(b, 2, 0),
        crate::shape::cell(b, 0, 1),
        !crate::shape::cell(b, 1, 1),
        !crate::shape::cell(b, 2, 1),
        crate::shape::cell(b, 0, 2),
        !crate::shape::cell(b, 1, 2),
        !crate::shape::cell(b, 2, 2),
    ensures
        b == 0b001_001_001,
{
    assert(b == 0b001_001_001) by (bit_vector)
        requires
            b < 512,
            (b >> 0u16) & 1 == 1,
            (b >> 1u16) & 1 != 1,
            (b >> 2u16) & 1 != 1,
            (b >> 3u16) & 1 == 1,
            (b >> 4u16) & 1 != 1,
            (b >> 5u16) & 1 != 1,
            (b >> 6u16) & 1 == 1,
            (b >> 7u16) & 1 != 1,
            (b >> 8u16) & 1 != 1,
    ;
}

/// A mask whose occupied cells are exactly the top-left corner and the two
/// cells under and beside it is the beehive piece.
proof fn lemma_beehive_bits(b: u16)
    requires
        b < 512,
        crate::shape::cell(b, 0, 0),
        !crate::shape::cell(b, 1, 0),
        !crate::shape::cell(b, 2, 0),
        crate::shape::cell(b, 0, 1),
        crate::shape::cell(b, 1, 1),
        !crate::shape::cell(b, 2, 1),
        !crate::shape::cell(b, 0, 2),
        !crate::shape::cell(b, 1, 2),
        !crate::shape::cell(b, 2, 2),
    ensures
        b == 0b000_011_001,
{
    assert(b == 0b000_011_001) by (bit_vector)
        requires
            b < 512,
            (b >> 0u16) & 1 == 1,
            (b >> 1u16) & 1 != 1,
            (b >> 2u16) & 1 != 1,
            (b >> 3u16) & 1 == 1,
            (b >> 4u16) & 1 == 1,
            (b >> 5u16) & 1 != 1,
            (b >> 6u16) & 1 != 1,
            (b >> 7u16) & 1 != 1,
            (b >> 8u16) & 1 != 1,
    ;
}

/// A uni: yellow, effect value 15, a vertical three-cell bar.
pub fn uni() -> (r: Material)
    ensures
        r.wf(),
        r.color == Color::Yellow,
        r.effect_value == 15,
        r.shape == Shape(0b001_001_001u16),
    {
    let shape = Shape::from_binary([0b100, 0b100, 0b100]);
    proof {
        assert((0b100u8 >> 2) & 1 == 1 && (0b100u8 >> 1) & 1 == 0 && (0b100u8 >> 0) & 1 == 0
            && (0b000u8 >> 2) & 1 == 0 && (0b000u8 >> 1) & 1 == 0 && (0b000u8 >> 0) & 1 == 0
            && (0b110u8 >> 2) & 1 == 1 && (0b110u8 >> 1) & 1 == 1 && (0b110u8 >> 0) & 1 == 0)
            by (bit_vector);
        assert(shape.spec_cell(0, 0) && !shape.spec_cell(1, 0) && !shape.spec_cell(2, 0)
            && shape.spec_cell(0, 1) && !shape.spec_cell(1, 1) && !shape.spec_cell(2, 1)
            && shape.spec_cell(0, 2) && !shape.spec_cell(1, 2) && !shape.spec_cell(2, 2));
        lemma_vertical_tri_bits(shape.0);
        assert(shape.spec_cell(0, 0));
        crate::shape::lemma_cell_within_max(shape.0, 0, 0);
    }
    Material { color: Color::Yellow, effect_value: 15, shape }
}

/// A beehive: yellow, effect value 10, a small corner piece.
pub fn beehive() -> (r: Material)
    ensures
        r.wf(),
        r.color == Color::Yellow,
        r.effect_value == 10,
        r.shape == Shape(0b000_011_001u16),
{
    let shape = Shape::from_binary([0b100, 0b110, 0b000]);
    proof {
        assert((0b100u8 >> 2) & 1 == 1 && (0b100u8 >> 1) & 1 == 0 && (0b100u8 >> 0) & 1 == 0
            && (0b000u8 >> 2) & 1 == 0 && (0b000u8 >> 1) & 1 == 0 && (0b000u8 >> 0) & 1 == 0
            && (0b110u8 >> 2) & 1 == 1 && (0b110u8 >> 1) & 1 == 1 && (0b110u8 >> 0) & 1 == 0)
            by (bit_vector);
        assert(shape.spec_cell(0, 0) && !shape.spec_cell(1, 0) && !shape.spec_cell(2, 0)
            && shape.spec_cell(0, 1) && shape.spec_cell(1, 1) && !shape.spec_cell(2, 1)
            && !shape.spec_cell(0, 2) && !shape.spec_cell(1, 2) && !shape.spec_cell(2, 2));
        lemma_beehive_bits(shape.0);
        assert(shape.spec_cell(0, 0));
        crate::shape::lemma_cell_within_max(shape.0, 0, 0);
    }
    Material { color: Color::Yellow, effect_value: 10, shape }
}

/// A broken stone: white, effect value 15, a vertical three-cell bar.
pub fn broken_stone() -> (r: Material)
    ensures
        r.wf(),
        r.color == Color::White,
        r.effect_value == 15,
        r.shape == Shape(0b001_001_001u16),
{
    let shape = Shape::from_binary([0b100, 0b100, 0b100]);
    proof {
        assert((0b100u8 >> 2) & 1 == 1 && (0b100u8 >> 1) & 1 == 0 && (0b100u8 >> 0) & 1 == 0
            && (0b000u8 >> 2) & 1 == 0 && (0b000u8 >> 1) & 1 == 0 && (0b000u8 >> 0) & 1 == 0
            && (0b110u8 >> 2) & 1 == 1 && (0b110u8 >> 1) & 1 == 1 && (0b110u8 >> 0) & 1 == 0)
            by (bit_vector);
        assert(shape.spec_cell(0, 0) && !shape.spec_cell(1, 0) && !shape.spec_cell(2, 0)
            && shape.spec_cell(0, 1) && !shape.spec_cell(1, 1) && !shape.spec_cell(2, 1)
            && shape.spec_cell(0, 2) && !shape.spec_cell(1, 2) && !shape.spec_cell(2, 2));
        lemma_vertical_tri_bits(shape.0);
        assert(shape.spec_cell(0, 0));
        crate::shape::lemma_cell_within_max(shape.0, 0, 0);
    }
    Material { color: Color::White, effect_value: 15, shape }
}

} // verus!
