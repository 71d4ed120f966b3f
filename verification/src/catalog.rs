//! The read-only game-data catalog: the record types for items, boards,
//! effects, thresholds and recipe ingredients, and the conversion of a
//! catalog board into the solver's tiles. Loading the records from their
//! serialized form is a caller's concern; the solver only consumes the
//! plain values.
use vstd::prelude::*;
use vstd::string::StrSliceExecFns;

use crate::color::Color;
use crate::shape::Shape;
use crate::types::Tile;

verus! {

/// One ingredient of a recipe: an item or category tag and how many of it
/// the recipe takes.
pub struct Ingredient {
    pub ingredient: String,
    pub count: usize,
}

/// One item of the game.
pub struct Item {
    pub name: String,
    pub tag: String,
    pub shape_type: String,
    pub use_type: String,
    pub color: String,
    pub categories: Vec<String>,
}

/// The board an item is synthesized on: per row, the tile colors and the
/// bonus levels at each bonus display level.
pub struct ItemBoard {
    pub colors: [String; 6],
    pub bonus_levels: [[String; 6]; 3],
}

/// One goal threshold of an item effect.
pub struct ItemEffectThreshold {
    pub item_effect_tag: String,
    pub threshold: u32,
}

/// One effect an item can gain.
pub struct ItemEffect {
    pub name: String,
    pub tag: String,
    /// Hit sound effect.
    pub hit_se: Option<String>,
    pub group_tag: String,
    pub actions: [EffectAction; 2],
}

/// What an effect does when it triggers.
pub struct EffectAction {
    /// The action tag, or `ACT_NONE` for none.
    pub act_tag: String,
    /// The damage attribute, or `ATT_NONE` for none.
    pub attribute_tag: String,
    /// Minimum parameters for this action.
    pub min: [Option<String>; 2],
    /// Maximum parameters for this action.
    pub max: [Option<String>; 2],
}

/// The tile color a board character names, if any; a space is a hole.
pub open spec fn color_of_char(c: char) -> Option<Color> {
    if c == 'R' {
        Some(Color::Red)
    } else if c == 'B' {
        Some(Color::Blue)
    } else if c == 'G' {
        Some(Color::Green)
    } else if c == 'Y' {
        Some(Color::Yellow)
    } else if c == 'W' {
        Some(Color::White)
    } else {
        None
    }
}

/// The bonus level a board character names, if any; a space is level zero.
pub open spec fn level_of_char(c: char) -> Option<u32> {
    if c == ' ' {
        Some(0)
    } else if c == '1' {
        Some(1)
    } else if c == '2' {
        Some(2)
    } else if c == '3' {
        Some(3)
    } else {
        None
    }
}

/// Where a cauldron's window starts on the six-by-six catalog board: a
/// four-by-four cauldron uses the middle, the others the top left corner.
pub open spec fn board_offset(size: int) -> int {
    if size == 4 {
        1
    } else {
        0
    }
}

/// Whether the window cell at (x, y) can be read: its rows are long
/// enough, its color character names a color or a hole, and its bonus
/// character names a level.
pub open spec fn window_cell_ok(board: &ItemBoard, size: int, bonus_level: int, x: int, y: int) -> bool {
    let off = board_offset(size);
    let crow = board.colors[off + y]@;
    let brow = board.bonus_levels[bonus_level][off + y]@;
    &&& crow.len() >= off + size
    &&& brow.len() >= off + size
    &&& (crow[off + x] == ' ' || color_of_char(crow[off + x]) is Some)
    &&& level_of_char(brow[off + x]) is Some
}

/// Whether the board's window for the given size holds only readable
/// characters.
pub open spec fn board_window_ok(board: &ItemBoard, size: int, bonus_level: int) -> bool {
    forall|y: int, x: int|
        0 <= y < size && 0 <= x < size ==> #[trigger] window_cell_ok(board, size, bonus_level, x, y)
}

/// The tile the window's characters at (x, y) describe: a hole for a
/// space, else a fresh tile of the named color and bonus level.
pub open spec fn tile_of_chars(board: &ItemBoard, size: int, bonus_level: int, x: int, y: int) -> Option<Tile> {
    let off = board_offset(size);
    let cc = board.colors[off + y]@[off + x];
    let bc = board.bonus_levels[bonus_level][off + y]@[off + x];
    if cc == ' ' {
        None
    } else {
        Some(
            Tile {
                color: color_of_char(cc)->Some_0,
                level: level_of_char(bc)->Some_0,
                played_material_index: None,
            },
        )
    }
}

/// Row-major packing: cells of earlier rows pack below the current row.
proof fn lemma_row_major(size: int, y: int, x: int, yy: int, xx: int)
    requires
        0 <= xx < size,
        0 <= yy < y,
        0 <= x,
    ensures
        yy * size + xx < y * size + x,
        (y + 1) * size == y * size + size,
{
    assert(yy * size + xx < y * size && (y + 1) * size == y * size + size) by (nonlinear_arith)
        requires
            0 <= xx < size,
            0 <= yy < y,
    ;
}

/// Reads the window of a catalog board that a cauldron of the given size
/// uses, row-major, as the cauldron's tiles; fails on a malformed window.
pub fn create_tiles(board: &ItemBoard, size: usize, bonus_level: usize) -> (r: Result<
    Vec<Option<Tile>>,
    (),
>)
    requires
        4 <= size <= 6,
        bonus_level < 3,
    ensures
        r is Ok <==> board_window_ok(board, size as int, bonus_level as int),
        r is Ok ==> {
            let tiles = r->Ok_0@;
            &&& tiles.len() == size * size
            &&& forall|y: int, x: int|
                0 <= y < size && 0 <= x < size ==> #[trigger] tiles[y * size + x] == tile_of_chars(
                    board,
                    size as int,
                    bonus_level as int,
                    x,
                    y,
                )
        },
{
    let off: usize = if size == 4 {
        1
    } else {
        0
    };
    let mut tiles: Vec<Option<Tile>> = Vec::new();
    let mut y: usize = 0;
    while y < size
        invariant
            y <= size,
            4 <= size <= 6,
            bonus_level < 3,
            off == board_offset(size as int),
            tiles@.len() == y * size,
            forall|yy: int, xx: int|
                0 <= yy < y && 0 <= xx < size ==> #[trigger] tiles@[yy * size + xx]
                    == tile_of_chars(board, size as int, bonus_level as int, xx, yy),
            forall|yy: int, xx: int|
                0 <= yy < y && 0 <= xx < size ==> #[trigger] window_cell_ok(
                    board,
                    size as int,
                    bonus_level as int,
                    xx,
                    yy,
                ),
        decreases size - y,
    {
        let crow = board.colors[off + y].as_str();
        let brow = board.bonus_levels[bonus_level][off + y].as_str();
        if crow.unicode_len() < off + size || brow.unicode_len() < off + size {
            proof {
                assert(!window_cell_ok(board, size as int, bonus_level as int, 0, y as int));
            }
            return Err(());
        }
        let mut x: usize = 0;
        while x < size
            invariant
                x <= size,
                y < size,
                4 <= size <= 6,
                bonus_level < 3,
                off == board_offset(size as int),
                crow@ == board.colors[off + y]@,
                brow@ == board.bonus_levels[bonus_level as int][off + y]@,
                crow@.len() >= off + size,
                brow@.len() >= off + size,
                tiles@.len() == y * size + x,
                forall|yy: int, xx: int|
                    0 <= yy < y && 0 <= xx < size ==> #[trigger] tiles@[yy * size + xx]
                        == tile_of_chars(board, size as int, bonus_level as int, xx, yy),
                forall|xx: int|
                    0 <= xx < x ==> #[trigger] tiles@[y * size + xx] == tile_of_chars(
                        board,
                        size as int,
                        bonus_level as int,
                        xx,
                        y as int,
                    ),
                forall|xx: int|
                    0 <= xx < x ==> #[trigger] window_cell_ok(
                        board,
                        size as int,
                        bonus_level as int,
                        xx,
                        y as int,
                    ),
                forall|yy: int, xx: int|
                    0 <= yy < y && 0 <= xx < size ==> #[trigger] window_cell_ok(
                        board,
                        size as int,
                        bonus_level as int,
                        xx,
                        yy,
                    ),
            decreases size - x,
        {
            let cc = crow.get_char(off + x);
            let bc = brow.get_char(off + x);
            let level = if bc == ' ' {
                0u32
            } else if bc == '1' {
                1u32
            } else if bc == '2' {
                2u32
            } else if bc == '3' {
                3u32
            } else {
                proof {
                    assert(!window_cell_ok(board, size as int, bonus_level as int, x as int, y as int));
                }
                return Err(());
            };
            let slot = if cc == ' ' {
                None
            } else {
                let color = if cc == 'R' {
                    Color::Red
                } else if cc == 'B' {
                    Color::Blue
                } else if cc == 'G' {
                    Color::Green
                } else if cc == 'Y' {
                    Color::Yellow
                } else if cc == 'W' {
                    Color::White
                } else {
                    proof {
                        assert(!window_cell_ok(board, size as int, bonus_level as int, x as int, y as int));
                    }
                    return Err(());
                };
                Some(Tile { color, level, played_material_index: None })
            };
            proof {
                assert(window_cell_ok(board, size as int, bonus_level as int, x as int, y as int));
                assert(slot == tile_of_chars(board, size as int, bonus_level as int, x as int, y as int));
            }
            tiles.push(slot);
            proof {
                assert forall|yy: int, xx: int|
                    0 <= yy < y && 0 <= xx < size implies #[trigger] tiles@[yy * size + xx]
                    == tile_of_chars(board, size as int, bonus_level as int, xx, yy) by {
                    lemma_row_major(size as int, y as int, x as int, yy, xx);
                }
            }
            x += 1;
        }
        proof {
            assert((y + 1) * size == y * size + size) by (nonlinear_arith);
            assert(tiles@.len() == (y + 1) * size);
        }
        y += 1;
    }
    proof {
        assert(tiles@.len() == size * size);
        assert forall|y2: int, x2: int| 0 <= y2 < size && 0 <= x2 < size implies
            #[trigger] tiles@[y2 * size + x2] == tile_of_chars(
            board,
            size as int,
            bonus_level as int,
            x2,
            y2,
        ) by {}
    }
    Ok(tiles)
}

/// Builds a material's shape from a catalog shape: the first `size` cell
/// indices of the shape's list.
pub fn create_shape(shape_indices: &Vec<usize>, size: usize) -> (r: Result<Shape, ()>)
    ensures
        r is Ok <==> forall|k: int|
            0 <= k < shape_indices@.len() && k < size ==> shape_indices@[k] < 9,
        r is Ok ==> r->Ok_0.wf() && forall|i: int|
            0 <= i < 9 ==> #[trigger] crate::shape::mask_bit(r->Ok_0.0, i) == exists|k: int|
                0 <= k < shape_indices@.len() && k < size && shape_indices@[k] == i,
{
    let mut prefix: Vec<usize> = Vec::new();
    let mut k: usize = 0;
    while k < shape_indices.len() && k < size
        invariant
            k <= shape_indices@.len(),
            k <= size,
            prefix@.len() == k,
            forall|j: int| 0 <= j < k ==> #[trigger] prefix@[j] == shape_indices@[j],
            forall|j: int| 0 <= j < k ==> #[trigger] prefix@[j] < 9,
        decreases shape_indices@.len() - k,
    {
        let idx = shape_indices[k];
        if idx >= 9 {
            proof {
                assert(0 <= k < shape_indices@.len() && (k as int) < size && !(shape_indices@[
                k as int] < 9));
            }
            return Err(());
        }
        prefix.push(idx);
        k += 1;
    }
    proof {
        assert forall|k2: int| 0 <= k2 < shape_indices@.len() && k2 < size implies shape_indices@[
        k2] < 9 by {
            assert(k2 < k);
            assert(prefix@[k2] == shape_indices@[k2]);
        }
    }
    let shape = Shape::from_indices(&prefix);
    proof {
        assert forall|i: int| 0 <= i < 9 implies #[trigger] crate::shape::mask_bit(shape.0, i)
            == exists|j: int|
            0 <= j < shape_indices@.len() && j < size && shape_indices@[j] == i by {
            if prefix@.contains(i as usize) {
                let j = choose|j: int| 0 <= j < prefix@.len() && prefix@[j] == i as usize;
                assert(shape_indices@[j] == i);
            }
            if exists|j: int| 0 <= j < shape_indices@.len() && j < size && shape_indices@[j] == i {
                let j = choose|j: int|
                    0 <= j < shape_indices@.len() && j < size && shape_indices@[j] == i;
                assert(prefix@[j] == i as usize);
                assert(prefix@.contains(i as usize));
            }
        }
    }
    Ok(shape)
}

} // verus!
