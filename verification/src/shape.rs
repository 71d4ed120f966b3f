//! The 3x3 bit-packed shape of a material, its transformations and its
//! normal form. Bit `y * 3 + x` of the mask is the cell at column `x`,
//! row `y`; only the low nine bits of the mask may be set.
use vstd::prelude::*;

use crate::neighbours::ShapeNeighbours;
use crate::neighbours::offset_in_region;

verus! {

/// The width of a shape's grid.
pub const SHAPE_WIDTH: usize = 3;

/// The height of a shape's grid.
pub const SHAPE_HEIGHT: usize = 3;

/// The number of distinct shape masks.
pub const SHAPE_COUNT: u16 = 512;

/// A rigid transformation of a shape.
#[derive(Debug, Copy, Clone)]
pub enum Transformation {
    FlipHorizontal,
    FlipVertical,
    Rotate90,
    Rotate180,
    Rotate270,
}

/// A shape: a 3x3 boolean mask packed into the low nine bits of a u16.
#[derive(Debug, Copy, Clone, PartialEq, Eq, Structural)]
pub struct Shape(pub u16);

/// Whether bit `i` of the mask is set.
pub open spec fn mask_bit(bits: u16, i: int) -> bool {
    (bits >> (i as u16)) & 1 == 1
}

/// Whether the cell at column `x`, row `y` of the mask is occupied.
pub open spec fn cell(bits: u16, x: int, y: int) -> bool {
    mask_bit(bits, y * 3 + x)
}

/// The number of occupied cells of the mask.
pub open spec fn popcount(bits: u16) -> int {
    ((bits >> 0) & 1) + ((bits >> 1) & 1) + ((bits >> 2) & 1) + ((bits >> 3) & 1) + ((bits >> 4)
        & 1) + ((bits >> 5) & 1) + ((bits >> 6) & 1) + ((bits >> 7) & 1) + ((bits >> 8) & 1)
}

/// The mask mirrored left-to-right.
pub open spec fn raw_flip_h(b: u16) -> u16 {
    (b & 0b010_010_010) | ((b & 0b100_100_100) >> 2) | ((b & 0b001_001_001) << 2)
}

/// The mask mirrored top-to-bottom.
pub open spec fn raw_flip_v(b: u16) -> u16 {
    (b & 0b000_111_000) | ((b & 0b111_000_000) >> 6) | ((b & 0b000_000_111) << 6)
}

/// The mask rotated a quarter turn clockwise.
pub open spec fn raw_rotate_90(b: u16) -> u16 {
    ((b >> 6) & 1) | (((b >> 3) & 1) << 1) | ((b & 1) << 2) | (((b >> 7) & 1) << 3) | (((b >> 4)
        & 1) << 4) | (((b >> 1) & 1) << 5) | (((b >> 8) & 1) << 6) | (((b >> 5) & 1) << 7) | (((b
        >> 2) & 1) << 8)
}

/// The mask permuted by a transformation, before any normalization.
pub open spec fn raw_transform(b: u16, t: Transformation) -> u16 {
    match t {
        Transformation::FlipHorizontal => raw_flip_h(b),
        Transformation::FlipVertical => raw_flip_v(b),
        Transformation::Rotate90 => raw_rotate_90(b),
        Transformation::Rotate180 => raw_rotate_90(raw_rotate_90(b)),
        Transformation::Rotate270 => raw_rotate_90(raw_rotate_90(raw_rotate_90(b))),
    }
}

/// The mask permuted by a sequence of transformations, from the first on.
pub open spec fn raw_transform_all(b: u16, ts: Seq<Transformation>) -> u16
    decreases ts.len(),
{
    if ts.len() == 0 {
        b
    } else {
        raw_transform_all(raw_transform(b, ts[0]), ts.drop_first())
    }
}

/// One step of normalization: the mask moved one column left when the
/// leftmost column is empty.
pub open spec fn norm_step_left(b: u16) -> u16 {
    if b & 0b001_001_001 == 0 {
        b >> 1
    } else {
        b
    }
}

/// One step of normalization: the mask moved one row up when the topmost
/// row is empty.
pub open spec fn norm_step_up(b: u16) -> u16 {
    if b & 0b000_000_111 == 0 {
        b >> 3
    } else {
        b
    }
}

/// The normal form of the mask: moved left, then up, until it touches both
/// the left and the top edge (or is empty).
pub open spec fn normalized_bits(b: u16) -> u16 {
    norm_step_up(norm_step_up(norm_step_left(norm_step_left(b))))
}

/// Whether the mask touches both the left and the top edge, or is empty.
pub open spec fn is_normalized_bits(b: u16) -> bool {
    b == 0 || (b & 0b001_001_001 != 0 && b & 0b000_000_111 != 0)
}

/// The dot bits of the first braille character of a mask: the mask's
/// leftmost two columns, in braille dot order.
pub open spec fn braille_lo(b: u16) -> u16 {
    ((b >> 0) & 1) | (((b >> 3) & 1) << 1) | (((b >> 6) & 1) << 2) | (((b >> 1) & 1) << 3) | (((b
        >> 4) & 1) << 4) | (((b >> 7) & 1) << 5)
}

/// The dot bits of the second braille character of a mask: the mask's
/// rightmost column, in braille dot order.
pub open spec fn braille_hi(b: u16) -> u16 {
    ((b >> 2) & 1) | (((b >> 5) & 1) << 1) | (((b >> 8) & 1) << 2)
}

/// Relies on char::from_u32: every value below 0xD800 is a valid unicode
/// scalar, so the conversion succeeds and keeps the numeric value.
#[verifier::external_body]
fn char_from_u32(v: u32) -> (c: char)
    requires
        v < 0xD800,
    ensures
        c as u32 == v,
{
    char::from_u32(v).unwrap()
}

/// Relies on String::push: appends exactly the given character.
#[verifier::external_body]
fn push_char(s: &mut String, c: char)
    ensures
        final(s)@ == old(s)@.push(c),
{
    s.push(c)
}

/// The column span of the mask, minus one.
pub open spec fn max_x_bits(b: u16) -> int {
    if b & 0b100_100_100 != 0 {
        2
    } else if b & 0b010_010_010 != 0 {
        1
    } else {
        0
    }
}

/// The row span of the mask, minus one.
pub open spec fn max_y_bits(b: u16) -> int {
    if b & 0b111_000_000 != 0 {
        2
    } else if b & 0b000_111_000 != 0 {
        1
    } else {
        0
    }
}

/// Whether (x, y) is an occupied cell of the mask, treating coordinates
/// outside the 3x3 grid as empty.
pub open spec fn occupied(b: u16, x: int, y: int) -> bool {
    0 <= x < 3 && 0 <= y < 3 && cell(b, x, y)
}

/// Whether the offset (px, py) around the mask is a neighbour: not itself
/// an occupied cell, but touching one of the eight cells around it.
pub open spec fn is_neighbour(b: u16, px: int, py: int) -> bool {
    &&& !occupied(b, px, py)
    &&& (occupied(b, px - 1, py - 1) || occupied(b, px, py - 1) || occupied(b, px + 1, py - 1)
        || occupied(b, px - 1, py) || occupied(b, px + 1, py) || occupied(b, px - 1, py + 1)
        || occupied(b, px, py + 1) || occupied(b, px + 1, py + 1))
}

impl Shape {
    /// Only the nine mask bits may be set.
    pub open spec fn wf(self) -> bool {
        self.0 < 512
    }

    /// Whether the cell at column `x`, row `y` is occupied.
    pub open spec fn spec_cell(self, x: int, y: int) -> bool {
        cell(self.0, x, y)
    }

    /// Builds a shape from its occupied cell indices (`y * 3 + x`).
    pub fn from_indices(indices: &Vec<usize>) -> (r: Self)
        requires
            forall|k: int| 0 <= k < indices@.len() ==> indices@[k] < 9,
        ensures
            r.wf(),
            forall|i: int|
                0 <= i < 9 ==> #[trigger] mask_bit(r.0, i) == indices@.contains(i as usize),
    {
        let mut bits: u16 = 0;
        proof {
            assert forall|i: int| 0 <= i < 9 implies !mask_bit(0u16, i) by {
                let j = i as u16;
                assert((0u16 >> j) & 1 == 0) by (bit_vector);
            }
        }
        let mut k: usize = 0;
        while k < indices.len()
            invariant
                k <= indices@.len(),
                forall|j: int| 0 <= j < indices@.len() ==> indices@[j] < 9,
                bits < 512,
                forall|i: int|
                    0 <= i < 9 ==> #[trigger] mask_bit(bits, i) == exists|j: int|
                        0 <= j < k && indices@[j] == i,
            decreases indices@.len() - k,
        {
            let idx = indices[k];
            let new_bits = bits | (1u16 << idx);
            proof {
                let b = bits;
                let s = idx as u16;
                assert(((b | (1u16 << s)) >> s) & 1 == 1 && (b | (1u16 << s)) < 512)
                    by (bit_vector)
                    requires
                        s < 9,
                        b < 512,
                ;
                assert(mask_bit(new_bits, idx as int));
                assert forall|i: int| 0 <= i < 9 && i != idx implies #[trigger] mask_bit(
                    new_bits,
                    i,
                ) == mask_bit(b, i) by {
                    let j = i as u16;
                    assert(((b | (1u16 << s)) >> j) & 1 == (b >> j) & 1) by (bit_vector)
                        requires
                            s < 9,
                            j < 9,
                            j != s,
                    ;
                }
                assert forall|i: int| 0 <= i < 9 implies #[trigger] mask_bit(new_bits, i) == exists|
                    j: int,
                |
                    0 <= j < k + 1 && indices@[j] == i by {
                    if i == idx {
                        assert(indices@[k as int] == i);
                    } else {
                        if mask_bit(new_bits, i) {
                            let j = choose|j: int| 0 <= j < k && indices@[j] == i;
                            assert(0 <= j < k + 1 && indices@[j] == i);
                        }
                    }
                }
            }
            bits = new_bits;
            k += 1;
        }
        proof {
            assert forall|i: int| 0 <= i < 9 implies (#[trigger] mask_bit(bits, i)
                == indices@.contains(i as usize)) by {
                if indices@.contains(i as usize) {
                    let j = choose|j: int| 0 <= j < indices@.len() && indices@[j] == i as usize;
                    assert(0 <= j < k && indices@[j] == i);
                }
            }
        }
        Shape(bits)
    }

    /// Builds a shape from three binary rows; row 0 is the top row and the
    /// most significant of the three row bits is the leftmost column.
    pub fn from_binary(arr: [u8; 3]) -> (r: Self)
        requires
            arr[0] < 8,
            arr[1] < 8,
            arr[2] < 8,
        ensures
            r.wf(),
            forall|x: int, y: int|
                0 <= x < 3 && 0 <= y < 3 ==> r.spec_cell(x, y) == ((arr[y] >> ((2 - x) as u8)) & 1
                    == 1),
    {
        let r0 = arr[0] as u16;
        let r1 = arr[1] as u16;
        let r2 = arr[2] as u16;
        let bits = ((r0 >> 2) & 1) | (((r0 >> 1) & 1) << 1) | ((r0 & 1) << 2) | (((r1 >> 2) & 1)
            << 3) | (((r1 >> 1) & 1) << 4) | ((r1 & 1) << 5) | (((r2 >> 2) & 1) << 6) | (((r2 >> 1)
            & 1) << 7) | ((r2 & 1) << 8);
        proof {
            let a0 = arr[0];
            let a1 = arr[1];
            let a2 = arr[2];
            let b = bits;
            let a0u = arr[0] as u16;
            let a1u = arr[1] as u16;
            let a2u = arr[2] as u16;
            assert(((((a0u) >> 2) & 1) | (((a0u >> 1) & 1) << 1) | ((a0u & 1) << 2) | (((a1u >> 2)
                & 1) << 3) | (((a1u >> 1) & 1) << 4) | ((a1u & 1) << 5) | (((a2u >> 2) & 1) << 6) | (
            ((a2u >> 1) & 1) << 7) | ((a2u & 1) << 8)) < 512) by (bit_vector);
            assert(bits < 512);
            assert forall|x: int, y: int| 0 <= x < 3 && 0 <= y < 3 implies (cell(bits, x, y) == ((
            arr[y] >> ((2 - x) as u8)) & 1 == 1)) by {
                let j = (y * 3 + x) as u16;
                let s = (2 - x) as u8;
                let b = bits;
                // The mask bit at j is exactly row bit s of the matching row.
                if y == 0 {
                    assert((((((a0 as u16) >> 2) & 1) | (((a0 as u16 >> 1) & 1) << 1) | ((a0 as u16
                        & 1) << 2) | (((a1 as u16 >> 2) & 1) << 3) | (((a1 as u16 >> 1) & 1) << 4)
                        | ((a1 as u16 & 1) << 5) | (((a2 as u16 >> 2) & 1) << 6) | (((a2 as u16
                        >> 1) & 1) << 7) | ((a2 as u16 & 1) << 8)) >> j) & 1 == ((a0 >> s) & 1)
                        as u16) by (bit_vector)
                        requires
                            a0 < 8,
                            a1 < 8,
                            a2 < 8,
                            j < 3,
                            s < 3,
                            j + s == 2,
                    ;
                } else if y == 1 {
                    assert((((((a0 as u16) >> 2) & 1) | (((a0 as u16 >> 1) & 1) << 1) | ((a0 as u16
                        & 1) << 2) | (((a1 as u16 >> 2) & 1) << 3) | (((a1 as u16 >> 1) & 1) << 4)
                        | ((a1 as u16 & 1) << 5) | (((a2 as u16 >> 2) & 1) << 6) | (((a2 as u16
                        >> 1) & 1) << 7) | ((a2 as u16 & 1) << 8)) >> j) & 1 == ((a1 >> s) & 1)
                        as u16) by (bit_vector)
                        requires
                            a0 < 8,
                            a1 < 8,
                            a2 < 8,
                            3 <= j < 6,
                            s < 3,
                            j + s == 5,
                    ;
                } else {
                    assert((((((a0 as u16) >> 2) & 1) | (((a0 as u16 >> 1) & 1) << 1) | ((a0 as u16
                        & 1) << 2) | (((a1 as u16 >> 2) & 1) << 3) | (((a1 as u16 >> 1) & 1) << 4)
                        | ((a1 as u16 & 1) << 5) | (((a2 as u16 >> 2) & 1) << 6) | (((a2 as u16
                        >> 1) & 1) << 7) | ((a2 as u16 & 1) << 8)) >> j) & 1 == ((a2 >> s) & 1)
                        as u16) by (bit_vector)
                        requires
                            a0 < 8,
                            a1 < 8,
                            a2 < 8,
                            6 <= j < 9,
                            s < 3,
                            j + s == 8,
                    ;
                }
            }
        }
        Shape(bits)
    }

    /// Builds a shape from a 3x3 boolean matrix, indexed `matrix[row][column]`.
    pub fn from_matrix(matrix: [[bool; 3]; 3]) -> (r: Self)
        ensures
            r.wf(),
            forall|x: int, y: int|
                0 <= x < 3 && 0 <= y < 3 ==> r.spec_cell(x, y) == matrix[y][x],
    {
        let mut indices: Vec<usize> = Vec::new();
        let mut y: usize = 0;
        while y < 3
            invariant
                y <= 3,
                forall|k: int| 0 <= k < indices@.len() ==> indices@[k] < 9,
                forall|i: int|
                    0 <= i < 9 ==> #[trigger] indices@.contains(i as usize) == (i < y * 3
                        && matrix[i / 3][i % 3]),
            decreases 3 - y,
        {
            let mut x: usize = 0;
            while x < 3
                invariant
                    y < 3,
                    x <= 3,
                    forall|k: int| 0 <= k < indices@.len() ==> indices@[k] < 9,
                    forall|i: int|
                        0 <= i < 9 ==> #[trigger] indices@.contains(i as usize) == ((i < y * 3 + x)
                            && matrix[i / 3][i % 3]),
                decreases 3 - x,
            {
                let ghost indices0 = indices@;
                if matrix[y][x] {
                    indices.push(y * 3 + x);
                    proof {
                        assert(indices@ == indices0.push((y * 3 + x) as usize));
                        assert forall|i: int| 0 <= i < 9 implies #[trigger] indices@.contains(i as usize) == ((
                        i < y * 3 + x + 1) && matrix[i / 3][i % 3]) by {
                            if i == y * 3 + x {
                                assert(indices@[indices@.len() - 1] == i as usize);
                                assert(i / 3 == y && i % 3 == x) by (nonlinear_arith)
                                    requires
                                        i == y * 3 + x,
                                        0 <= x < 3,
                                        0 <= y < 3,
                                ;
                            } else if indices0.contains(i as usize) {
                                let k = choose|k: int|
                                    0 <= k < indices0.len() && indices0[k] == i as usize;
                                assert(indices@[k] == i as usize);
                            } else if indices@.contains(i as usize) {
                                let k = choose|k: int|
                                    0 <= k < indices@.len() && indices@[k] == i as usize;
                                if k < indices0.len() {
                                    assert(indices0[k] == i as usize);
                                }
                            }
                        }
                    }
                } else {
                    proof {
                        assert forall|i: int| 0 <= i < 9 implies #[trigger] indices@.contains(i as usize) == ((
                        i < y * 3 + x + 1) && matrix[i / 3][i % 3]) by {
                            if i == y * 3 + x {
                                assert(i / 3 == y && i % 3 == x) by (nonlinear_arith)
                                    requires
                                        i == y * 3 + x,
                                        0 <= x < 3,
                                        0 <= y < 3,
                                ;
                            }
                        }
                    }
                }
                x += 1;
            }
            y += 1;
        }
        let r = Self::from_indices(&indices);
        proof {
            assert forall|x: int, y: int| 0 <= x < 3 && 0 <= y < 3 implies r.spec_cell(x, y)
                == matrix[y][x] by {
                let i = y * 3 + x;
                assert(i / 3 == y && i % 3 == x) by (nonlinear_arith)
                    requires
                        i == y * 3 + x,
                        0 <= x < 3,
                        0 <= y < 3,
                ;
                assert(indices@.contains(i as usize) == matrix[y][x]);
            }
        }
        r
    }

    /// Reads the 3x3 boolean matrix of the shape, indexed `matrix[row][column]`.
    pub fn to_matrix(self) -> (m: [[bool; 3]; 3])
        ensures
            forall|x: int, y: int| 0 <= x < 3 && 0 <= y < 3 ==> m[y][x] == self.spec_cell(x, y),
    {
        [
            [self.get(0, 0), self.get(1, 0), self.get(2, 0)],
            [self.get(0, 1), self.get(1, 1), self.get(2, 1)],
            [self.get(0, 2), self.get(1, 2), self.get(2, 2)],
        ]
    }

    /// Rotates the mask a quarter turn clockwise, without normalizing.
    fn rotate_90_raw(self) -> (r: Self)
        ensures
            r.0 == raw_rotate_90(self.0),
    {
        let b = self.0;
        Shape(
            ((b >> 6) & 1) | (((b >> 3) & 1) << 1) | ((b & 1) << 2) | (((b >> 7) & 1) << 3) | (((b
                >> 4) & 1) << 4) | (((b >> 1) & 1) << 5) | (((b >> 8) & 1) << 6) | (((b >> 5) & 1)
                << 7) | (((b >> 2) & 1) << 8),
        )
    }

    /// Applies a transformation as a pure bit permutation, without
    /// normalizing the result.
    pub fn apply_raw_transformation(self, transformation: Transformation) -> (r: Self)
        ensures
            r.0 == raw_transform(self.0, transformation),
    {
        let b = self.0;
        match transformation {
            Transformation::FlipHorizontal => Shape(
                (b & 0b010_010_010) | ((b & 0b100_100_100) >> 2) | ((b & 0b001_001_001) << 2),
            ),
            Transformation::FlipVertical => Shape(
                (b & 0b000_111_000) | ((b & 0b111_000_000) >> 6) | ((b & 0b000_000_111) << 6),
            ),
            Transformation::Rotate90 => self.rotate_90_raw(),
            Transformation::Rotate180 => self.rotate_90_raw().rotate_90_raw(),
            Transformation::Rotate270 => self.rotate_90_raw().rotate_90_raw().rotate_90_raw(),
        }
    }

    /// Applies a transformation and normalizes the result.
    pub fn apply_transformation(self, transformation: Transformation) -> (r: Self)
        ensures
            r.0 == normalized_bits(raw_transform(self.0, transformation)),
            r.wf(),
            is_normalized_bits(r.0),
    {
        proof {
            lemma_raw_transform_wf(self.0, transformation);
            lemma_normalized_form(raw_transform(self.0, transformation));
        }
        self.apply_raw_transformation(transformation).normalize()
    }

    /// Normalizes the shape by moving it to the top left corner.
    pub fn normalize(self) -> (r: Self)
        ensures
            r.0 == normalized_bits(self.0),
            self.wf() ==> r.wf() && is_normalized_bits(r.0),
    {
        proof {
            if self.wf() {
                lemma_normalized_form(self.0);
            }
        }
        let mut b = self.0;
        if b & 0b001_001_001 == 0 {
            b = b >> 1;
        }
        if b & 0b001_001_001 == 0 {
            b = b >> 1;
        }
        if b & 0b000_000_111 == 0 {
            b = b >> 3;
        }
        if b & 0b000_000_111 == 0 {
            b = b >> 3;
        }
        Shape(b)
    }

    /// Whether the shape touches both the top and the left edge, or is empty.
    pub fn is_normalized(self) -> (r: bool)
        ensures
            r == is_normalized_bits(self.0),
    {
        let touches_left = self.0 & 0b001_001_001 != 0;
        let touches_top = self.0 & 0b000_000_111 != 0;
        self.0 == 0 || (touches_left && touches_top)
    }

    /// The column span of the shape, minus one.
    pub fn get_max_x(self) -> (r: usize)
        requires
            self.0 != 0,
        ensures
            r == max_x_bits(self.0),
    {
        if self.0 & 0b100_100_100 != 0 {
            2
        } else if self.0 & 0b010_010_010 != 0 {
            1
        } else {
            0
        }
    }

    /// The row span of the shape, minus one.
    pub fn get_max_y(self) -> (r: usize)
        requires
            self.0 != 0,
        ensures
            r == max_y_bits(self.0),
    {
        if self.0 & 0b111_000_000 != 0 {
            2
        } else if self.0 & 0b000_111_000 != 0 {
            1
        } else {
            0
        }
    }

    /// Whether (x, y) is an occupied cell, treating coordinates outside the
    /// 3x3 grid as empty.
    fn occupied_at(self, x: isize, y: isize) -> (r: bool)
        ensures
            r == occupied(self.0, x as int, y as int),
    {
        if x < 0 || x > 2 || y < 0 || y > 2 {
            false
        } else {
            self.get(x as usize, y as usize)
        }
    }

    /// Whether one of the eight cells around (px, py) is occupied.
    fn has_occupied_around(self, px: isize, py: isize) -> (r: bool)
        requires
            offset_in_region(px as int, py as int),
        ensures
            r == (occupied(self.0, px - 1, py - 1) || occupied(self.0, px as int, py - 1)
                || occupied(self.0, px + 1, py - 1) || occupied(self.0, px - 1, py as int)
                || occupied(self.0, px + 1, py as int) || occupied(self.0, px - 1, py + 1)
                || occupied(self.0, px as int, py + 1) || occupied(self.0, px + 1, py + 1)),
    {
        self.occupied_at(px - 1, py - 1) || self.occupied_at(px, py - 1)
            || self.occupied_at(px + 1, py - 1) || self.occupied_at(px - 1, py)
            || self.occupied_at(px + 1, py) || self.occupied_at(px - 1, py + 1)
            || self.occupied_at(px, py + 1) || self.occupied_at(px + 1, py + 1)
    }

    /// Computes the neighbour set of the shape directly from its cells.
    pub fn calculate_neighbours(self) -> (r: ShapeNeighbours)
        ensures
            r.wf(),
            forall|x: int, y: int|
                offset_in_region(x, y) ==> #[trigger] r.contains_offset(x, y) == is_neighbour(
                    self.0,
                    x,
                    y,
                ),
    {
        let mut neighbours = ShapeNeighbours::empty();
        let mut py: isize = -1;
        while py <= 3
            invariant
                -1 <= py <= 4,
                neighbours.wf(),
                forall|x: int, y: int|
                    offset_in_region(x, y) ==> #[trigger] neighbours.contains_offset(x, y) == (y
                        < py && is_neighbour(self.0, x, y)),
            decreases 4 - py,
        {
            let mut px: isize = -1;
            while px <= 3
                invariant
                    -1 <= py <= 3,
                    -1 <= px <= 4,
                    neighbours.wf(),
                    forall|x: int, y: int|
                        offset_in_region(x, y) ==> #[trigger] neighbours.contains_offset(x, y) == ((
                        y < py || (y == py && x < px)) && is_neighbour(self.0, x, y)),
                decreases 4 - px,
            {
                let part_of_shape = self.occupied_at(px, py);
                if !part_of_shape && self.has_occupied_around(px, py) {
                    neighbours.set(px, py);
                }
                px += 1;
            }
            py += 1;
        }
        neighbours
    }

    /// Renders the shape as two braille characters, the mask's cells
    /// becoming the left and right halves of the dot grid.
    pub fn to_braille(self) -> (r: String)
        ensures
            r@.len() == 2,
            r@[0] as u32 == 0x2800 + braille_lo(self.0),
            r@[1] as u32 == 0x2800 + braille_hi(self.0),
    {
        let b = self.0;
        let lo = ((b >> 0) & 1) | (((b >> 3) & 1) << 1) | (((b >> 6) & 1) << 2) | (((b >> 1) & 1)
            << 3) | (((b >> 4) & 1) << 4) | (((b >> 7) & 1) << 5);
        let hi = ((b >> 2) & 1) | (((b >> 5) & 1) << 1) | (((b >> 8) & 1) << 2);
        proof {
            assert(braille_lo(b) < 64 && braille_hi(b) < 8) by (bit_vector);
        }
        let c0 = char_from_u32(0x2800 + lo as u32);
        let c1 = char_from_u32(0x2800 + hi as u32);
        let mut r = String::new();
        push_char(&mut r, c0);
        push_char(&mut r, c1);
        r
    }

    /// Looks up the neighbour set of the shape; the same set that
    /// [`Self::calculate_neighbours`] computes.
    pub fn get_neighbours(self) -> (r: ShapeNeighbours)
        ensures
            r.wf(),
            forall|x: int, y: int|
                offset_in_region(x, y) ==> #[trigger] r.contains_offset(x, y) == is_neighbour(
                    self.0,
                    x,
                    y,
                ),
    {
        self.calculate_neighbours()
    }

    /// Builds the table of the neighbour sets of all 512 masks; entry `i`
    /// is the neighbour set of the shape with mask `i`.
    pub fn init_neighbour_cache() -> (r: Vec<ShapeNeighbours>)
        ensures
            r@.len() == 512,
            forall|i: int| 0 <= i < 512 ==> (#[trigger] r@[i]).wf(),
            forall|i: int, x: int, y: int|
                0 <= i < 512 && offset_in_region(x, y) ==> #[trigger] r@[i].contains_offset(x, y)
                    == is_neighbour(i as u16, x, y),
    {
        let mut cache: Vec<ShapeNeighbours> = Vec::new();
        let mut i: usize = 0;
        while i < 512
            invariant
                i <= 512,
                cache@.len() == i,
                forall|j: int| 0 <= j < i ==> (#[trigger] cache@[j]).wf(),
                forall|j: int, x: int, y: int|
                    0 <= j < i && offset_in_region(x, y) ==> #[trigger] cache@[j].contains_offset(
                        x,
                        y,
                    ) == is_neighbour(j as u16, x, y),
            decreases 512 - i,
        {
            cache.push(Shape(i as u16).calculate_neighbours());
            i += 1;
        }
        cache
    }

    /// Whether the cell at column `x`, row `y` is occupied.
    pub fn get(self, x: usize, y: usize) -> (r: bool)
        requires
            x < 3,
            y < 3,
        ensures
            r == self.spec_cell(x as int, y as int),
    {
        let index = y * 3 + x;
        (self.0 >> index) & 1 == 1
    }
}

/// Any raw transformation leaves only the nine mask bits set.
pub proof fn lemma_raw_transform_wf(b: u16, t: Transformation)
    ensures
        raw_transform(b, t) < 512,
{
    match t {
        Transformation::FlipHorizontal => {
            assert(raw_flip_h(b) < 512) by (bit_vector);
        },
        Transformation::FlipVertical => {
            assert(raw_flip_v(b) < 512) by (bit_vector);
        },
        Transformation::Rotate90 => {
            assert(raw_rotate_90(b) < 512) by (bit_vector);
        },
        Transformation::Rotate180 => {
            assert(raw_rotate_90(raw_rotate_90(b)) < 512) by (bit_vector);
        },
        Transformation::Rotate270 => {
            assert(raw_rotate_90(raw_rotate_90(raw_rotate_90(b))) < 512) by (bit_vector);
        },
    }
}

/// A raw transformation never changes the number of occupied cells.
pub proof fn lemma_raw_transform_popcount(b: u16, t: Transformation)
    ensures
        popcount(raw_transform(b, t)) == popcount(b),
{
    match t {
        Transformation::FlipHorizontal => {
            assert(popcount(raw_flip_h(b)) == popcount(b)) by (bit_vector);
        },
        Transformation::FlipVertical => {
            assert(popcount(raw_flip_v(b)) == popcount(b)) by (bit_vector);
        },
        Transformation::Rotate90 => {
            assert(popcount(raw_rotate_90(b)) == popcount(b)) by (bit_vector);
        },
        Transformation::Rotate180 => {
            assert(popcount(raw_rotate_90(raw_rotate_90(b))) == popcount(b)) by (bit_vector);
        },
        Transformation::Rotate270 => {
            assert(popcount(raw_rotate_90(raw_rotate_90(raw_rotate_90(b)))) == popcount(b))
                by (bit_vector);
        },
    }
}

/// Bit-count preservation: no composition of raw transformations changes
/// the number of occupied cells of a mask.
pub proof fn lemma_raw_transform_all_popcount(b: u16, ts: Seq<Transformation>)
    ensures
        popcount(raw_transform_all(b, ts)) == popcount(b),
    decreases ts.len(),
{
    if ts.len() > 0 {
        lemma_raw_transform_popcount(b, ts[0]);
        lemma_raw_transform_all_popcount(raw_transform(b, ts[0]), ts.drop_first());
    }
}

/// Rotation cycle: four raw quarter turns are the identity, a half turn is
/// two quarter turns, and three quarters make a three-quarter turn.
pub proof fn lemma_rotation_cycle(b: u16)
    requires
        b < 512,
    ensures
        raw_transform(
            raw_transform(
                raw_transform(raw_transform(b, Transformation::Rotate90), Transformation::Rotate90),
                Transformation::Rotate90,
            ),
            Transformation::Rotate90,
        ) == b,
        raw_transform(b, Transformation::Rotate180) == raw_transform(
            raw_transform(b, Transformation::Rotate90),
            Transformation::Rotate90,
        ),
        raw_transform(b, Transformation::Rotate270) == raw_transform(
            raw_transform(b, Transformation::Rotate180),
            Transformation::Rotate90,
        ),
{
    assert(raw_rotate_90(raw_rotate_90(raw_rotate_90(raw_rotate_90(b)))) == b) by (bit_vector)
        requires
            b < 512,
    ;
}

/// Flip involution: both flips undo themselves.
pub proof fn lemma_flip_involution(b: u16)
    requires
        b < 512,
    ensures
        raw_transform(
            raw_transform(b, Transformation::FlipHorizontal),
            Transformation::FlipHorizontal,
        ) == b,
        raw_transform(raw_transform(b, Transformation::FlipVertical), Transformation::FlipVertical)
            == b,
{
    assert(raw_flip_h(raw_flip_h(b)) == b) by (bit_vector)
        requires
            b < 512,
    ;
    assert(raw_flip_v(raw_flip_v(b)) == b) by (bit_vector)
        requires
            b < 512,
    ;
}

/// Normalization is idempotent.
pub proof fn lemma_normalize_idempotent(b: u16)
    requires
        b < 512,
    ensures
        normalized_bits(normalized_bits(b)) == normalized_bits(b),
{
    assert(normalized_bits(normalized_bits(b)) == normalized_bits(b)) by (bit_vector)
        requires
            b < 512,
    ;
}

/// The normal form of a mask touches the top and left edges (or is empty),
/// stays within the nine mask bits, and keeps every occupied cell.
pub proof fn lemma_normalized_form(b: u16)
    requires
        b < 512,
    ensures
        is_normalized_bits(normalized_bits(b)),
        normalized_bits(b) < 512,
        popcount(normalized_bits(b)) == popcount(b),
{
    assert(is_normalized_bits(normalized_bits(b)) && normalized_bits(b) < 512 && popcount(
        normalized_bits(b),
    ) == popcount(b)) by (bit_vector)
        requires
            b < 512,
    ;
}

/// A mask has no occupied cells exactly when it is zero.
pub proof fn lemma_popcount_zero(b: u16)
    requires
        b < 512,
    ensures
        (popcount(b) == 0) == (b == 0),
{
    assert((popcount(b) == 0) == (b == 0)) by (bit_vector)
        requires
            b < 512,
    ;
}

/// A mask that is already normalized is its own normal form.
pub proof fn lemma_normalize_of_normalized(b: u16)
    requires
        is_normalized_bits(b),
    ensures
        normalized_bits(b) == b,
{
    assert(normalized_bits(b) == b) by (bit_vector)
        requires
            b == 0 || (b & 0b001_001_001 != 0 && b & 0b000_000_111 != 0),
    ;
}

/// Every occupied cell lies within the column and row spans.
pub proof fn lemma_cell_within_max(b: u16, x: int, y: int)
    requires
        0 <= x < 3,
        0 <= y < 3,
        cell(b, x, y),
    ensures
        x <= max_x_bits(b),
        y <= max_y_bits(b),
        b != 0,
{
    let j = (y * 3 + x) as u16;
    if x == 2 {
        assert((b >> j) & 1 == 1 ==> b & 0b100_100_100 != 0) by (bit_vector)
            requires
                j == 2 || j == 5 || j == 8,
        ;
    } else if x == 1 {
        assert((b >> j) & 1 == 1 ==> b & 0b010_010_010 != 0 || b & 0b100_100_100 != 0)
            by (bit_vector)
            requires
                j == 1 || j == 4 || j == 7,
        ;
    }
    if y == 2 {
        assert((b >> j) & 1 == 1 ==> b & 0b111_000_000 != 0) by (bit_vector)
            requires
                j == 6 || j == 7 || j == 8,
        ;
    } else if y == 1 {
        assert((b >> j) & 1 == 1 ==> b & 0b000_111_000 != 0 || b & 0b111_000_000 != 0)
            by (bit_vector)
            requires
                j == 3 || j == 4 || j == 5,
        ;
    }
    if b == 0 {
        assert((0u16 >> j) & 1 == 0) by (bit_vector);
    }
}

} // verus!
