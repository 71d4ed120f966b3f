//! The neighbour set of a shape: coordinates in the 5x5 region [-1..3]x[-1..3]
//! that are not part of the shape but touch it, packed into 25 bits of a u32.
use vstd::prelude::*;

verus! {

/// The packed index of an offset (x, y) with -1 <= x, y <= 3.
pub open spec fn offset_index(x: int, y: int) -> int {
    (x + 1) + (y + 1) * 5
}

/// Whether an offset lies in the 5x5 region around a 3x3 shape.
pub open spec fn offset_in_region(x: int, y: int) -> bool {
    -1 <= x <= 3 && -1 <= y <= 3
}

/// A set of offsets around a shape, one bit per cell of the 5x5 region.
#[derive(Debug, Copy, Clone, PartialEq, Eq, Structural)]
pub struct ShapeNeighbours(pub u32);

impl ShapeNeighbours {
    /// Only the 25 region bits may be set.
    pub open spec fn wf(self) -> bool {
        self.0 < 0x2000000
    }

    /// Whether the offset (x, y) is in the set.
    pub open spec fn contains_offset(self, x: int, y: int) -> bool {
        (self.0 >> (offset_index(x, y) as u32)) & 1 == 1
    }

    /// The empty set of offsets.
    pub fn empty() -> (r: Self)
        ensures
            r.wf(),
            forall|x: int, y: int| !r.contains_offset(x, y),
    {
        proof {
            assert forall|x: int, y: int| !ShapeNeighbours(0u32).contains_offset(x, y) by {
                let j = offset_index(x, y) as u32;
                assert((0u32 >> j) & 1 == 0) by (bit_vector);
            }
        }
        ShapeNeighbours(0)
    }

    /// Adds the offset (x, y) to the set; all other offsets are unchanged.
    pub fn set(&mut self, x: isize, y: isize)
        requires
            offset_in_region(x as int, y as int),
            old(self).wf(),
        ensures
            final(self).wf(),
            final(self).contains_offset(x as int, y as int),
            forall|a: int, b: int|
                offset_in_region(a, b) && !(a == x as int && b == y as int)
                    ==> final(self).contains_offset(a, b) == old(self).contains_offset(a, b),
    {
        let index: usize = ((x + 1) + (y + 1) * 5) as usize;
        let bits = self.0 | (1u32 << index);
        proof {
            let k = offset_index(x as int, y as int) as u32;
            let b = self.0;
            assert(((b | (1u32 << k)) >> k) & 1 == 1 && (b | (1u32 << k)) < 0x2000000) by (bit_vector)
                requires
                    k < 25,
                    b < 0x2000000,
            ;
            assert forall|a: int, b2: int|
                offset_in_region(a, b2) && !(a == x as int && b2 == y as int) implies
                ShapeNeighbours(bits).contains_offset(a, b2) == self.contains_offset(a, b2) by {
                let j = offset_index(a, b2) as u32;
                assert(((b | (1u32 << k)) >> j) & 1 == (b >> j) & 1) by (bit_vector)
                    requires
                        k < 25,
                        j < 25,
                        j != k,
                ;
            }
        }
        self.0 = bits;
    }

    /// Whether the offset (x, y) is in the set.
    pub fn contains(self, x: isize, y: isize) -> (r: bool)
        requires
            offset_in_region(x as int, y as int),
        ensures
            r == self.contains_offset(x as int, y as int),
    {
        let index: usize = ((x + 1) + (y + 1) * 5) as usize;
        (self.0 >> index) & 1 == 1
    }

    /// All offsets of the set, in ascending packed-index order.
    pub fn offsets(self) -> (r: Vec<(isize, isize)>)
        requires
            self.wf(),
        ensures
            forall|k: int|
                0 <= k < r@.len() ==> offset_in_region(#[trigger] r@[k].0 as int, r@[k].1 as int)
                    && self.contains_offset(r@[k].0 as int, r@[k].1 as int),
            forall|x: int, y: int|
                offset_in_region(x, y) && self.contains_offset(x, y) ==> exists|k: int|
                    0 <= k < r@.len() && r@[k].0 == x && r@[k].1 == y,
            forall|k1: int, k2: int|
                0 <= k1 < k2 < r@.len()
                    ==> offset_index(r@[k1].0 as int, r@[k1].1 as int) < offset_index(
                    r@[k2].0 as int,
                    r@[k2].1 as int,
                ),
    {
        let mut r: Vec<(isize, isize)> = Vec::new();
        let mut index: usize = 0;
        while index < 25
            invariant
                index <= 25,
                forall|k: int|
                    0 <= k < r@.len() ==> offset_in_region(#[trigger] r@[k].0 as int, r@[k].1 as int)
                        && self.contains_offset(r@[k].0 as int, r@[k].1 as int)
                        && offset_index(r@[k].0 as int, r@[k].1 as int) < index,
                forall|x: int, y: int|
                    offset_in_region(x, y) && offset_index(x, y) < index && self.contains_offset(
                        x,
                        y,
                    ) ==> exists|k: int| 0 <= k < r@.len() && r@[k].0 == x && r@[k].1 == y,
                forall|k1: int, k2: int|
                    0 <= k1 < k2 < r@.len()
                        ==> offset_index(r@[k1].0 as int, r@[k1].1 as int) < offset_index(
                        r@[k2].0 as int,
                        r@[k2].1 as int,
                    ),
            decreases 25 - index,
        {
            let ghost xi = (index as int) % 5 - 1;
            let ghost yi = (index as int) / 5 - 1;
            let set_here = (self.0 >> index) & 1 == 1;
            proof {
                assert(offset_index(xi, yi) == index as int);
                assert forall|x: int, y: int|
                    offset_in_region(x, y) && offset_index(x, y) == index as int implies x == xi
                    && y == yi by {
                    assert(y + 1 == (index as int) / 5 && x + 1 == (index as int) % 5)
                        by (nonlinear_arith)
                        requires
                            (x + 1) + (y + 1) * 5 == index as int,
                            0 <= x + 1 < 5,
                            0 <= y + 1 < 5,
                    ;
                }
                assert(self.contains_offset(xi, yi) == set_here);
            }
            let ghost r0 = r@;
            if set_here {
                let x = (index % 5) as isize - 1;
                let y = (index / 5) as isize - 1;
                proof {
                    assert(x as int == xi && y as int == yi);
                }
                r.push((x, y));
                proof {
                    assert(r@ == r0.push((x, y)));
                    assert forall|a: int, b: int|
                        offset_in_region(a, b) && offset_index(a, b) < index + 1
                            && self.contains_offset(a, b) implies exists|k: int|
                        0 <= k < r@.len() && r@[k].0 == a && r@[k].1 == b by {
                        if offset_index(a, b) == index as int {
                            assert(r@[r@.len() - 1].0 == a && r@[r@.len() - 1].1 == b);
                        } else {
                            let k = choose|k: int|
                                0 <= k < r0.len() && r0[k].0 == a && r0[k].1 == b;
                            assert(r@[k] == r0[k]);
                        }
                    }
                }
            } else {
                proof {
                    assert forall|a: int, b: int|
                        offset_in_region(a, b) && offset_index(a, b) < index + 1
                            && self.contains_offset(a, b) implies exists|k: int|
                        0 <= k < r@.len() && r@[k].0 == a && r@[k].1 == b by {
                        if offset_index(a, b) == index as int {
                            assert(a == xi && b == yi);
                            assert(!self.contains_offset(a, b));
                        }
                    }
                }
            }
            index += 1;
        }
        r
    }

}

} // verus!
