//! Axis-aligned bounding cubes on the 32-bit grid.

use crate::cube::{Cube, Point};
use vecmath::Vector3;
use vstd::prelude::*;

verus! {

/// The grid position that a vector of three coordinates names.
pub open spec fn point_of(p: Vector3<i32>) -> Point {
    Point { x: p[0] as int, y: p[1] as int, z: p[2] as int }
}

/// A cube given by its lowest corner and its edge.
#[derive(PartialEq, Debug, Copy, Clone)]
pub struct Aabc {
    pub origin: Vector3<i32>,
    pub size: u32,
}

impl View for Aabc {
    type V = Cube;

    open spec fn view(&self) -> Cube {
        Cube { origin: point_of(self.origin), size: self.size as int }
    }
}

impl Aabc {
    /// Whether `p` lies in the cube: on each axis at or above the origin and
    /// below the origin plus the edge.
    pub fn contains(&self, p: Vector3<i32>) -> (b: bool)
        ensures
            b == self@.contains(point_of(p)),
    {
        let mut i: usize = 0;
        while i < 3
            invariant
                i <= 3,
                forall|k: int| 0 <= k < i ==> self@.within(point_of(p), k),
            decreases 3 - i,
        {
            if p[i] < self.origin[i] || p[i] as i64 >= self.origin[i] as i64 + self.size as i64 {
                return false;
            }
            i += 1;
        }
        true
    }

    /// Whether `aabc` lies wholly in the cube.
    pub fn contains_aabc(&self, aabc: Aabc) -> (b: bool)
        ensures
            b == self@.encloses(aabc@),
    {
        let mut i: usize = 0;
        while i < 3
            invariant
                i <= 3,
                forall|k: int| 0 <= k < i ==> self@.spans(aabc@, k),
            decreases 3 - i,
        {
            if aabc.origin[i] < self.origin[i] || aabc.origin[i] as i64 + aabc.size as i64
                > self.origin[i] as i64 + self.size as i64 {
                return false;
            }
            i += 1;
        }
        true
    }

    /// The cube of twice the edge that has this cube as one octant and lies
    /// towards `target`: on each axis where `target` is below the origin, the
    /// origin moves down by the edge.
    pub fn expand_towards(&self, target: Vector3<i32>) -> (r: Aabc)
        requires
            !self@.contains(point_of(target)),
            self@.expand(point_of(target)).fits(),
        ensures
            r@ == self@.expand(point_of(target)),
    {
        let mut expanded = Aabc { origin: self.origin, size: self.size * 2 };
        let mut i: usize = 0;
        while i < 3
            invariant
                i <= 3,
                self@.expand(point_of(target)).fits(),
                expanded.size == 2 * self.size,
                forall|k: int|
                    0 <= k < i ==> expanded.origin[k] == Cube::grow_start(
                        self.origin[k] as int,
                        self.size as int,
                        target[k] as int,
                    ),
                forall|k: int| i <= k < 3 ==> expanded.origin[k] == self.origin[k],
            decreases 3 - i,
        {
            if target[i] < expanded.origin[i] {
                expanded.origin[i] -= self.size as i32;
            }
            i += 1;
        }
        expanded
    }

    /// The octant of the cube in which `target` falls: half the edge, and on
    /// each axis where `target` is in the upper half, the origin moves up by
    /// that half.
    pub fn shrink_towards(&self, target: Vector3<i32>) -> (r: Aabc)
        requires
            self@.contains(point_of(target)),
        ensures
            r@ == self@.shrink(point_of(target)),
    {
        let half_size = self.size / 2;
        let mut shrunken = Aabc { origin: self.origin, size: half_size };
        let mut i: usize = 0;
        while i < 3
            invariant
                i <= 3,
                self@.contains(point_of(target)),
                half_size == self.size / 2,
                shrunken.size == half_size,
                forall|k: int|
                    0 <= k < i ==> shrunken.origin[k] == Cube::half_start(
                        self.origin[k] as int,
                        self.size as int,
                        Cube::in_upper(self.origin[k] as int, self.size as int, target[k] as int),
                    ),
                forall|k: int| i <= k < 3 ==> shrunken.origin[k] == self.origin[k],
            decreases 3 - i,
        {
            if target[i] as i64 >= self.origin[i] as i64 + half_size as i64 {
                shrunken.origin[i] += half_size as i32;
            }
            i += 1;
        }
        shrunken
    }
}

} // verus!
