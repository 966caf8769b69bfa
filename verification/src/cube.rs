//! The mathematics of cubes: points, half-open cubic regions, octants, and the
//! two directed moves between a cube and its double or its half.

use vstd::prelude::*;

verus! {

/// A position of the voxel grid.
pub struct Point {
    pub x: int,
    pub y: int,
    pub z: int,
}

impl Point {
    /// Every coordinate is a signed 32-bit number.
    pub open spec fn on_grid(self) -> bool {
        &&& i32::MIN <= self.x <= i32::MAX
        &&& i32::MIN <= self.y <= i32::MAX
        &&& i32::MIN <= self.z <= i32::MAX
    }

    /// The coordinate on axis `k` (0, 1 or 2).
    pub open spec fn coord(self, k: int) -> int {
        if k == 0 {
            self.x
        } else if k == 1 {
            self.y
        } else {
            self.z
        }
    }
}

/// The half-open region `[origin, origin + size)` on every axis.
pub struct Cube {
    pub origin: Point,
    pub size: int,
}

/// `n` is 1, 2, 4, 8, ...
pub open spec fn is_pow2(n: int) -> bool
    decreases n,
{
    n == 1 || (n >= 2 && n % 2 == 0 && is_pow2(n / 2))
}

/// The slot of the octant picked by the three upper-half flags. This table is
/// shared with whoever reads the flat buffer.
pub open spec fn octant_index(hx: bool, hy: bool, hz: bool) -> int {
    if hz {
        if hy {
            if hx { 0 } else { 3 }
        } else {
            if hx { 4 } else { 7 }
        }
    } else {
        if hy {
            if hx { 1 } else { 2 }
        } else {
            if hx { 5 } else { 6 }
        }
    }
}

/// Slot `i` lies in the upper half of the x axis.
pub open spec fn octant_high_x(i: int) -> bool {
    i == 0 || i == 1 || i == 4 || i == 5
}

/// Slot `i` lies in the upper half of the y axis.
pub open spec fn octant_high_y(i: int) -> bool {
    i == 0 || i == 1 || i == 2 || i == 3
}

/// Slot `i` lies in the upper half of the z axis.
pub open spec fn octant_high_z(i: int) -> bool {
    i == 0 || i == 3 || i == 4 || i == 7
}

impl Cube {
    /// The cube of edge 1 at `p`.
    pub open spec fn unit(p: Point) -> Cube {
        Cube { origin: p, size: 1 }
    }

    /// `p` lies between the two faces of axis `k`: the lower one included, the
    /// upper one not.
    pub open spec fn within(self, p: Point, k: int) -> bool {
        self.origin.coord(k) <= p.coord(k) < self.origin.coord(k) + self.size
    }

    /// `p` lies in the cube.
    pub open spec fn contains(self, p: Point) -> bool {
        self.within(p, 0) && self.within(p, 1) && self.within(p, 2)
    }

    /// On axis `k`, `other` starts no lower and ends no higher than `self`.
    pub open spec fn spans(self, other: Cube, k: int) -> bool {
        self.origin.coord(k) <= other.origin.coord(k) && other.origin.coord(k) + other.size
            <= self.origin.coord(k) + self.size
    }

    /// `other` lies wholly in the cube.
    pub open spec fn encloses(self, other: Cube) -> bool {
        self.spans(other, 0) && self.spans(other, 1) && self.spans(other, 2)
    }

    /// Where the doubled cube starts on one axis: one edge lower if the target
    /// lies below, unchanged otherwise.
    pub open spec fn grow_start(start: int, size: int, target: int) -> int {
        if target < start {
            start - size
        } else {
            start
        }
    }

    /// The cube of twice the edge that keeps `self` as one octant and reaches
    /// out towards `t`.
    pub open spec fn expand(self, t: Point) -> Cube {
        Cube {
            origin: Point {
                x: Self::grow_start(self.origin.x, self.size, t.x),
                y: Self::grow_start(self.origin.y, self.size, t.y),
                z: Self::grow_start(self.origin.z, self.size, t.z),
            },
            size: 2 * self.size,
        }
    }

    /// `v` lies in the upper half of `[start, start + size)`.
    pub open spec fn in_upper(start: int, size: int, v: int) -> bool {
        v >= start + size / 2
    }

    /// Where an octant starts on one axis.
    pub open spec fn half_start(start: int, size: int, upper: bool) -> int {
        if upper {
            start + size / 2
        } else {
            start
        }
    }

    /// The octant picked by the three upper-half flags.
    pub open spec fn octant_at(self, hx: bool, hy: bool, hz: bool) -> Cube {
        Cube {
            origin: Point {
                x: Self::half_start(self.origin.x, self.size, hx),
                y: Self::half_start(self.origin.y, self.size, hy),
                z: Self::half_start(self.origin.z, self.size, hz),
            },
            size: self.size / 2,
        }
    }

    /// The octant in slot `i`.
    pub open spec fn octant(self, i: int) -> Cube {
        self.octant_at(octant_high_x(i), octant_high_y(i), octant_high_z(i))
    }

    /// The slot of the octant in which `p` falls.
    pub open spec fn slot_of(self, p: Point) -> int {
        octant_index(
            Self::in_upper(self.origin.x, self.size, p.x),
            Self::in_upper(self.origin.y, self.size, p.y),
            Self::in_upper(self.origin.z, self.size, p.z),
        )
    }

    /// The octant in which `t` falls.
    pub open spec fn shrink(self, t: Point) -> Cube {
        self.octant_at(
            Self::in_upper(self.origin.x, self.size, t.x),
            Self::in_upper(self.origin.y, self.size, t.y),
            Self::in_upper(self.origin.z, self.size, t.z),
        )
    }

    /// The cube can be held in 32-bit fields: signed for the origin, unsigned
    /// for the edge.
    pub open spec fn fits(self) -> bool {
        &&& i32::MIN <= self.origin.x <= i32::MAX
        &&& i32::MIN <= self.origin.y <= i32::MAX
        &&& i32::MIN <= self.origin.z <= i32::MAX
        &&& 0 <= self.size <= u32::MAX
    }

    /// Every point of the cube is a 32-bit position and the edge fits a signed
    /// 32-bit cell.
    pub open spec fn in_range(self) -> bool {
        &&& 1 <= self.size <= i32::MAX
        &&& i32::MIN <= self.origin.x && self.origin.x + self.size - 1 <= i32::MAX
        &&& i32::MIN <= self.origin.y && self.origin.y + self.size - 1 <= i32::MAX
        &&& i32::MIN <= self.origin.z && self.origin.z + self.size - 1 <= i32::MAX
    }

    /// A cube that a tree may hold: in range, with a power of two as its edge.
    pub open spec fn valid(self) -> bool {
        self.in_range() && is_pow2(self.size)
    }

    /// One more doubling towards `t` stays in range.
    pub open spec fn can_expand(self, t: Point) -> bool {
        self.size >= 1 && self.expand(t).in_range()
    }

    /// Doubling towards `t`, again and again, reaches `t` before it leaves the
    /// range.
    pub open spec fn can_reach(self, t: Point) -> bool
        decreases i32::MAX - self.size,
    {
        self.contains(t) || (self.can_expand(t) && self.expand(t).can_reach(t))
    }

    /// The first cube that contains `t` among `self`, its double towards `t`,
    /// the double of that, and so on; the last one in range where none does.
    pub open spec fn grown(self, t: Point) -> Cube
        decreases i32::MAX - self.size,
    {
        if !self.contains(t) && self.can_expand(t) {
            self.expand(t).grown(t)
        } else {
            self
        }
    }
}

/// Every point of `s` lies in `c`.
pub open spec fn covers(c: Cube, s: Set<Point>) -> bool {
    forall|p: Point| s.contains(p) ==> c.contains(p)
}

/// Some point of `s` lies in `c`.
pub open spec fn occupied(s: Set<Point>, c: Cube) -> bool {
    exists|p: Point| s.contains(p) && c.contains(p)
}

/// The three flags of a slot give the slot back.
pub proof fn lemma_octant_index_of_flags(i: int)
    requires
        0 <= i < 8,
    ensures
        octant_index(octant_high_x(i), octant_high_y(i), octant_high_z(i)) == i,
{
}

/// Every choice of flags names one of the eight slots, and the slot gives the
/// flags back.
pub proof fn lemma_flags_of_octant_index(hx: bool, hy: bool, hz: bool)
    ensures
        0 <= octant_index(hx, hy, hz) < 8,
        octant_high_x(octant_index(hx, hy, hz)) == hx,
        octant_high_y(octant_index(hx, hy, hz)) == hy,
        octant_high_z(octant_index(hx, hy, hz)) == hz,
{
}

/// Half of a power of two above 1 is a power of two, and twice a power of two
/// is one.
pub proof fn lemma_pow2_neighbours(n: int)
    requires
        is_pow2(n),
    ensures
        n >= 1,
        is_pow2(2 * n),
        n >= 2 ==> n % 2 == 0 && is_pow2(n / 2),
{
}

/// Doubling a cube towards any point keeps the cube as the octant of the
/// double in which it lies: the double encloses it, has twice its edge, and
/// shrinking the double towards any point of the cube gives the cube back.
pub proof fn lemma_expand_keeps_cube(c: Cube, t: Point)
    requires
        c.size >= 1,
    ensures
        c.expand(t).size == 2 * c.size,
        c.expand(t).encloses(c),
        c.expand(t).octant(c.expand(t).slot_of(c.origin)) == c,
        forall|p: Point| c.contains(p) ==> #[trigger] c.expand(t).shrink(p) == c,
        forall|p: Point|
            c.contains(p) ==> #[trigger] c.expand(t).slot_of(p) == c.expand(t).slot_of(c.origin),
{
}

/// One doubling towards `t` contains `t` exactly when, on every axis, `t` lies
/// less than one edge below the cube or less than one edge above it.
pub proof fn lemma_expand_contains(c: Cube, t: Point)
    requires
        c.size >= 1,
    ensures
        c.expand(t).contains(t) <==> (forall|k: int|
            0 <= k < 3 ==> c.origin.coord(k) - c.size <= #[trigger] t.coord(k) < c.origin.coord(k)
                + 2 * c.size),
{
}

/// Where the doublings towards `t` can reach it, the cube they end in contains
/// `t`, encloses the cube they started from, and is valid if that one was.
pub proof fn lemma_grown_reaches(c: Cube, t: Point)
    requires
        c.size >= 1,
        c.can_reach(t),
    ensures
        c.grown(t).contains(t),
        c.grown(t).encloses(c),
        c.grown(t).size >= c.size,
        c.valid() ==> c.grown(t).valid(),
    decreases i32::MAX - c.size,
{
    if !c.contains(t) {
        lemma_grown_reaches(c.expand(t), t);
    }
}

/// Shrinking a cube of even edge towards a point of it gives a cube of half the
/// edge that contains the point and lies in the cube; it is the octant in the
/// point's slot.
pub proof fn lemma_shrink_holds_target(c: Cube, t: Point)
    requires
        c.size >= 2,
        c.size % 2 == 0,
        c.contains(t),
    ensures
        2 * c.shrink(t).size == c.size,
        c.shrink(t).contains(t),
        c.encloses(c.shrink(t)),
        c.shrink(t) == c.octant(c.slot_of(t)),
        0 <= c.slot_of(t) < 8,
{
}

/// The eight octants of a cube of even edge tile it: each lies in the cube,
/// and a point of the cube lies in the octant of its own slot and in no other.
pub proof fn lemma_octants_tile(c: Cube, i: int, p: Point)
    requires
        c.size >= 2,
        c.size % 2 == 0,
        0 <= i < 8,
    ensures
        c.encloses(c.octant(i)),
        2 * c.octant(i).size == c.size,
        c.octant(i).contains(p) <==> c.contains(p) && c.slot_of(p) == i,
{
}

/// An octant of a valid cube with an edge above 1 is valid.
pub proof fn lemma_octant_valid(c: Cube, i: int)
    requires
        c.valid(),
        c.size >= 2,
        0 <= i < 8,
    ensures
        c.octant(i).valid(),
{
}

} // verus!
