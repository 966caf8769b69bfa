//! The flat buffer: how the leaves in a cube are laid out as blocks of eight
//! cells, and what a reader that steps through the blocks finds.

use crate::cube::{is_pow2, occupied, Cube, Point};
use crate::voxel::Voxel;
use vstd::prelude::*;

verus! {

/// The cells of a buffer as integers.
pub open spec fn cells_of(buf: Seq<i32>) -> Seq<int> {
    Seq::new(buf.len(), |i: int| buf[i] as int)
}

/// The cells taken by the blocks that lie below the first `i` octants of `c`.
/// Octants of a cube of edge 2 are leaves and take none.
pub open spec fn span_before<T>(c: Cube, m: Map<Point, T>, i: int) -> int
    decreases c.size, i,
{
    if i <= 0 || c.size <= 2 {
        0
    } else {
        span_before(c, m, i - 1) + if occupied(m.dom(), c.octant(i - 1)) {
            8 + span_before(c.octant(i - 1), m, 8)
        } else {
            0
        }
    }
}

/// The cells taken by the block of `c` and all blocks below it. A cube of edge
/// 1 is a leaf and has no block.
pub open spec fn span<T>(c: Cube, m: Map<Point, T>) -> int {
    if c.size < 2 {
        0
    } else {
        8 + span_before(c, m, 8)
    }
}

/// Cell `i` of the block of `c`, where the block starts at offset `base`: 0 for
/// an octant without leaves; in a cube of edge 2 the leaf's value; in a larger
/// cube the offset at which the octant's own block starts.
pub open spec fn cell_at<T: Voxel>(c: Cube, m: Map<Point, T>, base: int, i: int) -> int {
    if c.size <= 2 {
        if m.dom().contains(c.octant(i).origin) {
            m[c.octant(i).origin].cell() as int
        } else {
            0
        }
    } else if occupied(m.dom(), c.octant(i)) {
        base + 8 + span_before(c, m, i)
    } else {
        0
    }
}

/// The eight cells of the block of `c`.
pub open spec fn block<T: Voxel>(c: Cube, m: Map<Point, T>, base: int) -> Seq<int> {
    Seq::new(8, |i: int| cell_at(c, m, base, i))
}

/// The blocks below the first `i` octants of `c`, each octant's blocks in full
/// before the next octant's, in slot order.
pub open spec fn tail_before<T: Voxel>(c: Cube, m: Map<Point, T>, base: int, i: int) -> Seq<int>
    decreases c.size, i,
{
    if i <= 0 || c.size <= 2 {
        Seq::empty()
    } else {
        tail_before(c, m, base, i - 1) + if occupied(m.dom(), c.octant(i - 1)) {
            block(c.octant(i - 1), m, base + 8 + span_before(c, m, i - 1)) + tail_before(
                c.octant(i - 1),
                m,
                base + 8 + span_before(c, m, i - 1),
                8,
            )
        } else {
            Seq::empty()
        }
    }
}

/// The block of `c` followed by all blocks below it, as they stand in the
/// buffer from offset `base` on.
pub open spec fn encode<T: Voxel>(c: Cube, m: Map<Point, T>, base: int) -> Seq<int> {
    block(c, m, base) + tail_before(c, m, base, 8)
}

/// What a reader of the buffer finds for `p`, starting at the block of `c` at
/// offset `base`: it steps into the octant of `p`, follows nonzero offsets, and
/// stops at a zero cell or at the block of a cube of edge 2, whose cell is the
/// value.
pub open spec fn probe(buf: Seq<int>, c: Cube, base: int, p: Point) -> int
    decreases c.size,
{
    let cell = buf[base + c.slot_of(p)];
    if c.size <= 2 || cell == 0 {
        cell
    } else {
        probe(buf, c.shrink(p), cell, p)
    }
}

/// What a reader of a whole buffer finds for `p`: the header gives the root
/// cube, and the first block follows it.
pub open spec fn decode(buf: Seq<int>, p: Point) -> int {
    probe(buf, Cube { origin: Point { x: buf[1], y: buf[2], z: buf[3] }, size: buf[0] }, 4, p)
}

/// Inside `c`, the two maps hold the same leaves.
pub open spec fn agree_on<T>(m1: Map<Point, T>, m2: Map<Point, T>, c: Cube) -> bool {
    forall|p: Point|
        c.contains(p) ==> (m1.dom().contains(p) <==> m2.dom().contains(p)) && (m1.dom().contains(p)
            ==> m1[p] == m2[p])
}

/// The blocks below more octants take no fewer cells, and never a negative
/// number of them.
pub proof fn lemma_span_before_grows<T>(c: Cube, m: Map<Point, T>, i: int, j: int)
    requires
        i <= j,
    ensures
        0 <= span_before(c, m, i) <= span_before(c, m, j),
    decreases c.size, j,
{
    if j > 0 && c.size > 2 {
        lemma_span_before_grows(c.octant(j - 1), m, 0, 8);
        if i < j {
            lemma_span_before_grows(c, m, i, j - 1);
        } else {
            lemma_span_before_grows(c, m, j - 1, j - 1);
        }
    }
}

/// The blocks below the first `i` octants are as long as their span says.
pub proof fn lemma_tail_len_before<T: Voxel>(c: Cube, m: Map<Point, T>, base: int, i: int)
    ensures
        tail_before(c, m, base, i).len() == span_before(c, m, i),
    decreases c.size, i,
{
    if i > 0 && c.size > 2 {
        lemma_tail_len_before(c, m, base, i - 1);
        lemma_tail_len_before(c.octant(i - 1), m, base + 8 + span_before(c, m, i - 1), 8);
    }
}

/// Whether an octant holds a leaf depends on the leaves inside the cube only.
pub proof fn lemma_occupied_agrees<T>(c: Cube, m1: Map<Point, T>, m2: Map<Point, T>, i: int)
    requires
        c.size >= 2,
        c.size % 2 == 0,
        0 <= i < 8,
        agree_on(m1, m2, c),
    ensures
        occupied(m1.dom(), c.octant(i)) == occupied(m2.dom(), c.octant(i)),
        agree_on(m1, m2, c.octant(i)),
{
    let o = c.octant(i);
    assert forall|p: Point| o.contains(p) implies c.contains(p) by {}
    if occupied(m1.dom(), o) {
        let p = choose|p: Point| m1.dom().contains(p) && o.contains(p);
        assert(m2.dom().contains(p) && o.contains(p));
    }
    if occupied(m2.dom(), o) {
        let p = choose|p: Point| m2.dom().contains(p) && o.contains(p);
        assert(m1.dom().contains(p) && o.contains(p));
    }
}

/// The span of a cube depends on the leaves inside the cube only.
pub proof fn lemma_span_agrees<T>(c: Cube, m1: Map<Point, T>, m2: Map<Point, T>, i: int)
    requires
        is_pow2(c.size),
        0 <= i <= 8,
        agree_on(m1, m2, c),
    ensures
        span_before(c, m1, i) == span_before(c, m2, i),
    decreases c.size, i,
{
    if i > 0 && c.size > 2 {
        lemma_occupied_agrees(c, m1, m2, i - 1);
        lemma_span_agrees(c, m1, m2, i - 1);
        lemma_span_agrees(c.octant(i - 1), m1, m2, 8);
    }
}

/// The encoding of a cube depends on the leaves inside the cube only.
pub proof fn lemma_encode_agrees<T: Voxel>(
    c: Cube,
    m1: Map<Point, T>,
    m2: Map<Point, T>,
    base: int,
    i: int,
)
    requires
        is_pow2(c.size),
        c.size >= 2,
        0 <= i <= 8,
        agree_on(m1, m2, c),
    ensures
        tail_before(c, m1, base, i) == tail_before(c, m2, base, i),
        block(c, m1, base) == block(c, m2, base),
    decreases c.size, i,
{
    assert forall|k: int| 0 <= k < 8 implies cell_at(c, m1, base, k) == cell_at(c, m2, base, k) by {
        lemma_occupied_agrees(c, m1, m2, k);
        lemma_span_agrees(c, m1, m2, k);
    }
    if i > 0 && c.size > 2 {
        lemma_occupied_agrees(c, m1, m2, i - 1);
        lemma_span_agrees(c, m1, m2, i - 1);
        lemma_encode_agrees(c, m1, m2, base, i - 1);
        lemma_encode_agrees(c.octant(i - 1), m1, m2, base + 8 + span_before(c, m1, i - 1), 8);
    }
}

/// Where an octant among the first `k` holds a leaf, its encoding stands in the
/// blocks below them at the offset that the octant's cell names.
pub proof fn lemma_tail_holds_octant<T: Voxel>(
    c: Cube,
    m: Map<Point, T>,
    base: int,
    i: int,
    k: int,
    j: int,
)
    requires
        c.size > 2,
        0 <= i < k <= 8,
        occupied(m.dom(), c.octant(i)),
        0 <= j < span(c.octant(i), m),
    ensures
        span_before(c, m, i) + span(c.octant(i), m) <= span_before(c, m, k),
        0 <= span_before(c, m, i),
        tail_before(c, m, base, k)[span_before(c, m, i) + j] == encode(
            c.octant(i),
            m,
            base + 8 + span_before(c, m, i),
        )[j],
    decreases k,
{
    lemma_tail_len_before(c, m, base, k - 1);
    lemma_tail_len_before(c, m, base, k);
    if i < k - 1 {
        lemma_tail_holds_octant(c, m, base, i, k - 1, j);
    }
}

/// Where the encoding of a valid cube stands in a buffer at a positive offset,
/// a reader finds at every point of the cube the cell of the leaf there, and 0
/// where there is none.
pub proof fn lemma_probe_finds_leaves<T: Voxel>(
    buf: Seq<int>,
    c: Cube,
    m: Map<Point, T>,
    base: int,
    p: Point,
)
    requires
        c.valid(),
        c.size >= 2,
        c.contains(p),
        base > 0,
        base + span(c, m) <= buf.len(),
        forall|j: int| 0 <= j < span(c, m) ==> #[trigger] buf[base + j] == encode(c, m, base)[j],
    ensures
        probe(buf, c, base, p) == if m.dom().contains(p) {
            m[p].cell() as int
        } else {
            0
        },
    decreases c.size,
{
    let i = c.slot_of(p);
    let o = c.octant(i);
    lemma_tail_len_before(c, m, base, 8);
    if c.size > 2 && occupied(m.dom(), o) {
        let at = base + 8 + span_before(c, m, i);
        lemma_span_before_grows(o, m, 0, 8);
        assert forall|j: int| 0 <= j < span(o, m) implies #[trigger] buf[at + j] == encode(
            o,
            m,
            at,
        )[j] by {
            lemma_tail_holds_octant(c, m, base, i, 8, j);
            assert(buf[base + (8 + span_before(c, m, i) + j)] == encode(c, m, base)[8
                + span_before(c, m, i) + j]);
        }
        lemma_tail_holds_octant(c, m, base, i, 8, 0);
        lemma_probe_finds_leaves(buf, o, m, at, p);
    }
}

} // verus!
