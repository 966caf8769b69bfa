//! What a tree holds, as mathematics: the cube that bounds it and the leaves by
//! position; how an edit changes both; and what holds of any run of edits.

use crate::cube::{covers, lemma_grown_reaches, Cube, Point};
use crate::encoding::{decode, encode, lemma_probe_finds_leaves, lemma_tail_len_before, span};
use crate::voxel::Voxel;
use vstd::prelude::*;

verus! {

/// Why an operation on a tree was refused. A refused operation changes nothing.
#[derive(PartialEq, Eq, Debug, Clone, Copy)]
pub enum OctreeError {
    /// Insertion at a position that already holds a leaf.
    DuplicatePosition,
    /// Insertion at a position off the 32-bit grid, or one that the root cannot
    /// grow to within the grid.
    OutOfRange,
    /// Insertion into a tree whose leaf counter is at its largest value.
    Full,
    /// Removal from a tree without leaves.
    EmptyTree,
    /// Removal at a position that holds no leaf.
    NotFound,
    /// Serialization of a tree whose root is a single leaf.
    SingleLeaf,
    /// Serialization of a tree whose buffer would outgrow a signed 32-bit
    /// offset.
    TooLarge,
}

/// The cube reached from `c` by stepping into an octant for as long as one
/// octant alone covers `s`.
pub open spec fn tightened(c: Cube, s: Set<Point>) -> Cube
    decreases c.size,
{
    if c.size >= 2 && exists|i: int| 0 <= i < 8 && covers(#[trigger] c.octant(i), s) {
        tightened(c.octant(choose|i: int| 0 <= i < 8 && covers(#[trigger] c.octant(i), s)), s)
    } else {
        c
    }
}

/// The leaves of a tree by position, and the cube of its root.
pub struct Contents<T> {
    /// The root's cube; `None` for the tree without leaves.
    pub bounds: Option<Cube>,
    /// The value at each position that holds a leaf.
    pub leaves: Map<Point, T>,
}

impl<T> Contents<T> {
    /// The tree without leaves.
    pub open spec fn empty() -> Self {
        Contents { bounds: None, leaves: Map::empty() }
    }

    /// What holds of the contents of every tree: a tree bounds its leaves by a
    /// valid cube, has finitely many, and has a root exactly when it has one.
    pub open spec fn sound(self) -> bool {
        &&& self.leaves.dom().finite()
        &&& match self.bounds {
            None => self.leaves.dom() =~= Set::empty(),
            Some(c) => c.valid() && covers(c, self.leaves.dom()) && self.leaves.dom().len() > 0,
        }
    }

    /// Why a leaf cannot be inserted at `p`, if it cannot.
    pub open spec fn insert_fault(self, p: Point) -> Option<OctreeError> {
        if self.leaves.dom().len() >= u32::MAX {
            Some(OctreeError::Full)
        } else if !p.on_grid() || (self.bounds is Some && !self.bounds.unwrap().can_reach(p)) {
            Some(OctreeError::OutOfRange)
        } else if self.leaves.dom().contains(p) {
            Some(OctreeError::DuplicatePosition)
        } else {
            None
        }
    }

    /// The contents after a leaf with value `v` is inserted at `p`: the first
    /// leaf makes its unit cube the root; later ones double the root towards
    /// `p` until it contains `p`.
    pub open spec fn insert(self, p: Point, v: T) -> Self {
        Contents {
            bounds: Some(
                match self.bounds {
                    None => Cube::unit(p),
                    Some(c) => c.grown(p),
                },
            ),
            leaves: self.leaves.insert(p, v),
        }
    }

    /// The contents after leaves with value `v` are inserted at the positions
    /// of `ps`, first to last; `None` if one of them is refused.
    pub open spec fn insert_all(self, ps: Seq<Point>, v: T) -> Option<Self>
        decreases ps.len(),
    {
        if ps.len() == 0 {
            Some(self)
        } else {
            match self.insert_all(ps.drop_last(), v) {
                Some(s) => if s.insert_fault(ps.last()) is None {
                    Some(s.insert(ps.last(), v))
                } else {
                    None
                },
                None => None,
            }
        }
    }

    /// Why the leaf at `p` cannot be removed, if it cannot.
    pub open spec fn remove_fault(self, p: Point) -> Option<OctreeError> {
        if self.bounds is None {
            Some(OctreeError::EmptyTree)
        } else if !self.leaves.dom().contains(p) {
            Some(OctreeError::NotFound)
        } else {
            None
        }
    }

    /// The contents after the leaf at `p` is removed: without the last leaf
    /// there is no root; otherwise the root steps down for as long as a single
    /// octant holds every leaf that is left.
    pub open spec fn remove(self, p: Point) -> Self {
        let rest = self.leaves.remove(p);
        Contents {
            bounds: if rest.dom().len() == 0 {
                None
            } else {
                Some(tightened(self.bounds.unwrap(), rest.dom()))
            },
            leaves: rest,
        }
    }
}

impl<T: Voxel> Contents<T> {
    /// The length of the flat buffer: one cell for the tree without leaves,
    /// else a header of four cells and eight cells for each cube with an edge
    /// above 1 that holds a leaf, the root among them.
    pub open spec fn encoded_len(self) -> int {
        match self.bounds {
            None => 1,
            Some(c) => 4 + span(c, self.leaves),
        }
    }

    /// Why the contents cannot be written to a flat buffer, if they cannot.
    pub open spec fn serialize_fault(self) -> Option<OctreeError> {
        match self.bounds {
            None => None,
            Some(c) => if c.size < 2 {
                Some(OctreeError::SingleLeaf)
            } else if 4 + span(c, self.leaves) > i32::MAX {
                Some(OctreeError::TooLarge)
            } else {
                None
            },
        }
    }

    /// The flat buffer: `[0]` for the tree without leaves, else the root's edge
    /// and origin followed by its blocks.
    pub open spec fn encoding(self) -> Seq<int> {
        match self.bounds {
            None => seq![0int],
            Some(c) => seq![c.size, c.origin.x, c.origin.y, c.origin.z] + encode(c, self.leaves, 4),
        }
    }
}

/// Stepping a valid cube down towards the points that it covers gives a valid
/// cube inside it that still covers them.
pub proof fn lemma_tightened_covers(c: Cube, s: Set<Point>)
    requires
        c.valid(),
        covers(c, s),
    ensures
        tightened(c, s).valid(),
        covers(tightened(c, s), s),
        c.encloses(tightened(c, s)),
    decreases c.size,
{
    if c.size >= 2 && exists|i: int| 0 <= i < 8 && covers(#[trigger] c.octant(i), s) {
        let i = choose|i: int| 0 <= i < 8 && covers(#[trigger] c.octant(i), s);
        lemma_tightened_covers(c.octant(i), s);
    }
}

/// An insertion that is not refused keeps the contents sound and adds one
/// leaf.
pub proof fn lemma_insert_keeps_sound<T>(s: Contents<T>, p: Point, v: T)
    requires
        s.sound(),
        s.insert_fault(p) is None,
    ensures
        s.insert(p, v).sound(),
        s.insert(p, v).leaves.dom().len() == s.leaves.dom().len() + 1,
        s.insert(p, v).leaves[p] == v,
        s.insert(p, v).bounds.unwrap().contains(p),
{
    if s.bounds is Some {
        lemma_grown_reaches(s.bounds.unwrap(), p);
    }
}

/// A removal that is not refused keeps the contents sound and takes one leaf
/// away.
pub proof fn lemma_remove_keeps_sound<T>(s: Contents<T>, p: Point)
    requires
        s.sound(),
        s.remove_fault(p) is None,
    ensures
        s.remove(p).sound(),
        s.remove(p).leaves.dom().len() == s.leaves.dom().len() - 1,
        !s.remove(p).leaves.dom().contains(p),
{
    let rest = s.leaves.remove(p);
    if rest.dom().len() != 0 {
        lemma_tightened_covers(s.bounds.unwrap(), rest.dom());
    }
}

/// A leaf that is inserted into the tree without leaves and removed again
/// leaves the tree without leaves: no root, and a count of 0.
pub proof fn lemma_insert_then_remove_is_empty<T>(p: Point, v: T)
    requires
        p.on_grid(),
    ensures
        Contents::<T>::empty().insert_fault(p) is None,
        Contents::<T>::empty().insert(p, v).remove_fault(p) is None,
        Contents::<T>::empty().insert(p, v).remove(p) == Contents::<T>::empty(),
        Contents::<T>::empty().insert(p, v).remove(p).leaves.dom().len() == 0,
{
    let e = Contents::<T>::empty();
    assert(e.insert(p, v).leaves.remove(p) =~= e.leaves);
}

/// One insertion or removal.
pub enum Edit<T> {
    Insert(Point, T),
    Remove(Point),
}

/// The contents after the edits of `log` are applied, first to last, to the
/// tree without leaves; `None` if one of them is refused.
pub open spec fn replay<T>(log: Seq<Edit<T>>) -> Option<Contents<T>>
    decreases log.len(),
{
    if log.len() == 0 {
        Some(Contents::empty())
    } else {
        match replay(log.drop_last()) {
            None => None,
            Some(s) => match log.last() {
                Edit::Insert(p, v) => if s.insert_fault(p) is None {
                    Some(s.insert(p, v))
                } else {
                    None
                },
                Edit::Remove(p) => if s.remove_fault(p) is None {
                    Some(s.remove(p))
                } else {
                    None
                },
            },
        }
    }
}

/// The number of insertions in `log`.
pub open spec fn insertions<T>(log: Seq<Edit<T>>) -> int
    decreases log.len(),
{
    if log.len() == 0 {
        0
    } else {
        insertions(log.drop_last()) + if log.last() is Insert { 1int } else { 0int }
    }
}

/// The number of removals in `log`.
pub open spec fn removals<T>(log: Seq<Edit<T>>) -> int
    decreases log.len(),
{
    if log.len() == 0 {
        0
    } else {
        removals(log.drop_last()) + if log.last() is Remove { 1int } else { 0int }
    }
}

/// After a run of insertions and removals of which none is refused, the
/// contents are sound and hold as many leaves as there were insertions, less
/// the removals.
pub proof fn lemma_count_after_edits<T>(log: Seq<Edit<T>>)
    requires
        replay(log) is Some,
    ensures
        replay(log).unwrap().sound(),
        replay(log).unwrap().leaves.dom().len() == insertions(log) - removals(log),
    decreases log.len(),
{
    if log.len() > 0 {
        lemma_count_after_edits(log.drop_last());
        let s = replay(log.drop_last()).unwrap();
        match log.last() {
            Edit::Insert(p, v) => {
                lemma_insert_keeps_sound(s, p, v);
            },
            Edit::Remove(p) => {
                lemma_remove_keeps_sound(s, p);
            },
        }
    }
}

/// Reading a serialized tree back: at every position of the root cube a reader
/// of the flat buffer finds the cell of the value that was inserted there, and
/// 0 where no leaf is.
pub proof fn lemma_decode_finds_leaves<T: Voxel>(s: Contents<T>, p: Point)
    requires
        s.bounds is Some,
        s.bounds.unwrap().valid(),
        s.bounds.unwrap().size >= 2,
        s.bounds.unwrap().contains(p),
    ensures
        s.encoding().len() == s.encoded_len(),
        decode(s.encoding(), p) == if s.leaves.dom().contains(p) {
            s.leaves[p].cell() as int
        } else {
            0
        },
{
    let c = s.bounds.unwrap();
    lemma_tail_len_before(c, s.leaves, 4, 8);
    lemma_probe_finds_leaves(s.encoding(), c, s.leaves, 4, p);
}

} // verus!
