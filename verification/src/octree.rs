//! The octree: nodes that own their eight octants, and the tree that keeps the
//! smallest root that holds every leaf.

use crate::aabc::{point_of, Aabc};
use crate::contents::{tightened, Contents, OctreeError};
use crate::cube::{
    covers, lemma_expand_keeps_cube, lemma_octant_valid, lemma_octants_tile, lemma_pow2_neighbours,
    occupied, Cube, Point,
};
use crate::encoding::{
    agree_on, cell_at, cells_of, encode, lemma_encode_agrees, lemma_span_agrees,
    lemma_span_before_grows, lemma_tail_len_before, span, span_before, tail_before,
};
use crate::voxel::Voxel;
use vecmath::Vector3;
use vstd::prelude::*;

verus! {

/// A cube of the tree with what it holds.
#[derive(PartialEq, Debug)]
pub struct Node<T: Voxel> {
    pub data: NodeData<T>,
    pub aabc: Aabc,
}

/// What a node holds: its eight octants, each absent or a node of its own, or
/// the value of a leaf.
#[derive(PartialEq, Debug)]
pub enum NodeData<T: Voxel> {
    Children([Option<Box<Node<T>>>; 8]),
    Value(T),
}

/// `vecmath::vec3_add` on 32-bit integers: the sum, axis by axis. The three
/// sums have to fit in 32 bits, since the crate adds with `+`.
#[verifier::external_body]
fn vec3_add(a: Vector3<i32>, b: Vector3<i32>) -> (r: Vector3<i32>)
    requires
        i32::MIN <= a[0] + b[0] <= i32::MAX,
        i32::MIN <= a[1] + b[1] <= i32::MAX,
        i32::MIN <= a[2] + b[2] <= i32::MAX,
    ensures
        r[0] == a[0] + b[0],
        r[1] == a[1] + b[1],
        r[2] == a[2] + b[2],
{
    vecmath::vec3_add(a, b)
}

/// Whether `target` lies wholly in the octant of `parent` picked by the three
/// upper-half flags.
fn octant_contains(offs: [bool; 3], target: Aabc, parent: Aabc) -> (b: bool)
    requires
        parent@.in_range(),
        parent.size >= 2,
    ensures
        b == parent@.octant_at(offs[0], offs[1], offs[2]).encloses(target@),
{
    let half = (parent.size / 2) as i32;
    let mut off: Vector3<i32> = [0, 0, 0];
    let mut i: usize = 0;
    while i < 3
        invariant
            i <= 3,
            half == parent.size / 2,
            forall|k: int| 0 <= k < i ==> off[k] == if offs[k] { half } else { 0i32 },
            forall|k: int| i <= k < 3 ==> off[k] == 0,
        decreases 3 - i,
    {
        if offs[i] {
            off[i] = half;
        }
        i += 1;
    }
    let octant = Aabc { origin: vec3_add(parent.origin, off), size: parent.size / 2 };
    octant.contains_aabc(target)
}

/// How many of the first `i` slots hold a child.
pub open spec fn held_before<T: Voxel>(cs: [Option<Box<Node<T>>>; 8], i: int) -> int
    decreases i,
{
    if i <= 0 {
        0
    } else {
        held_before(cs, i - 1) + if cs[i - 1] is Some { 1int } else { 0int }
    }
}

impl<T: Voxel> Clone for Node<T> {
    /// A copy of the node and of all below it. A child whose edge is not smaller
    /// than its parent's is left out: a well-formed node has none.
    fn clone(&self) -> (res: Self)
        ensures
            res == self.copied(),
        decreases self.aabc.size,
    {
        match &self.data {
            NodeData::Children(children) => {
                let mut new_children: [Option<Box<Node<T>>>; 8] = [
                    None,
                    None,
                    None,
                    None,
                    None,
                    None,
                    None,
                    None,
                ];
                let mut i: usize = 0;
                while i < 8
                    invariant
                        i <= 8,
                        self.data == NodeData::Children(*children),
                        forall|j: int|
                            0 <= j < i ==> new_children[j] == Self::copied_slot(
                                children[j],
                                self.aabc.size,
                            ),
                        forall|j: int| i <= j < 8 ==> new_children[j] is None,
                    decreases 8 - i,
                {
                    match &children[i] {
                        Some(child) => {
                            if child.aabc.size < self.aabc.size {
                                let copy = (**child).clone();
                                new_children[i] = Some(Box::new(copy));
                            }
                        },
                        None => (),
                    }
                    i += 1;
                }
                proof {
                    assert(new_children =~= self.copied().slots());
                }
                Node { data: NodeData::Children(new_children), aabc: self.aabc }
            },
            NodeData::Value(v) => Node { data: NodeData::Value(*v), aabc: self.aabc },
        }
    }
}

impl<T: Voxel> Node<T> {
    /// The node's cube is valid, a leaf's edge is 1, and each child of a node
    /// with children has the octant of its slot as its cube and is itself well
    /// formed.
    pub open spec fn wf(self) -> bool
        decreases self.aabc.size,
    {
        &&& self.aabc@.valid()
        &&& match self.data {
            NodeData::Value(_) => self.aabc.size == 1,
            NodeData::Children(cs) => self.aabc.size >= 2 && forall|i: int|
                0 <= i < 8 ==> (#[trigger] cs[i] matches Some(c) ==> c.aabc@ == self.aabc@.octant(i)
                    && c.wf()),
        }
    }

    /// No node at or below this one has eight empty slots.
    pub open spec fn pruned(self) -> bool
        decreases self.aabc.size,
    {
        match self.data {
            NodeData::Value(_) => true,
            NodeData::Children(cs) => (exists|i: int| 0 <= i < 8 && #[trigger] cs[i] is Some)
                && forall|i: int|
                0 <= i < 8 ==> (#[trigger] cs[i] matches Some(c) ==> c.aabc.size < self.aabc.size
                    && c.pruned()),
        }
    }

    /// The value found for `p` by stepping down from this node into the octant
    /// of `p` until a leaf or an empty slot is met.
    pub open spec fn lookup(self, p: Point) -> Option<T>
        decreases self.aabc.size,
    {
        if self.aabc@.contains(p) {
            match self.data {
                NodeData::Value(v) => Some(v),
                NodeData::Children(cs) => match cs[self.aabc@.slot_of(p)] {
                    Some(c) => if c.aabc.size < self.aabc.size {
                        c.lookup(p)
                    } else {
                        None
                    },
                    None => None,
                },
            }
        } else {
            None
        }
    }

    /// The leaves at or below this node, by position.
    pub open spec fn leaves(self) -> Map<Point, T> {
        Map::new(|p: Point| self.lookup(p) is Some, |p: Point| self.lookup(p).unwrap())
    }

    /// The children of the node; eight empty slots for a leaf.
    pub open spec fn slots(self) -> [Option<Box<Node<T>>>; 8] {
        match self.data {
            NodeData::Children(cs) => cs,
            NodeData::Value(_) => [None, None, None, None, None, None, None, None],
        }
    }

    /// What a copy of a slot holds: a copy of the child, if its edge is below
    /// `size`, the edge of the node that holds the slot.
    pub open spec fn copied_slot(slot: Option<Box<Node<T>>>, size: u32) -> Option<Box<Node<T>>>
        decreases size, 0int,
    {
        match slot {
            Some(c) => if c.aabc.size < size {
                Some(Box::new(c.copied()))
            } else {
                None
            },
            None => None,
        }
    }

    /// The copy of a node: the node itself, without the children whose edge is
    /// not smaller than their parent's.
    pub open spec fn copied(self) -> Node<T>
        decreases self.aabc.size, 1int,
    {
        match self.data {
            NodeData::Value(_) => self,
            NodeData::Children(cs) => Node {
                data: NodeData::Children(
                    [
                        Self::copied_slot(cs[0], self.aabc.size),
                        Self::copied_slot(cs[1], self.aabc.size),
                        Self::copied_slot(cs[2], self.aabc.size),
                        Self::copied_slot(cs[3], self.aabc.size),
                        Self::copied_slot(cs[4], self.aabc.size),
                        Self::copied_slot(cs[5], self.aabc.size),
                        Self::copied_slot(cs[6], self.aabc.size),
                        Self::copied_slot(cs[7], self.aabc.size),
                    ],
                ),
                aabc: self.aabc,
            },
        }
    }

    /// The copy of a well-formed node is the node.
    pub proof fn lemma_copied_is_same(self)
        requires
            self.wf(),
        ensures
            self.copied() == self,
        decreases self.aabc.size,
    {
        match self.data {
            NodeData::Value(_) => {},
            NodeData::Children(cs) => {
                lemma_pow2_neighbours(self.aabc@.size);
                assert forall|i: int| 0 <= i < 8 implies #[trigger] self.copied().slots()[i]
                    == cs[i] by {
                    if cs[i] is Some {
                        let c = cs[i].unwrap();
                        c.lemma_copied_is_same();
                    }
                }
                assert(self.copied().slots() =~= cs);
            },
        }
    }

    /// A node with eight empty slots.
    pub fn empty(origin: Vector3<i32>, size: u32) -> (n: Box<Node<T>>)
        ensures
            n.aabc == (Aabc { origin, size }),
            n.data is Children,
            forall|i: int| 0 <= i < 8 ==> n.slots()[i] is None,
    {
        Box::new(
            Node {
                data: NodeData::Children([None, None, None, None, None, None, None, None]),
                aabc: Aabc { origin, size },
            },
        )
    }

    /// The leaf with value `data` at `pos`.
    pub fn new_leaf(data: T, pos: Vector3<i32>) -> (n: Box<Node<T>>)
        ensures
            n.aabc == (Aabc { origin: pos, size: 1 }),
            n.data == NodeData::Value(data),
    {
        Box::new(Node { data: NodeData::Value(data), aabc: Aabc { origin: pos, size: 1 } })
    }

    /// The slot of the octant in which `target` lies.
    pub fn get_octant_idx(&self, target: Aabc) -> (idx: usize)
        requires
            self.aabc@.in_range(),
            self.aabc.size >= 2,
            target.size >= 1,
            self.aabc@.octant(self.aabc@.slot_of(target@.origin)).encloses(target@),
        ensures
            idx < 8,
            idx == self.aabc@.slot_of(target@.origin),
    {
        if octant_contains([false, false, false], target, self.aabc) {
            6
        } else if octant_contains([true, false, false], target, self.aabc) {
            5
        } else if octant_contains([false, true, false], target, self.aabc) {
            2
        } else if octant_contains([true, true, false], target, self.aabc) {
            1
        } else if octant_contains([false, false, true], target, self.aabc) {
            7
        } else if octant_contains([true, false, true], target, self.aabc) {
            4
        } else if octant_contains([false, true, true], target, self.aabc) {
            3
        } else {
            0
        }
    }

    /// The number of children, and the slot of the child if there is one only.
    pub fn count_children(&self) -> (r: (u32, Option<usize>))
        ensures
            r.0 == held_before(self.slots(), 8),
            r.0 == 0 <==> forall|i: int| 0 <= i < 8 ==> self.slots()[i] is None,
            r.1 is Some <==> r.0 == 1,
            r.1 matches Some(k) ==> k < 8 && self.slots()[k as int] is Some && forall|i: int|
                0 <= i < 8 && i != k ==> self.slots()[i] is None,
            r.0 >= 2 ==> exists|i: int, j: int|
                0 <= i < j < 8 && self.slots()[i] is Some && self.slots()[j] is Some,
    {
        let mut idx: Option<usize> = None;
        match &self.data {
            NodeData::Value(_) => {
                assert(held_before(self.slots(), 8) == 0) by {
                    reveal_with_fuel(held_before, 9);
                }
                (0, None)
            },
            NodeData::Children(children) => {
                let mut n: u32 = 0;
                let mut first: usize = 0;
                let mut i: usize = 0;
                while i < 8
                    invariant
                        i <= 8,
                        *children == self.slots(),
                        n == held_before(*children, i as int),
                        n <= i,
                        n == 0 <==> forall|j: int| 0 <= j < i ==> children[j] is None,
                        idx is Some <==> n == 1,
                        n >= 1 ==> first < i && children[first as int] is Some && forall|j: int|
                            0 <= j < first ==> children[j] is None,
                        idx matches Some(k) ==> k == first && forall|j: int|
                            0 <= j < i && j != k ==> children[j] is None,
                        n >= 2 ==> exists|a: int, b: int|
                            0 <= a < b < i && children[a] is Some && children[b] is Some,
                    decreases 8 - i,
                {
                    if children[i].is_some() {
                        n += 1;
                        if n == 1 {
                            idx = Some(i);
                            first = i;
                        } else {
                            idx = None
                        }
                    }
                    i += 1;
                }
                (n, idx)
            },
        }
    }

    /// Puts `child` into the slot of its octant and returns the slot.
    pub fn add_child(&mut self, child: Box<Node<T>>) -> (idx: usize)
        requires
            old(self).data is Children,
            old(self).aabc@.in_range(),
            old(self).aabc@.contains(child.aabc@.origin),
            old(self).aabc.size == 2 * child.aabc.size,
            child.aabc@ == old(self).aabc@.octant(old(self).aabc@.slot_of(child.aabc@.origin)),
            old(self).slots()[old(self).aabc@.slot_of(child.aabc@.origin)] is None,
        ensures
            idx < 8,
            idx == old(self).aabc@.slot_of(child.aabc@.origin),
            final(self).aabc == old(self).aabc,
            final(self).data is Children,
            final(self).slots()@ == old(self).slots()@.update(idx as int, Some(child)),
    {
        let idx = self.get_octant_idx(child.aabc);
        match &mut self.data {
            NodeData::Children(children) => {
                children[idx] = Some(child);
            },
            NodeData::Value(_) => {},
        }
        idx
    }

    /// Every child is pruned. A node that is tidy and holds a child is pruned.
    pub open spec fn tidy(self) -> bool {
        match self.data {
            NodeData::Value(_) => true,
            NodeData::Children(cs) => forall|i: int|
                0 <= i < 8 ==> (#[trigger] cs[i] matches Some(c) ==> c.aabc.size < self.aabc.size
                    && c.pruned()),
        }
    }

    /// The value found for `q` in what a slot holds.
    pub open spec fn lookup_in(slot: Option<Box<Node<T>>>, q: Point) -> Option<T> {
        match slot {
            Some(c) => c.lookup(q),
            None => None,
        }
    }

    /// In a well-formed node with children, a point is looked up in the child
    /// of its slot.
    pub proof fn lemma_lookup_steps_down(self, q: Point)
        requires
            self.wf(),
            self.data is Children,
        ensures
            self.aabc@.contains(q) ==> 0 <= self.aabc@.slot_of(q) < 8,
            self.lookup(q) == if self.aabc@.contains(q) {
                Self::lookup_in(self.slots()[self.aabc@.slot_of(q)], q)
            } else {
                None
            },
    {
    }

    /// What the well-formedness of a node says of the child in slot `i`.
    pub proof fn lemma_child_facts(self, i: int)
        requires
            self.wf(),
            0 <= i < 8,
            self.slots()[i] is Some,
        ensures
            self.data is Children,
            self.slots()[i].unwrap().wf(),
            self.slots()[i].unwrap().aabc@ == self.aabc@.octant(i),
            2 * self.slots()[i].unwrap().aabc.size == self.aabc.size,
            self.aabc.size == 2 ==> self.slots()[i].unwrap().data is Value,
            self.aabc.size > 2 ==> self.slots()[i].unwrap().data is Children,
            forall|q: Point| #[trigger]
                self.slots()[i].unwrap().aabc@.contains(q) <==> self.aabc@.contains(q)
                    && self.aabc@.slot_of(q) == i,
    {
        let c = self.slots()[i].unwrap();
        assert(c.wf());
    }

    /// A well-formed, pruned node holds a leaf.
    pub proof fn lemma_pruned_holds_leaf(self) -> (p: Point)
        requires
            self.wf(),
            self.pruned(),
        ensures
            self.lookup(p) is Some,
            self.aabc@.contains(p),
        decreases self.aabc.size,
    {
        match self.data {
            NodeData::Value(_) => self.aabc@.origin,
            NodeData::Children(cs) => {
                let i = choose|i: int| 0 <= i < 8 && #[trigger] cs[i] is Some;
                cs[i].unwrap().lemma_pruned_holds_leaf()
            },
        }
    }

    /// Two nodes over one cube that differ in what slot `idx` holds: if the
    /// first is well formed and the second holds a well-formed child for the
    /// octant there, or none, then the second is well formed, and it finds for
    /// a point of that octant what the new child finds, and for any other point
    /// what the first node finds.
    pub proof fn lemma_slot_change(a: Node<T>, b: Node<T>, idx: int)
        requires
            a.wf(),
            a.data is Children,
            b.data is Children,
            a.aabc == b.aabc,
            0 <= idx < 8,
            forall|i: int| 0 <= i < 8 && i != idx ==> b.slots()[i] == a.slots()[i],
            b.slots()[idx] matches Some(c) ==> c.wf() && c.aabc@ == a.aabc@.octant(idx),
        ensures
            b.wf(),
            forall|q: Point|
                #[trigger] b.lookup(q) == if a.aabc@.contains(q) && a.aabc@.slot_of(q) == idx {
                    Self::lookup_in(b.slots()[idx], q)
                } else {
                    a.lookup(q)
                },
            forall|q: Point|
                a.aabc@.contains(q) && a.aabc@.slot_of(q) == idx ==> #[trigger] a.lookup(q)
                    == Self::lookup_in(a.slots()[idx], q),
            a.tidy() && (b.slots()[idx] matches Some(c) ==> c.pruned()) ==> b.tidy(),
    {
        assert forall|q: Point|
            #[trigger] b.lookup(q) == if a.aabc@.contains(q) && a.aabc@.slot_of(q) == idx {
                Self::lookup_in(b.slots()[idx], q)
            } else {
                a.lookup(q)
            } by {
            b.lemma_lookup_steps_down(q);
        }
    }

    /// Inserts the leaf below this node, with the nodes that lead to it where
    /// they are missing. Returns whether the position was free; if it was not,
    /// nothing changes.
    fn add_down(&mut self, target_leaf: Box<Node<T>>) -> (added: bool)
        requires
            old(self).wf(),
            old(self).data is Children,
            target_leaf.aabc.size == 1,
            target_leaf.data is Value,
            old(self).aabc@.contains(target_leaf.aabc@.origin),
        ensures
            final(self).wf(),
            final(self).aabc == old(self).aabc,
            final(self).data is Children,
            added == (old(self).lookup(target_leaf.aabc@.origin) is None),
            !added ==> *final(self) == *old(self),
            added ==> forall|q: Point|
                #[trigger] final(self).lookup(q) == if q == target_leaf.aabc@.origin {
                    Some(target_leaf.data->Value_0)
                } else {
                    old(self).lookup(q)
                },
            added && old(self).tidy() ==> final(self).pruned(),
        decreases old(self).aabc.size,
    {
        let ghost p = target_leaf.aabc@.origin;
        let ghost before = *self;
        let idx = self.get_octant_idx(target_leaf.aabc);
        let vacant = match &self.data {
            NodeData::Children(children) => children[idx].is_none(),
            NodeData::Value(_) => false,
        };
        if self.aabc.size > 2 {
            if vacant {
                let shrunken = self.aabc.shrink_towards(target_leaf.aabc.origin);
                let n = Node::empty(shrunken.origin, shrunken.size);
                assert(n.wf());
                self.add_child(n);
            }
            let ghost mid = *self;
            proof {
                if !vacant {
                    before.lemma_child_facts(idx as int);
                }
            }
            let added = match &mut self.data {
                NodeData::Children(children) => match &mut children[idx] {
                    Some(child) => child.add_down(target_leaf),
                    None => false,
                },
                NodeData::Value(_) => false,
            };
            proof {
                Self::lemma_slot_change(mid, *self, idx as int);
                if !added {
                    assert(self.slots() =~= before.slots());
                }
            }
            added
        } else {
            if vacant {
                self.add_child(target_leaf);
                proof {
                    Self::lemma_slot_change(before, *self, idx as int);
                }
                true
            } else {
                proof {
                    before.lemma_child_facts(idx as int);
                    assert(before.slots()[idx as int].unwrap().lookup(p) is Some);
                }
                false
            }
        }
    }

    /// Removes the leaf whose cube is `target` from below this node, with the
    /// nodes that it leaves without children. Returns `None` where there is no
    /// such leaf, and nothing changes then; else whether this node is left
    /// without children.
    fn remove_child(&mut self, target: Aabc) -> (r: Option<bool>)
        requires
            old(self).wf(),
            old(self).data is Children,
            target.size == 1,
            old(self).aabc@.contains(target@.origin),
        ensures
            final(self).wf(),
            final(self).aabc == old(self).aabc,
            final(self).data is Children,
            r is None <==> old(self).lookup(target@.origin) is None,
            r is None ==> *final(self) == *old(self),
            r is Some ==> forall|q: Point|
                #[trigger] final(self).lookup(q) == if q == target@.origin {
                    None
                } else {
                    old(self).lookup(q)
                },
            r matches Some(bare) ==> (bare <==> forall|i: int|
                0 <= i < 8 ==> final(self).slots()[i] is None),
            r is Some && old(self).tidy() ==> final(self).tidy(),
        decreases old(self).aabc.size,
    {
        let ghost p = target@.origin;
        let ghost before = *self;
        proof {
            lemma_octant_valid(self.aabc@, self.aabc@.slot_of(p));
        }
        let idx = self.get_octant_idx(target);
        let parent_size = self.aabc.size;
        proof {
            if before.slots()[idx as int] is Some {
                before.lemma_child_facts(idx as int);
            }
        }
        let found = match &mut self.data {
            NodeData::Children(children) => match &mut children[idx] {
                Some(node) => {
                    if parent_size == 2 {
                        Some(true)
                    } else {
                        node.remove_child(target)
                    }
                },
                None => None,
            },
            NodeData::Value(_) => None,
        };
        let ghost mid = *self;
        proof {
            Self::lemma_slot_change(before, mid, idx as int);
            if found is None {
                assert(mid.slots() =~= before.slots());
            }
        }
        match found {
            None => None,
            Some(remove_node) => {
                if remove_node {
                    match &mut self.data {
                        NodeData::Children(children) => {
                            children[idx] = None;
                        },
                        NodeData::Value(_) => {},
                    }
                }
                let bare = self.count_children().0 == 0;
                proof {
                    Self::lemma_slot_change(mid, *self, idx as int);
                    if !remove_node {
                        assert(self.slots() =~= mid.slots());
                    }
                }
                Some(bare)
            },
        }
    }
}

/// A sparse store of values at positions of the 32-bit grid.
pub struct Octree<T: Voxel> {
    n_leaves: u32,
    root: Option<Box<Node<T>>>,
}

impl<T: Voxel> View for Octree<T> {
    type V = Contents<T>;

    closed spec fn view(&self) -> Contents<T> {
        match self.root {
            None => Contents::empty(),
            Some(r) => Contents { bounds: Some(r.aabc@), leaves: r.leaves() },
        }
    }
}

/// Whether a cube that starts at `start` on one axis stays on the 32-bit grid
/// when it is doubled towards `target`.
fn axis_can_expand(start: i32, size: u32, target: i32) -> (b: bool)
    requires
        1 <= size <= 0x3fff_ffff,
    ensures
        b == (i32::MIN <= Cube::grow_start(start as int, size as int, target as int)
            && Cube::grow_start(start as int, size as int, target as int) + 2 * size - 1
            <= i32::MAX),
{
    let low: i64 = if target < start {
        start as i64 - size as i64
    } else {
        start as i64
    };
    low >= i32::MIN as i64 && low + 2 * (size as i64) - 1 <= i32::MAX as i64
}

/// Whether `cube` can be doubled towards `target` without leaving the range of
/// cubes that a tree holds.
fn can_expand(cube: &Aabc, target: Vector3<i32>) -> (b: bool)
    requires
        cube.size >= 1,
    ensures
        b == cube@.can_expand(point_of(target)),
{
    cube.size <= 0x3fff_ffff && axis_can_expand(cube.origin[0], cube.size, target[0])
        && axis_can_expand(cube.origin[1], cube.size, target[1]) && axis_can_expand(
        cube.origin[2],
        cube.size,
        target[2],
    )
}

/// The cube in which doubling `cube` towards `target` ends, if it reaches
/// `target` in range.
fn reach(cube: Aabc, target: Vector3<i32>) -> (r: Option<Aabc>)
    requires
        cube@.in_range(),
    ensures
        r is Some <==> cube@.can_reach(point_of(target)),
        r matches Some(g) ==> g@ == cube@.grown(point_of(target)),
{
    let mut c = cube;
    while !c.contains(target)
        invariant
            c@.in_range(),
            c@.can_reach(point_of(target)) == cube@.can_reach(point_of(target)),
            c@.grown(point_of(target)) == cube@.grown(point_of(target)),
        decreases i32::MAX - c.size,
    {
        if !can_expand(&c, target) {
            return None;
        }
        c = c.expand_towards(target);
    }
    Some(c)
}

impl<T: Voxel> Node<T> {
    /// The leaves of a well-formed, pruned node lie in its cube, and there is
    /// one at least.
    pub proof fn lemma_leaves_in_cube(self)
        requires
            self.wf(),
            self.pruned(),
        ensures
            covers(self.aabc@, self.leaves().dom()),
            exists|p: Point| self.leaves().dom().contains(p),
            self.leaves().dom().finite() ==> self.leaves().dom().len() > 0,
    {
        let p = self.lemma_pruned_holds_leaf();
        assert(self.leaves().dom().contains(p));
    }

    /// A leaf holds its own position and nothing else.
    pub proof fn lemma_leaf_holds_one(self)
        requires
            self.wf(),
            self.data is Value,
        ensures
            self.pruned(),
            self.leaves() =~= Map::<Point, T>::empty().insert(
                self.aabc@.origin,
                self.data->Value_0,
            ),
            self.leaves().dom().finite(),
            self.leaves().dom().len() == 1,
    {
        let m = Map::<Point, T>::empty().insert(self.aabc@.origin, self.data->Value_0);
        assert forall|q: Point| self.leaves().dom().contains(q) <==> m.dom().contains(q) by {
            if self.aabc@.contains(q) {
                assert(q == self.aabc@.origin);
            }
        }
        assert(self.leaves() =~= m);
    }

    /// A node without children holds no leaf.
    pub proof fn lemma_bare_holds_none(self)
        requires
            self.data is Children,
            forall|i: int| 0 <= i < 8 ==> self.slots()[i] is None,
        ensures
            forall|q: Point| (#[trigger] self.lookup(q)) is None,
            self.leaves() =~= Map::<Point, T>::empty(),
    {
        assert forall|q: Point| (#[trigger] self.lookup(q)) is None by {
            assert(self.slots()[self.aabc@.slot_of(q)] is None);
        }
        assert(self.leaves() =~= Map::<Point, T>::empty());
    }

    /// With one child only, a well-formed, pruned node holds what the child
    /// holds, and the child's octant is the one that covers its leaves.
    pub proof fn lemma_single_child(self, k: int)
        requires
            self.wf(),
            self.pruned(),
            0 <= k < 8,
            self.slots()[k] is Some,
            forall|i: int| 0 <= i < 8 && i != k ==> self.slots()[i] is None,
        ensures
            self.slots()[k].unwrap().wf(),
            self.slots()[k].unwrap().pruned(),
            self.slots()[k].unwrap().leaves() =~= self.leaves(),
            tightened(self.aabc@, self.leaves().dom()) == tightened(
                self.slots()[k].unwrap().aabc@,
                self.leaves().dom(),
            ),
    {
        let c = self.slots()[k].unwrap();
        let s = self.leaves().dom();
        self.lemma_child_facts(k);
        assert(c.pruned());
        assert forall|q: Point| self.lookup(q) == c.lookup(q) by {
            self.lemma_lookup_steps_down(q);
            assert(c.aabc@.contains(q) <==> self.aabc@.contains(q) && self.aabc@.slot_of(q) == k);
        }
        assert(c.leaves() =~= self.leaves());
        let p = self.lemma_pruned_holds_leaf();
        assert(s.contains(p));
        assert(covers(self.aabc@.octant(k), s)) by {
            assert forall|q: Point| s.contains(q) implies self.aabc@.octant(k).contains(q) by {
                assert(c.lookup(q) is Some);
            }
        }
        let j = choose|i: int| 0 <= i < 8 && covers(#[trigger] self.aabc@.octant(i), s);
        assert(self.aabc@.octant(j).contains(p) && self.aabc@.octant(k).contains(p));
        lemma_pow2_neighbours(self.aabc@.size);
        lemma_octants_tile(self.aabc@, j, p);
        lemma_octants_tile(self.aabc@, k, p);
    }

    /// A leaf, and a well-formed, pruned node with two children or more, is
    /// already as tight as its leaves allow.
    pub proof fn lemma_branching_is_tight(self, i: int, j: int)
        requires
            self.wf(),
            self.pruned(),
            self.data is Children ==> 0 <= i < j < 8 && self.slots()[i] is Some && self.slots()[
                j
            ] is Some,
        ensures
            tightened(self.aabc@, self.leaves().dom()) == self.aabc@,
    {
        let s = self.leaves().dom();
        if self.data is Children {
            lemma_pow2_neighbours(self.aabc@.size);
            self.lemma_child_facts(i);
            self.lemma_child_facts(j);
            let ci = self.slots()[i].unwrap();
            let cj = self.slots()[j].unwrap();
            assert(ci.pruned() && cj.pruned());
            let pi = ci.lemma_pruned_holds_leaf();
            let pj = cj.lemma_pruned_holds_leaf();
            self.lemma_lookup_steps_down(pi);
            self.lemma_lookup_steps_down(pj);
            assert(ci.aabc@.contains(pi) <==> self.aabc@.contains(pi) && self.aabc@.slot_of(pi)
                == i);
            assert(cj.aabc@.contains(pj) <==> self.aabc@.contains(pj) && self.aabc@.slot_of(pj)
                == j);
            assert(s.contains(pi) && s.contains(pj));
            assert forall|k: int| 0 <= k < 8 implies !covers(
                #[trigger] self.aabc@.octant(k),
                s,
            ) by {
                lemma_octants_tile(self.aabc@, k, pi);
                lemma_octants_tile(self.aabc@, k, pj);
            }
        }
    }
}

impl<T: Voxel> Node<T> {
    /// The cells that the blocks at and below this node take in the flat
    /// buffer. A leaf has no block.
    pub open spec fn cells(self) -> int {
        match self.data {
            NodeData::Value(_) => 0,
            NodeData::Children(_) => span(self.aabc@, self.leaves()),
        }
    }

    /// In a well-formed, pruned node a slot holds a child exactly when the
    /// octant holds a leaf, and inside its octant the child holds the leaves
    /// that the node holds.
    pub proof fn lemma_slot_occupied(self, i: int)
        requires
            self.wf(),
            self.pruned(),
            self.data is Children,
            0 <= i < 8,
        ensures
            self.slots()[i] is Some <==> occupied(self.leaves().dom(), self.aabc@.octant(i)),
            self.slots()[i] matches Some(c) ==> c.wf() && c.pruned() && c.aabc@
                == self.aabc@.octant(i) && agree_on(c.leaves(), self.leaves(), c.aabc@),
            self.aabc.size == 2 ==> match self.slots()[i] {
                Some(c) => c.data is Value && self.leaves().dom().contains(
                    self.aabc@.octant(i).origin,
                ) && self.leaves()[self.aabc@.octant(i).origin] == c.data->Value_0,
                None => !self.leaves().dom().contains(self.aabc@.octant(i).origin),
            },
    {
        let o = self.aabc@.octant(i);
        let m = self.leaves();
        lemma_pow2_neighbours(self.aabc@.size);
        lemma_octants_tile(self.aabc@, i, o.origin);
        self.lemma_lookup_steps_down(o.origin);
        if self.slots()[i] is Some {
            let c = self.slots()[i].unwrap();
            self.lemma_child_facts(i);
            assert(c.pruned());
            let p = c.lemma_pruned_holds_leaf();
            self.lemma_lookup_steps_down(p);
            assert(c.aabc@.contains(p) <==> self.aabc@.contains(p) && self.aabc@.slot_of(p) == i);
            assert(m.dom().contains(p) && o.contains(p));
            assert forall|q: Point| c.aabc@.contains(q) implies (c.leaves().dom().contains(q)
                <==> m.dom().contains(q)) && (c.leaves().dom().contains(q) ==> c.leaves()[q]
                == m[q]) by {
                self.lemma_lookup_steps_down(q);
                assert(c.aabc@.contains(q) <==> self.aabc@.contains(q) && self.aabc@.slot_of(q)
                    == i);
            }
            if self.aabc.size == 2 {
                assert(c.lookup(o.origin) is Some);
            }
        } else {
            if occupied(m.dom(), o) {
                let p = choose|p: Point| m.dom().contains(p) && o.contains(p);
                lemma_octants_tile(self.aabc@, i, p);
                self.lemma_lookup_steps_down(p);
            }
        }
    }
}

impl<T: Voxel> Node<T> {
    /// The cube and the leaves decide the tree: two well-formed, pruned nodes
    /// with the same cube that find the same value at every point are the same
    /// node.
    pub proof fn lemma_shape_is_determined(self, other: Node<T>)
        requires
            self.wf(),
            self.pruned(),
            other.wf(),
            other.pruned(),
            self.aabc@ == other.aabc@,
            forall|q: Point| self.lookup(q) == other.lookup(q),
        ensures
            self == other,
        decreases self.aabc.size,
    {
        assert(self.aabc.origin =~= other.aabc.origin);
        match self.data {
            NodeData::Value(v) => {
                assert(self.lookup(self.aabc@.origin) == other.lookup(self.aabc@.origin));
            },
            NodeData::Children(cs) => {
                assert forall|i: int| 0 <= i < 8 implies #[trigger] cs[i] == other.slots()[i] by {
                    self.lemma_slot_occupied(i);
                    other.lemma_slot_occupied(i);
                    if cs[i] is Some {
                        let a = cs[i].unwrap();
                        let b = other.slots()[i].unwrap();
                        a.lemma_shape_is_determined(*b);
                    }
                }
                assert(cs =~= other.slots());
            },
        }
    }
}

impl<T: Voxel> Octree<T> {
    #[verifier::type_invariant]
    spec fn inv(self) -> bool {
        match self.root {
            None => self.n_leaves == 0,
            Some(r) => r.wf() && r.pruned() && r.leaves().dom().finite() && r.leaves().dom().len()
                == self.n_leaves,
        }
    }

    /// What holds of every tree holds of its contents.
    proof fn lemma_inv_gives_sound(tree: Self)
        requires
            tree.inv(),
        ensures
            tree@.sound(),
    {
        if tree.root is Some {
            tree.root.unwrap().lemma_leaves_in_cube();
        }
    }

    /// The tree without leaves.
    pub fn new() -> (tree: Self)
        ensures
            tree@ == Contents::<T>::empty(),
    {
        Octree { n_leaves: 0, root: None }
    }

    /// The root node, if the tree has a leaf.
    pub fn root(&self) -> (r: &Option<Box<Node<T>>>)
        ensures
            match *r {
                None => self@ == Contents::<T>::empty(),
                Some(n) => n.wf() && n.pruned() && self@ == (Contents {
                    bounds: Some(n.aabc@),
                    leaves: n.leaves(),
                }),
            },
    {
        proof {
            use_type_invariant(self);
        }
        &self.root
    }

    /// The number of leaves.
    pub fn count_leaves(&self) -> (n: u32)
        ensures
            n == self@.leaves.dom().len(),
            self@.sound(),
    {
        proof {
            use_type_invariant(self);
            Self::lemma_inv_gives_sound(*self);
        }
        self.n_leaves
    }

    /// The cells that the blocks at and below `node` take, if they are no
    /// more than a signed 32-bit offset can address.
    fn get_size_recurse(node: &Box<Node<T>>) -> (r: Option<usize>)
        requires
            node.wf(),
            node.pruned(),
        ensures
            match r {
                Some(n) => n == node.cells() && n <= i32::MAX,
                None => node.cells() > i32::MAX,
            },
        decreases node.aabc.size,
    {
        match &node.data {
            NodeData::Children(children) => {
                let ghost c = node.aabc@;
                let ghost m = node.leaves();
                let mut count: usize = 8;
                let mut i: usize = 0;
                while i < 8
                    invariant
                        i <= 8,
                        node.wf(),
                        node.pruned(),
                        node.data == NodeData::Children(*children),
                        c == node.aabc@,
                        m == node.leaves(),
                        count == 8 + span_before(c, m, i as int),
                        count <= i32::MAX,
                    decreases 8 - i,
                {
                    proof {
                        node.lemma_slot_occupied(i as int);
                        lemma_span_before_grows(c, m, i as int + 1, 8);
                    }
                    match &children[i] {
                        Some(child) => {
                            proof {
                                lemma_span_agrees(c.octant(i as int), child.leaves(), m, 8);
                            }
                            match Self::get_size_recurse(child) {
                                None => {
                                    return None;
                                },
                                Some(n) => {
                                    if n > i32::MAX as usize - count {
                                        return None;
                                    }
                                    count += n;
                                },
                            }
                        },
                        None => (),
                    }
                    i += 1;
                }
                Some(count)
            },
            NodeData::Value(_) => Some(0),
        }
    }

    /// The length of the flat buffer, if it is no more than a signed 32-bit
    /// offset can address.
    pub fn get_serialized_size(&self) -> (r: Option<usize>)
        ensures
            match r {
                Some(n) => n == self@.encoded_len() && n <= i32::MAX,
                None => self@.encoded_len() > i32::MAX,
            },
    {
        proof {
            use_type_invariant(self);
        }
        match &self.root {
            Some(r) => match Self::get_size_recurse(r) {
                Some(n) => if n > i32::MAX as usize - 4 {
                    None
                } else {
                    Some(4 + n)
                },
                None => None,
            },
            None => Some(1),
        }
    }

    /// Writes the blocks at and below `curr` into `arr` from offset `idx` on,
    /// where `arr` holds zeros, and returns how many cells they take.
    fn serialize_recurse(idx: usize, arr: &mut Vec<i32>, curr: &Box<Node<T>>) -> (used: usize)
        requires
            curr.wf(),
            curr.pruned(),
            curr.data is Children,
            idx + curr.cells() <= old(arr).len() <= i32::MAX,
            forall|j: int| idx <= j < idx + curr.cells() ==> old(arr)[j] == 0,
        ensures
            final(arr).len() == old(arr).len(),
            used == curr.cells(),
            forall|j: int|
                0 <= j < old(arr).len() && !(idx <= j < idx + used) ==> final(arr)[j] == old(
                    arr,
                )[j],
            forall|j: int|
                idx <= j < idx + used ==> final(arr)[j] as int == encode(
                    curr.aabc@,
                    curr.leaves(),
                    idx as int,
                )[j - idx],
        decreases curr.aabc.size,
    {
        let ghost c = curr.aabc@;
        let ghost m = curr.leaves();
        let ghost total = curr.cells();
        proof {
            lemma_tail_len_before(c, m, idx as int, 8);
        }
        match &curr.data {
            NodeData::Children(children) => {
                let mut start = idx + 8;
                if curr.aabc.size == 2 {
                    let mut i: usize = 0;
                    while i < 8
                        invariant
                            i <= 8,
                            curr.wf(),
                            curr.pruned(),
                            curr.data == NodeData::Children(*children),
                            curr.aabc.size == 2,
                            c == curr.aabc@,
                            m == curr.leaves(),
                            total == 8,
                            arr.len() == old(arr).len(),
                            idx + 8 <= arr.len(),
                            forall|j: int|
                                0 <= j < arr.len() && !(idx <= j < idx + 8) ==> arr[j] == old(
                                    arr,
                                )[j],
                            forall|j: int|
                                idx <= j < idx + i ==> arr[j] as int == cell_at(
                                    c,
                                    m,
                                    idx as int,
                                    j - idx,
                                ),
                            forall|j: int| idx + i <= j < idx + 8 ==> arr[j] == 0,
                        decreases 8 - i,
                    {
                        proof {
                            curr.lemma_slot_occupied(i as int);
                        }
                        match &children[i] {
                            Some(c) => match c.data {
                                NodeData::Children(_) => (),
                                NodeData::Value(d) => arr[idx + i] = d.to_cell(),
                            },
                            None => (),
                        }
                        i += 1;
                    }
                } else {
                    let mut i: usize = 0;
                    while i < 8
                        invariant
                            i <= 8,
                            curr.wf(),
                            curr.pruned(),
                            curr.data == NodeData::Children(*children),
                            curr.aabc.size > 2,
                            c == curr.aabc@,
                            m == curr.leaves(),
                            total == 8 + span_before(c, m, 8),
                            arr.len() == old(arr).len(),
                            idx + total <= arr.len() <= i32::MAX,
                            start == idx + 8 + span_before(c, m, i as int),
                            start <= idx + total,
                            forall|j: int|
                                0 <= j < arr.len() && !(idx <= j < idx + total) ==> arr[j] == old(
                                    arr,
                                )[j],
                            forall|j: int|
                                idx <= j < idx + i ==> arr[j] as int == cell_at(
                                    c,
                                    m,
                                    idx as int,
                                    j - idx,
                                ),
                            forall|j: int| idx + i <= j < idx + 8 ==> arr[j] == 0,
                            forall|j: int|
                                idx + 8 <= j < start ==> arr[j] as int == tail_before(
                                    c,
                                    m,
                                    idx as int,
                                    i as int,
                                )[j - idx - 8],
                            forall|j: int| start <= j < idx + total ==> arr[j] == 0,
                        decreases 8 - i,
                    {
                        proof {
                            curr.lemma_slot_occupied(i as int);
                            lemma_span_before_grows(c, m, i as int + 1, 8);
                            lemma_tail_len_before(c, m, idx as int, i as int);
                        }
                        match &children[i] {
                            Some(child) => {
                                proof {
                                    lemma_span_agrees(c.octant(i as int), child.leaves(), m, 8);
                                    lemma_encode_agrees(
                                        c.octant(i as int),
                                        child.leaves(),
                                        m,
                                        start as int,
                                        8,
                                    );
                                }
                                arr[idx + i] = start as i32;
                                let below = Self::serialize_recurse(start, arr, child);
                                proof {
                                    lemma_tail_len_before(c.octant(i as int), m, start as int, 8);
                                }
                                start += below;
                            },
                            None => (),
                        }
                        i += 1;
                    }
                }
                start - idx
            },
            NodeData::Value(_) => 0,
        }
    }

    /// The flat buffer that stands for the tree.
    pub fn serialize(&self) -> (r: Result<Vec<i32>, OctreeError>)
        ensures
            match r {
                Ok(buf) => self@.serialize_fault() is None && cells_of(buf@) == self@.encoding(),
                Err(e) => self@.serialize_fault() == Some(e),
            },
    {
        proof {
            use_type_invariant(self);
        }
        match &self.root {
            Some(n) => {
                if n.aabc.size == 1 {
                    return Err(OctreeError::SingleLeaf);
                }
                let cells = match Self::get_size_recurse(n) {
                    Some(cells) => cells,
                    None => {
                        return Err(OctreeError::TooLarge);
                    },
                };
                if cells > i32::MAX as usize - 4 {
                    return Err(OctreeError::TooLarge);
                }
                let mut arr = vec![0 as i32; 4 + cells];
                arr[0] = n.aabc.size as i32;
                arr[1] = n.aabc.origin[0];
                arr[2] = n.aabc.origin[1];
                arr[3] = n.aabc.origin[2];
                Self::serialize_recurse(4, &mut arr, n);
                proof {
                    lemma_tail_len_before(n.aabc@, n.leaves(), 4, 8);
                }
                Ok(arr)
            },
            None => {
                let arr = vec![0 as i32; 1];
                Ok(arr)
            },
        }
    }

    /// Replaces the root by its only child for as long as it has one child
    /// only.
    fn shrink_root(node: Box<Node<T>>) -> (r: Box<Node<T>>)
        requires
            node.wf(),
            node.pruned(),
        ensures
            r.wf(),
            r.pruned(),
            r.leaves() == node.leaves(),
            r.aabc@ == tightened(node.aabc@, node.leaves().dom()),
        decreases node.aabc.size,
    {
        let (_, i) = node.count_children();
        match i {
            Some(k) => {
                proof {
                    node.lemma_single_child(k as int);
                }
                let mut node = node;
                let only = match &mut node.data {
                    NodeData::Children(children) => children[k].take(),
                    NodeData::Value(_) => None,
                };
                match only {
                    Some(child) => Self::shrink_root(child),
                    None => node,
                }
            },
            None => {
                proof {
                    if node.data is Children {
                        let (a, b) = choose|a: int, b: int|
                            0 <= a < b < 8 && node.slots()[a] is Some && node.slots()[b] is Some;
                        node.lemma_branching_is_tight(a, b);
                    }
                }
                node
            },
        }
    }

    /// Removes the leaf at `target`.
    pub fn remove_leaf(&mut self, target: Vector3<i32>) -> (r: Result<(), OctreeError>)
        ensures
            match r {
                Ok(()) => old(self)@.remove_fault(point_of(target)) is None && final(self)@ == old(
                    self,
                )@.remove(point_of(target)),
                Err(e) => old(self)@.remove_fault(point_of(target)) == Some(e) && *final(self)
                    == *old(self),
            },
            old(self)@.sound(),
            final(self)@.sound(),
    {
        proof {
            use_type_invariant(&*self);
            Self::lemma_inv_gives_sound(*self);
        }
        let ghost p = point_of(target);
        let mut taken = Octree { n_leaves: 0, root: None };
        std::mem::swap(self, &mut taken);
        let Octree { n_leaves, root } = taken;
        match root {
            None => {
                *self = Octree { n_leaves, root: None };
                proof {
                    use_type_invariant(&*self);
                }
                Err(OctreeError::EmptyTree)
            },
            Some(mut node) => {
                let ghost orig = *node;
                let target = Aabc { origin: target, size: 1 };
                if !node.aabc.contains(target.origin) {
                    *self = Octree { n_leaves, root: Some(node) };
                    proof {
                        use_type_invariant(&*self);
                    }
                    Err(OctreeError::NotFound)
                } else if node.aabc.size == 1 {
                    proof {
                        assert(orig.leaves().remove(p) =~= Map::<Point, T>::empty());
                    }
                    *self = Octree { n_leaves: 0, root: None };
                    proof {
                        use_type_invariant(&*self);
                    }
                    Ok(())
                } else {
                    let remove_node = node.remove_child(target);
                    match remove_node {
                        None => {
                            *self = Octree { n_leaves, root: Some(node) };
                            proof {
                                use_type_invariant(&*self);
                            }
                            Err(OctreeError::NotFound)
                        },
                        Some(bare) => {
                            proof {
                                assert(node.leaves() =~= orig.leaves().remove(p));
                            }
                            if bare {
                                proof {
                                    node.lemma_bare_holds_none();
                                }
                                *self = Octree { n_leaves: 0, root: None };
                                proof {
                                    use_type_invariant(&*self);
                                }
                            } else {
                                proof {
                                    node.lemma_leaves_in_cube();
                                }
                                let shrunk = Self::shrink_root(node);
                                *self = Octree { n_leaves: n_leaves - 1, root: Some(shrunk) };
                                proof {
                                    use_type_invariant(&*self);
                                }
                            }
                            Ok(())
                        },
                    }
                }
            },
        }
    }

    /// Inserts a leaf with value `data` at `pos`.
    pub fn insert_leaf(&mut self, data: T, pos: Vector3<i32>) -> (r: Result<(), OctreeError>)
        ensures
            match r {
                Ok(()) => old(self)@.insert_fault(point_of(pos)) is None && final(self)@ == old(
                    self,
                )@.insert(point_of(pos), data),
                Err(e) => old(self)@.insert_fault(point_of(pos)) == Some(e) && *final(self) == *old(
                    self,
                ),
            },
            old(self)@.sound(),
            final(self)@.sound(),
    {
        proof {
            use_type_invariant(&*self);
            Self::lemma_inv_gives_sound(*self);
        }
        let ghost p = point_of(pos);
        let leaf = Node::new_leaf(data, pos);
        proof {
            leaf.lemma_leaf_holds_one();
        }
        let mut taken = Octree { n_leaves: 0, root: None };
        std::mem::swap(self, &mut taken);
        let Octree { n_leaves, root } = taken;
        match root {
            None => {
                *self = Octree { n_leaves: 1, root: Some(leaf) };
                proof {
                    use_type_invariant(&*self);
                }
                Ok(())
            },
            Some(mut node) => {
                let ghost orig = *node;
                if n_leaves == u32::MAX {
                    *self = Octree { n_leaves, root: Some(node) };
                    proof {
                        use_type_invariant(&*self);
                    }
                    return Err(OctreeError::Full);
                }
                if reach(node.aabc, pos).is_none() {
                    *self = Octree { n_leaves, root: Some(node) };
                    proof {
                        use_type_invariant(&*self);
                    }
                    return Err(OctreeError::OutOfRange);
                }
                while !node.aabc.contains(pos)
                    invariant
                        node.wf(),
                        node.pruned(),
                        node.aabc@.can_reach(p),
                        node.aabc@.grown(p) == orig.aabc@.grown(p),
                        node.leaves() == orig.leaves(),
                        orig.aabc@.contains(p) ==> *node == orig,
                        p == point_of(pos),
                    decreases i32::MAX - node.aabc.size,
                {
                    let expanded = node.aabc.expand_towards(pos);
                    let mut n = Node::empty(expanded.origin, expanded.size);
                    let ghost inner = *node;
                    let ghost outer = *n;
                    proof {
                        lemma_expand_keeps_cube(inner.aabc@, p);
                    }
                    n.add_child(node);
                    node = n;
                    proof {
                        let k = outer.aabc@.slot_of(inner.aabc@.origin);
                        Node::lemma_slot_change(outer, *node, k);
                    }
                }
                if node.aabc.size == 1 {
                    *self = Octree { n_leaves, root: Some(node) };
                    proof {
                        use_type_invariant(&*self);
                    }
                    return Err(OctreeError::DuplicatePosition);
                }
                let added = node.add_down(leaf);
                if added {
                    proof {
                        assert(node.leaves() =~= orig.leaves().insert(p, data));
                    }
                    *self = Octree { n_leaves: n_leaves + 1, root: Some(node) };
                    proof {
                        use_type_invariant(&*self);
                    }
                    Ok(())
                } else {
                    *self = Octree { n_leaves, root: Some(node) };
                    proof {
                        use_type_invariant(&*self);
                    }
                    Err(OctreeError::DuplicatePosition)
                }
            },
        }
    }
}

} // verus!
