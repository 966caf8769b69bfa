use voxel_octree::aabc::Aabc;
use voxel_octree::contents::OctreeError;
use voxel_octree::octree::{Node, NodeData, Octree};

#[test]
fn insert_leaf() {
    let mut tree = Octree::new();
    let expected_root = Node::new_leaf(0, [0, 0, 0]);
    tree.insert_leaf(0, [0, 0, 0]).unwrap();
    assert_eq!(*tree.root(), Some(expected_root))
}

#[test]
#[should_panic]
fn insert_duplicate_leaf_panics() {
    let mut tree = Octree::new();
    tree.insert_leaf(0, [0, 0, 0]).unwrap();
    tree.insert_leaf(0, [0, 0, 0]).unwrap();
}

#[test]
#[should_panic]
fn insert_duplicate_leaf_panics_2() {
    let mut tree = Octree::new();
    tree.insert_leaf(0, [0, 0, 0]).unwrap();
    tree.insert_leaf(0, [2, 2, 2]).unwrap();
    tree.insert_leaf(0, [0, 0, 0]).unwrap();
}

#[test]
fn add_children_leaves_to_node() {
    let mut node = Node::empty([0, 0, 0], 2);
    let expected_children = [
        Some(Node::new_leaf(0, [1, 1, 1])),
        Some(Node::new_leaf(0, [1, 1, 0])),
        Some(Node::new_leaf(0, [0, 1, 0])),
        Some(Node::new_leaf(0, [0, 1, 1])),
        Some(Node::new_leaf(0, [1, 0, 1])),
        Some(Node::new_leaf(0, [1, 0, 0])),
        Some(Node::new_leaf(0, [0, 0, 0])),
        Some(Node::new_leaf(0, [0, 0, 1])),
    ];
    for i in 0..expected_children.len() {
        node.add_child(expected_children[i].clone().unwrap());
    }
    assert_eq!(NodeData::Children(expected_children), node.data)
}

#[test]
fn add_child_nodes_to_node() {
    let mut node: Box<Node<i32>> = Node::empty([0, 0, 0], 4);
    let expected_aabcs = [
        Aabc {
            origin: [2, 2, 2],
            size: 2,
        },
        Aabc {
            origin: [2, 2, 0],
            size: 2,
        },
        Aabc {
            origin: [0, 2, 0],
            size: 2,
        },
        Aabc {
            origin: [0, 2, 2],
            size: 2,
        },
        Aabc {
            origin: [2, 0, 2],
            size: 2,
        },
        Aabc {
            origin: [2, 0, 0],
            size: 2,
        },
        Aabc {
            origin: [0, 0, 0],
            size: 2,
        },
        Aabc {
            origin: [0, 0, 2],
            size: 2,
        },
    ];
    for i in 0..expected_aabcs.len() {
        node.add_child(Node::empty(expected_aabcs[i].origin, 2));
    }
    match node.data {
        NodeData::Children(arr) => {
            for i in 0..expected_aabcs.len() {
                assert_eq!(expected_aabcs[i], arr[i].clone().unwrap().aabc)
            }
        }
        NodeData::Value(_) => unreachable!(),
    }
}

#[test]
fn insert_two_leaves() {
    let mut tree = Octree::new();
    let leaf1 = Node::new_leaf(0, [0, 0, 0]);
    let leaf2 = Node::new_leaf(1, [1, 0, 0]);
    tree.insert_leaf(0, [0, 0, 0]).unwrap();
    tree.insert_leaf(1, [1, 0, 0]).unwrap();
    let mut expected_node = Node::empty([0, 0, 0], 2);
    expected_node.data =
        NodeData::Children([None, None, None, None, None, Some(leaf2), Some(leaf1), None]);

    assert_eq!(*tree.root(), Some(expected_node));
}

#[test]
#[should_panic]
fn remove_leaf_empty_tree_panics() {
    let mut tree: Octree<i32> = Octree::new();
    tree.remove_leaf([0, 0, 0]).unwrap();
}

#[test]
#[should_panic]
fn remove_unknown_leaf_panics() {
    let mut tree = Octree::new();
    tree.insert_leaf(0, [0, 0, 0]).unwrap();
    tree.insert_leaf(0, [1, 0, 0]).unwrap();
    tree.remove_leaf([1, 1, 1]).unwrap();
}

#[test]
fn insert_and_remove_leaf() {
    let mut tree = Octree::new();
    tree.insert_leaf(0, [0, 0, 0]).unwrap();
    tree.remove_leaf([0, 0, 0]).unwrap();
    assert!(tree.root().is_none());
}

#[test]
fn insert_2_and_remove_1_leaf() {
    let mut tree = Octree::new();
    tree.insert_leaf(0, [0, 0, 0]).unwrap();
    tree.insert_leaf(0, [1, 1, 1]).unwrap();
    tree.remove_leaf([0, 0, 0]).unwrap();
    assert_eq!(*tree.root(), Some(Node::new_leaf(0, [1, 1, 1])));
}

#[test]
fn complex_insert_remove() {
    let mut tree = Octree::new();
    let leaf3 = Node::new_leaf(0, [2, 2, 2]);
    tree.insert_leaf(0, [0, 0, 0]).unwrap();
    tree.insert_leaf(0, [1, 1, 1]).unwrap();
    tree.insert_leaf(0, leaf3.aabc.origin).unwrap();
    tree.remove_leaf([0, 0, 0]).unwrap();
    let leaf4 = Node::new_leaf(5, [2, 2, 1]);
    tree.insert_leaf(5, leaf4.aabc.origin).unwrap();
    tree.remove_leaf([1, 1, 1]).unwrap();

    let expected_root = Box::new(Node {
        data: NodeData::Children([
            Some(Box::new(Node {
                data: NodeData::Children([
                    None,
                    None,
                    None,
                    None,
                    None,
                    None,
                    Some(leaf3),
                    None,
                ]),
                aabc: Aabc {
                    origin: [2, 2, 2],
                    size: 2,
                },
            })),
            Some(Box::new(Node {
                data: NodeData::Children([
                    None,
                    None,
                    None,
                    None,
                    None,
                    None,
                    None,
                    Some(leaf4),
                ]),
                aabc: Aabc {
                    origin: [2, 2, 0],
                    size: 2,
                },
            })),
            None,
            None,
            None,
            None,
            None,
            None,
        ]),
        aabc: Aabc {
            origin: [0, 0, 0],
            size: 4,
        },
    });
    assert_eq!(*tree.root(), Some(expected_root));
}

#[test]
fn count_leaves_empty_tree() {
    let tree: Octree<bool> = Octree::new();
    let expected_count = 0;
    assert_eq!(expected_count, tree.count_leaves());
}

#[test]
fn count_inserted_leaves() {
    let mut tree = Octree::new();
    let leaf1 = Node::new_leaf(0, [0, 0, 0]);
    let leaf2 = Node::new_leaf(1, [1, 0, 0]);
    let leaf3 = Node::new_leaf(2, [1, 1, 0]);
    tree.insert_leaf(0, leaf1.aabc.origin).unwrap();
    tree.insert_leaf(0, leaf2.aabc.origin).unwrap();
    tree.insert_leaf(0, leaf3.aabc.origin).unwrap();
    let expected_count = 3;
    assert_eq!(expected_count, tree.count_leaves());
}

#[test]
fn count_insert_remove() {
    let mut tree = Octree::new();
    let leaf1 = Node::new_leaf(0, [0, 0, 0]);
    let leaf2 = Node::new_leaf(1, [1, 0, 0]);
    tree.insert_leaf(0, leaf1.aabc.origin).unwrap();
    tree.insert_leaf(0, leaf2.aabc.origin).unwrap();
    tree.remove_leaf(leaf2.aabc.origin).unwrap();
    let expected_count = 1;
    assert_eq!(expected_count, tree.count_leaves());
}

#[test]
fn serialize_empty_tree() {
    let tree: Octree<bool> = Octree::new();
    let expected = vec![0];
    assert_eq!(expected, tree.serialize().unwrap());
}

#[test]
fn serialize_size_2_tree() {
    let mut tree: Octree<i32> = Octree::new();
    tree.insert_leaf(1, [0, 0, 0]).unwrap();
    tree.insert_leaf(2, [1, 1, 1]).unwrap();

    let expected = vec![2, 0, 0, 0, 2, 0, 0, 0, 0, 0, 1, 0];
    assert_eq!(expected, tree.serialize().unwrap());
}

#[test]
fn serialize_size_2_tree_b() {
    let mut tree: Octree<i32> = Octree::new();
    tree.insert_leaf(1, [0, 0, -5]).unwrap();
    tree.insert_leaf(2, [1, 0, -5]).unwrap();

    let expected = vec![2, 0, 0, -5, 0, 0, 0, 0, 0, 2, 1, 0];
    assert_eq!(expected, tree.serialize().unwrap());
}

#[test]
fn serialize_size_4_tree() {
    let mut tree: Octree<i32> = Octree::new();
    tree.insert_leaf(1, [0, 0, 0]).unwrap();
    tree.insert_leaf(2, [1, 1, 1]).unwrap();
    tree.insert_leaf(3, [-1, -1, -1]).unwrap();

    let expected = vec![
        4, // root size
        -2, -2, -2, // xyz
        12, 0, 0, 0, 0, 0, 20, 0, // size 4's children indices
        2, 0, 0, 0, 0, 0, 1, 0, // size 2's children leaf block type
        3, 0, 0, 0, 0, 0, 0, 0, // size 2's children leaf block type
    ];
    assert_eq!(expected, tree.serialize().unwrap());
}

#[test]
fn serialize_size_8_tree() {
    let mut tree: Octree<i32> = Octree::new();
    tree.insert_leaf(1, [0, 0, 0]).unwrap();
    tree.insert_leaf(2, [1, 1, 1]).unwrap();
    tree.insert_leaf(3, [2, 2, 2]).unwrap();
    tree.insert_leaf(4, [4, 4, 4]).unwrap();

    let expected = vec![
        8, // root size
        0, 0, 0, // xyz
        12, 0, 0, 0, 0, 0, 28, 0, // size 8's children indices
        0, 0, 0, 0, 0, 0, 20, 0, // size 4's children indices
        0, 0, 0, 0, 0, 0, 4, 0, // size 2's children leaf block type
        36, 0, 0, 0, 0, 0, 44, 0, // size 4's children indices
        0, 0, 0, 0, 0, 0, 3, 0, // size 2's children leaf block type
        2, 0, 0, 0, 0, 0, 1, 0, // size 2's children leaf block type
    ];
    assert_eq!(expected, tree.serialize().unwrap());
}

#[test]
fn get_size_serialize_empty_tree() {
    let tree: Octree<bool> = Octree::new();
    assert_eq!(1, tree.get_serialized_size().unwrap());
}

#[test]
fn get_size_serialize_size_2_tree() {
    let mut tree: Octree<i32> = Octree::new();
    tree.insert_leaf(1, [0, 0, 0]).unwrap();
    tree.insert_leaf(2, [1, 1, 1]).unwrap();
    assert_eq!(12, tree.get_serialized_size().unwrap());
}

#[test]
fn get_size_serialize_size_4_tree() {
    let mut tree: Octree<i32> = Octree::new();
    tree.insert_leaf(1, [0, 0, 0]).unwrap();
    tree.insert_leaf(2, [1, 1, 1]).unwrap();
    tree.insert_leaf(3, [-1, -1, -1]).unwrap();
    assert_eq!(28, tree.get_serialized_size().unwrap());
}

#[test]
fn get_size_serialize_size_8_tree() {
    let mut tree: Octree<i32> = Octree::new();
    tree.insert_leaf(1, [0, 0, 0]).unwrap();
    tree.insert_leaf(2, [1, 1, 1]).unwrap();
    tree.insert_leaf(3, [2, 2, 2]).unwrap();
    tree.insert_leaf(4, [4, 4, 4]).unwrap();
    assert_eq!(52, tree.get_serialized_size().unwrap());
}

#[test]
fn insert_pattern_shouldnt_panic() {
    let mut tree = Octree::new();
    tree.insert_leaf(12, [0, 0, -5]).unwrap();
    tree.insert_leaf(13, [1, 1, -4]).unwrap();
    tree.insert_leaf(14, [2, 2, -3]).unwrap();
    tree.insert_leaf(15, [3, 3, -2]).unwrap();
}

// What a reader of the flat buffer finds at a position of the root cube: it
// steps into the octant of the position, follows nonzero offsets, and takes the
// cell of a block of edge 2 as the value.
fn read_back(buf: &[i32], pos: [i32; 3]) -> i32 {
    const SLOT: [usize; 8] = [6, 5, 2, 1, 7, 4, 3, 0];
    let mut size = buf[0] as i64;
    let mut origin = [buf[1] as i64, buf[2] as i64, buf[3] as i64];
    let mut base = 4usize;
    loop {
        let half = size / 2;
        let mut flags = 0;
        for axis in 0..3 {
            if pos[axis] as i64 >= origin[axis] + half {
                flags |= 1 << axis;
                origin[axis] += half;
            }
        }
        let cell = buf[base + SLOT[flags]];
        if size == 2 || cell == 0 {
            return cell;
        }
        base = cell as usize;
        size = half;
    }
}

fn in_cube(aabc: Aabc, pos: [i32; 3]) -> bool {
    aabc.contains(pos)
}

#[test]
fn duplicate_insert_is_refused_and_changes_nothing() {
    let mut tree = Octree::new();
    tree.insert_leaf(0, [0, 0, 0]).unwrap();
    assert_eq!(
        Err(OctreeError::DuplicatePosition),
        tree.insert_leaf(0, [0, 0, 0])
    );
    assert_eq!(1, tree.count_leaves());
    assert_eq!(*tree.root(), Some(Node::new_leaf(0, [0, 0, 0])));
}

#[test]
fn duplicate_insert_below_a_grown_root_is_refused() {
    let mut tree = Octree::new();
    tree.insert_leaf(0, [0, 0, 0]).unwrap();
    tree.insert_leaf(0, [2, 2, 2]).unwrap();
    let before = tree.serialize().unwrap();
    assert_eq!(
        Err(OctreeError::DuplicatePosition),
        tree.insert_leaf(7, [0, 0, 0])
    );
    assert_eq!(
        Err(OctreeError::DuplicatePosition),
        tree.insert_leaf(7, [2, 2, 2])
    );
    assert_eq!(2, tree.count_leaves());
    assert_eq!(before, tree.serialize().unwrap());
}

#[test]
fn remove_from_empty_tree_is_refused() {
    let mut tree: Octree<i32> = Octree::new();
    assert_eq!(Err(OctreeError::EmptyTree), tree.remove_leaf([0, 0, 0]));
    assert_eq!(0, tree.count_leaves());
    assert!(tree.root().is_none());
}

#[test]
fn remove_of_absent_leaf_is_refused_and_changes_nothing() {
    let mut tree = Octree::new();
    tree.insert_leaf(0, [0, 0, 0]).unwrap();
    tree.insert_leaf(0, [1, 0, 0]).unwrap();
    let before = tree.serialize().unwrap();
    // in the root cube, in an empty slot
    assert_eq!(Err(OctreeError::NotFound), tree.remove_leaf([1, 1, 1]));
    // outside the root cube
    assert_eq!(Err(OctreeError::NotFound), tree.remove_leaf([5, 0, 0]));
    assert_eq!(2, tree.count_leaves());
    assert_eq!(before, tree.serialize().unwrap());
}

#[test]
fn remove_of_absent_leaf_from_single_leaf_tree_is_refused() {
    let mut tree = Octree::new();
    tree.insert_leaf(3, [4, 4, 4]).unwrap();
    assert_eq!(Err(OctreeError::NotFound), tree.remove_leaf([4, 4, 5]));
    assert_eq!(*tree.root(), Some(Node::new_leaf(3, [4, 4, 4])));
}

#[test]
fn remove_of_absent_leaf_below_missing_branch_is_refused() {
    let mut tree = Octree::new();
    tree.insert_leaf(1, [0, 0, 0]).unwrap();
    tree.insert_leaf(2, [7, 7, 7]).unwrap();
    let before = tree.serialize().unwrap();
    assert_eq!(Err(OctreeError::NotFound), tree.remove_leaf([0, 7, 0]));
    assert_eq!(Err(OctreeError::NotFound), tree.remove_leaf([7, 7, 6]));
    assert_eq!(before, tree.serialize().unwrap());
}

#[test]
fn serialize_single_leaf_tree_is_refused() {
    let mut tree = Octree::new();
    tree.insert_leaf(9, [1, 2, 3]).unwrap();
    assert_eq!(Err(OctreeError::SingleLeaf), tree.serialize());
    assert_eq!(Some(4), tree.get_serialized_size());
}

#[test]
fn insert_beyond_the_grid_is_refused_and_changes_nothing() {
    let mut tree = Octree::new();
    tree.insert_leaf(1, [i32::MAX, 0, 0]).unwrap();
    // the root would have to double upwards on the first axis
    assert_eq!(
        Err(OctreeError::OutOfRange),
        tree.insert_leaf(2, [i32::MAX, 1, 0])
    );
    assert_eq!(1, tree.count_leaves());
    assert_eq!(*tree.root(), Some(Node::new_leaf(1, [i32::MAX, 0, 0])));

    let mut wide = Octree::new();
    wide.insert_leaf(1, [0, 0, 0]).unwrap();
    wide.insert_leaf(2, [1 << 29, 0, 0]).unwrap();
    assert_eq!(1 << 30, wide.root().as_ref().unwrap().aabc.size);
    let before = wide.serialize().unwrap();
    // an edge of 2^31 does not fit a signed cell
    assert_eq!(
        Err(OctreeError::OutOfRange),
        wide.insert_leaf(3, [-1, 0, 0])
    );
    assert_eq!(2, wide.count_leaves());
    assert_eq!(before, wide.serialize().unwrap());
}

#[test]
fn insert_at_the_corners_of_the_grid() {
    let mut tree = Octree::new();
    tree.insert_leaf(1, [i32::MIN, i32::MIN, i32::MIN]).unwrap();
    tree.insert_leaf(2, [i32::MIN + 1, i32::MIN, i32::MIN])
        .unwrap();
    assert_eq!(
        vec![2, i32::MIN, i32::MIN, i32::MIN, 0, 0, 0, 0, 0, 2, 1, 0],
        tree.serialize().unwrap()
    );
    let mut top = Octree::new();
    top.insert_leaf(1, [i32::MAX, i32::MAX, i32::MAX]).unwrap();
    top.insert_leaf(2, [i32::MAX - 1, i32::MAX - 1, i32::MAX - 1])
        .unwrap();
    assert_eq!(
        vec![
            2,
            i32::MAX - 1,
            i32::MAX - 1,
            i32::MAX - 1,
            1,
            0,
            0,
            0,
            0,
            0,
            2,
            0
        ],
        top.serialize().unwrap()
    );
}

#[test]
fn root_grows_by_doubling_towards_the_leaf() {
    let mut tree = Octree::new();
    tree.insert_leaf(1, [2, 0, 0]).unwrap();
    tree.insert_leaf(2, [0, 0, 0]).unwrap();
    assert_eq!(
        Aabc {
            origin: [-1, 0, 0],
            size: 4
        },
        tree.root().as_ref().unwrap().aabc
    );
    let mut other = Octree::new();
    other.insert_leaf(2, [0, 0, 0]).unwrap();
    other.insert_leaf(1, [2, 0, 0]).unwrap();
    assert_eq!(
        Aabc {
            origin: [0, 0, 0],
            size: 4
        },
        other.root().as_ref().unwrap().aabc
    );
}

#[test]
fn two_leaves_in_a_cube_of_edge_two() {
    let mut tree: Octree<i32> = Octree::new();
    tree.insert_leaf(1, [0, 0, 0]).unwrap();
    tree.insert_leaf(2, [1, 1, 1]).unwrap();
    assert_eq!(
        Aabc {
            origin: [0, 0, 0],
            size: 2
        },
        tree.root().as_ref().unwrap().aabc
    );
    assert_eq!(2, tree.count_leaves());
    let buf = tree.serialize().unwrap();
    assert_eq!(12, buf.len());
    assert_eq!([2, 0, 0, 0], buf[0..4]);
    assert_eq!(2, buf[4..].iter().filter(|c| **c != 0).count());
    assert_eq!(1, buf[4 + 6]);
    assert_eq!(2, buf[4 + 0]);
}

#[test]
fn removal_leaves_no_empty_chain() {
    let mut tree: Octree<i32> = Octree::new();
    tree.insert_leaf(1, [0, 0, 0]).unwrap();
    tree.insert_leaf(2, [1, 1, 1]).unwrap();
    tree.insert_leaf(3, [2, 2, 2]).unwrap();
    tree.remove_leaf([0, 0, 0]).unwrap();
    assert_eq!(2, tree.count_leaves());
    let expected_root = Box::new(Node {
        data: NodeData::Children([
            Some(Box::new(Node {
                data: NodeData::Children([
                    None,
                    None,
                    None,
                    None,
                    None,
                    None,
                    Some(Node::new_leaf(3, [2, 2, 2])),
                    None,
                ]),
                aabc: Aabc {
                    origin: [2, 2, 2],
                    size: 2,
                },
            })),
            None,
            None,
            None,
            None,
            None,
            Some(Box::new(Node {
                data: NodeData::Children([
                    Some(Node::new_leaf(2, [1, 1, 1])),
                    None,
                    None,
                    None,
                    None,
                    None,
                    None,
                    None,
                ]),
                aabc: Aabc {
                    origin: [0, 0, 0],
                    size: 2,
                },
            })),
            None,
        ]),
        aabc: Aabc {
            origin: [0, 0, 0],
            size: 4,
        },
    });
    assert_eq!(*tree.root(), Some(expected_root));
    let buf = tree.serialize().unwrap();
    assert_eq!(2, read_back(&buf, [1, 1, 1]));
    assert_eq!(3, read_back(&buf, [2, 2, 2]));
    assert_eq!(0, read_back(&buf, [0, 0, 0]));
}

#[test]
fn removal_steps_the_root_down_through_single_children() {
    let mut tree: Octree<i32> = Octree::new();
    tree.insert_leaf(1, [0, 0, 0]).unwrap();
    tree.insert_leaf(2, [1, 0, 0]).unwrap();
    tree.insert_leaf(3, [100, 100, 100]).unwrap();
    assert_eq!(128, tree.root().as_ref().unwrap().aabc.size);
    tree.remove_leaf([100, 100, 100]).unwrap();
    assert_eq!(
        Aabc {
            origin: [0, 0, 0],
            size: 2
        },
        tree.root().as_ref().unwrap().aabc
    );
    assert_eq!(
        vec![2, 0, 0, 0, 0, 0, 0, 0, 0, 2, 1, 0],
        tree.serialize().unwrap()
    );
    tree.remove_leaf([0, 0, 0]).unwrap();
    assert_eq!(*tree.root(), Some(Node::new_leaf(2, [1, 0, 0])));
    tree.remove_leaf([1, 0, 0]).unwrap();
    assert!(tree.root().is_none());
    assert_eq!(0, tree.count_leaves());
}

#[test]
fn insert_then_remove_restores_the_empty_tree() {
    for pos in [[0, 0, 0], [-7, 3, 100], [i32::MAX, i32::MIN, 0]] {
        let mut tree: Octree<i32> = Octree::new();
        tree.insert_leaf(5, pos).unwrap();
        tree.remove_leaf(pos).unwrap();
        assert!(tree.root().is_none());
        assert_eq!(0, tree.count_leaves());
        assert_eq!(vec![0], tree.serialize().unwrap());
    }
}

#[test]
fn count_is_inserts_less_removals() {
    let mut tree: Octree<i32> = Octree::new();
    let mut inserted = 0;
    for x in -3..4 {
        for y in 0..3 {
            tree.insert_leaf(x * 10 + y, [x, y, x * y]).unwrap();
            inserted += 1;
            assert_eq!(inserted, tree.count_leaves());
        }
    }
    let mut removed = 0;
    for x in -3..4 {
        tree.remove_leaf([x, 1, x]).unwrap();
        removed += 1;
        assert_eq!(inserted - removed, tree.count_leaves());
    }
    assert_eq!(14, tree.count_leaves());
}

#[test]
fn serialized_buffer_reads_back_every_leaf() {
    let mut tree: Octree<i32> = Octree::new();
    let mut held = Vec::new();
    let mut seed: u32 = 12345;
    for _ in 0..60 {
        let mut pos = [0i32; 3];
        for axis in 0..3 {
            seed = seed.wrapping_mul(1103515245).wrapping_add(12345);
            pos[axis] = ((seed >> 16) % 23) as i32 - 11;
        }
        let value = 1 + held.len() as i32;
        if tree.insert_leaf(value, pos).is_ok() {
            held.push((pos, value));
        }
    }
    for k in 0..held.len() / 3 {
        let (pos, _) = held.remove(k);
        tree.remove_leaf(pos).unwrap();
    }
    assert_eq!(held.len() as u32, tree.count_leaves());
    let buf = tree.serialize().unwrap();
    assert_eq!(Some(buf.len()), tree.get_serialized_size());
    let root = tree.root().as_ref().unwrap().aabc;
    assert_eq!(root.size as i32, buf[0]);
    assert_eq!(root.origin, buf[1..4]);
    for x in -12..13 {
        for y in -12..13 {
            for z in -12..13 {
                if in_cube(root, [x, y, z]) {
                    let expected = held
                        .iter()
                        .find(|(pos, _)| *pos == [x, y, z])
                        .map(|(_, value)| *value)
                        .unwrap_or(0);
                    assert_eq!(expected, read_back(&buf, [x, y, z]));
                }
            }
        }
    }
}

#[test]
fn tree_of_flags_serializes_ones() {
    let mut tree: Octree<bool> = Octree::new();
    tree.insert_leaf(true, [0, 0, 0]).unwrap();
    tree.insert_leaf(false, [1, 0, 0]).unwrap();
    tree.insert_leaf(true, [0, 1, 0]).unwrap();
    assert_eq!(
        vec![2, 0, 0, 0, 0, 0, 1, 0, 0, 0, 1, 0],
        tree.serialize().unwrap()
    );
}

#[test]
fn clone_copies_the_whole_node() {
    let mut tree: Octree<i32> = Octree::new();
    tree.insert_leaf(1, [0, 0, 0]).unwrap();
    tree.insert_leaf(2, [5, 5, 5]).unwrap();
    tree.insert_leaf(3, [-5, 5, 0]).unwrap();
    let copy = tree.root().clone();
    assert_eq!(copy, *tree.root());
}

#[test]
fn count_children_names_the_only_child() {
    let mut node: Box<Node<i32>> = Node::empty([0, 0, 0], 2);
    assert_eq!((0, None), node.count_children());
    node.add_child(Node::new_leaf(1, [1, 0, 1]));
    assert_eq!((1, Some(4)), node.count_children());
    node.add_child(Node::new_leaf(1, [0, 0, 0]));
    assert_eq!((2, None), node.count_children());
    assert_eq!((0, None), Node::new_leaf(1, [0, 0, 0]).count_children());
}

#[test]
fn get_octant_idx_follows_the_table() {
    let node: Box<Node<i32>> = Node::empty([-4, -4, -4], 8);
    let unit = |origin: [i32; 3]| Aabc { origin, size: 1 };
    assert_eq!(6, node.get_octant_idx(unit([-4, -1, -3])));
    assert_eq!(5, node.get_octant_idx(unit([0, -1, -3])));
    assert_eq!(2, node.get_octant_idx(unit([-1, 3, -1])));
    assert_eq!(1, node.get_octant_idx(unit([3, 0, -4])));
    assert_eq!(7, node.get_octant_idx(unit([-2, -2, 2])));
    assert_eq!(4, node.get_octant_idx(unit([1, -4, 1])));
    assert_eq!(3, node.get_octant_idx(unit([-3, 1, 3])));
    assert_eq!(0, node.get_octant_idx(unit([3, 3, 3])));
}
