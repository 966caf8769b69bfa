use voxel_octree::aabc::Aabc;

#[test]
fn contains_point_edge_cases() {
    let aabc = Aabc {
        origin: [0, 0, 0],
        size: 1,
    };
    assert!(aabc.contains([0, 0, 0])); // inclusive
    assert!(!aabc.contains([1, 0, 0])); // exclusive
}

#[test]
fn contains_point_inside_large() {
    let aabc = Aabc {
        origin: [0, 0, 0],
        size: 16,
    };
    assert!(aabc.contains([3, 4, 5]));
}

#[test]
fn contains_point_outside_large() {
    let aabc = Aabc {
        origin: [0, 0, 0],
        size: 16,
    };
    assert!(!aabc.contains([-3, -4, -5]));
}

#[test]
fn contains_point_offset_origin() {
    let aabc = Aabc {
        origin: [8, 8, 8],
        size: 8,
    };
    assert!(aabc.contains([9, 9, 9]));
}

#[test]
fn expand_towards_valid() {
    let aabc = Aabc {
        origin: [2, 2, 2],
        size: 2,
    };
    let expect = Aabc {
        origin: [0, 0, 0],
        size: 4,
    };
    let result = aabc.expand_towards([0, 0, 0]);
    assert_eq!(expect, result)
}

#[test]
fn shrink_towards_min_inclusive() {
    let aabc = Aabc {
        origin: [0, 0, 0],
        size: 4,
    };
    let expect = Aabc {
        origin: [2, 2, 2],
        size: 2,
    };
    let result = aabc.shrink_towards([2, 2, 2]);
    assert_eq!(expect, result)
}

#[test]
fn shrink_towards_max_exclusive() {
    let aabc = Aabc {
        origin: [0, 0, 0],
        size: 4,
    };
    let expect = Aabc {
        origin: [0, 0, 0],
        size: 2,
    };
    let result = aabc.shrink_towards([1, 1, 1]);
    assert_eq!(expect, result)
}

#[test]
fn contains_aabc_self() {
    let aabc = Aabc {
        origin: [0, 0, 0],
        size: 4,
    };
    assert!(aabc.contains_aabc(aabc))
}

#[test]
fn does_not_contain_aabc() {
    let aabc = Aabc {
        origin: [0, 0, 0],
        size: 4,
    };
    let target = Aabc {
        origin: [2, 2, 2],
        size: 4,
    };
    assert!(!aabc.contains_aabc(target))
}

#[test]
fn contains_aabc_enclosed() {
    let aabc = Aabc {
        origin: [0, 0, 0],
        size: 4,
    };
    let target = Aabc {
        origin: [1, 1, 1],
        size: 2,
    };
    assert!(aabc.contains_aabc(target))
}

#[test]
fn contains_aabc_min() {
    let aabc = Aabc {
        origin: [0, 0, 0],
        size: 4,
    };
    let target = Aabc {
        origin: [0, 0, 0],
        size: 2,
    };
    assert!(aabc.contains_aabc(target))
}

#[test]
fn contains_aabc_max() {
    let aabc = Aabc {
        origin: [0, 0, 0],
        size: 4,
    };
    let target = Aabc {
        origin: [2, 2, 2],
        size: 2,
    };
    assert!(aabc.contains_aabc(target))
}

#[test]
fn contains_is_the_half_open_box_on_every_axis() {
    let aabc = Aabc {
        origin: [-2, 3, 10],
        size: 4,
    };
    for x in -4..5 {
        for y in 0..10 {
            for z in 7..17 {
                let inside = (-2..2).contains(&x) && (3..7).contains(&y) && (10..14).contains(&z);
                assert_eq!(inside, aabc.contains([x, y, z]));
            }
        }
    }
}

#[test]
fn contains_at_the_top_of_the_grid() {
    let aabc = Aabc {
        origin: [i32::MAX, i32::MAX, i32::MAX],
        size: 1,
    };
    assert!(aabc.contains([i32::MAX, i32::MAX, i32::MAX]));
    assert!(!aabc.contains([i32::MAX - 1, i32::MAX, i32::MAX]));
    let wide = Aabc {
        origin: [i32::MIN, i32::MIN, i32::MIN],
        size: u32::MAX,
    };
    assert!(wide.contains([i32::MAX - 1, 0, i32::MIN]));
    assert!(!wide.contains([i32::MAX, 0, 0]));
    assert!(wide.contains_aabc(aabc) == false);
}

#[test]
fn expand_towards_moves_only_the_axes_below() {
    let aabc = Aabc {
        origin: [4, 4, 4],
        size: 4,
    };
    assert_eq!(
        Aabc {
            origin: [0, 4, 4],
            size: 8
        },
        aabc.expand_towards([3, 4, 100])
    );
    assert_eq!(
        Aabc {
            origin: [4, 0, 0],
            size: 8
        },
        aabc.expand_towards([8, -50, 3])
    );
}

#[test]
fn expand_towards_keeps_the_cube_as_an_octant() {
    let aabc = Aabc {
        origin: [-6, 2, 0],
        size: 2,
    };
    let targets = [[-7, 2, 0], [0, 0, 0], [-6, 2, 2], [9, -9, 1]];
    for t in targets {
        let grown = aabc.expand_towards(t);
        assert_eq!(4, grown.size);
        assert!(grown.contains_aabc(aabc));
        assert_eq!(aabc, grown.shrink_towards(aabc.origin));
        assert_eq!(aabc, grown.shrink_towards([-5, 3, 1]));
    }
    // one step reaches a target next to the cube, and not one far away
    assert!(aabc.expand_towards([-7, 2, 0]).contains([-7, 2, 0]));
    assert!(!aabc.expand_towards([9, -9, 1]).contains([9, -9, 1]));
}

#[test]
fn shrink_towards_halves_and_holds_the_target() {
    let aabc = Aabc {
        origin: [-8, 0, 8],
        size: 8,
    };
    for x in -8..0 {
        for y in 0..8 {
            for z in 8..16 {
                let half = aabc.shrink_towards([x, y, z]);
                assert_eq!(4, half.size);
                assert!(half.contains([x, y, z]));
                assert!(aabc.contains_aabc(half));
            }
        }
    }
    assert_eq!(
        Aabc {
            origin: [-4, 0, 12],
            size: 4
        },
        aabc.shrink_towards([-1, 3, 12])
    );
}

#[test]
fn shrink_towards_of_a_unit_cube_is_empty() {
    let aabc = Aabc {
        origin: [5, 5, 5],
        size: 1,
    };
    let half = aabc.shrink_towards([5, 5, 5]);
    assert_eq!(0, half.size);
    assert!(!half.contains([5, 5, 5]));
}
