use voxel_octree::contents::OctreeError;
use voxel_octree::graphics::{
    cube_map_layout, place_block, reshape_cube_maps, scatter_blocks, ColorType, CubeMapLayout,
    GraphicsCreationError,
};
use voxel_octree::octree::{Node, NodeData, Octree};

#[test]
fn layout_of_one_cube_map() {
    assert_eq!(
        Ok(CubeMapLayout {
            image_bytes: 6 * 16 * 16 * 4,
            face_size: 16,
            array_layers: 6,
            n_cubemaps: 1,
        }),
        cube_map_layout(ColorType::Rgba, 96, 16)
    );
}

#[test]
fn layout_of_three_cube_maps() {
    assert_eq!(
        Ok(CubeMapLayout {
            image_bytes: 12 * 6 * 4,
            face_size: 2,
            array_layers: 18,
            n_cubemaps: 3,
        }),
        cube_map_layout(ColorType::Rgba, 12, 6)
    );
}

#[test]
fn layout_of_an_image_with_spare_pixels() {
    assert_eq!(
        Ok(CubeMapLayout {
            image_bytes: 13 * 5 * 4,
            face_size: 2,
            array_layers: 13,
            n_cubemaps: 2,
        }),
        cube_map_layout(ColorType::Rgba, 13, 5)
    );
}

#[test]
fn layout_needs_four_channels() {
    for color in [
        ColorType::Grayscale,
        ColorType::Rgb,
        ColorType::Indexed,
        ColorType::GrayscaleAlpha,
    ] {
        assert_eq!(
            Err(GraphicsCreationError::CubeMapImageNotRGBA),
            cube_map_layout(color, 96, 16)
        );
        assert_eq!(
            Err(GraphicsCreationError::CubeMapImageNotRGBA),
            cube_map_layout(color, 0, 0)
        );
    }
}

// An image of the given measures whose pixel at column x and row y holds
// [x, y, x + y, 255].
fn image(width: u32, height: u32) -> Vec<u8> {
    let mut data = Vec::new();
    for y in 0..height {
        for x in 0..width {
            data.extend_from_slice(&[x as u8, y as u8, (x + y) as u8, 255]);
        }
    }
    data
}

#[test]
fn reshape_of_faces_of_one_pixel() {
    let data = image(6, 2);
    let mut expected = Vec::new();
    for y in 0..2 {
        for x in 0..6 {
            expected.extend_from_slice(&[x as u8, y as u8, (x + y) as u8, 255]);
        }
    }
    assert_eq!(expected, reshape_cube_maps(&data, 1, 2));
}

#[test]
fn reshape_puts_the_rows_of_a_face_together() {
    let face = 3;
    let maps = 2;
    let data = image(6 * face, maps * face);
    let reshaped = reshape_cube_maps(&data, face, maps);
    assert_eq!(data.len(), reshaped.len());
    let mut at = 0;
    for l in 0..maps {
        for i in 0..6 {
            for j in 0..face {
                for k in 0..face {
                    let (x, y) = (i * face + k, l * face + j);
                    assert_eq!(
                        [x as u8, y as u8, (x + y) as u8, 255],
                        reshaped[at..at + 4]
                    );
                    at += 4;
                }
            }
        }
    }
}

#[test]
fn reshape_of_exact_bytes() {
    let data: Vec<u8> = (0..96).collect();
    // two pixels by two pixels per face, one cube map: face 0 holds the first
    // two pixels of both rows
    let reshaped = reshape_cube_maps(&data, 2, 1);
    assert_eq!(
        vec![0, 1, 2, 3, 4, 5, 6, 7, 48, 49, 50, 51, 52, 53, 54, 55],
        reshaped[0..16].to_vec()
    );
    assert_eq!(
        vec![8, 9, 10, 11, 12, 13, 14, 15, 56, 57, 58, 59, 60, 61, 62, 63],
        reshaped[16..32].to_vec()
    );
    assert_eq!(96, reshaped.len());
}

#[test]
fn reshape_of_nothing() {
    assert!(reshape_cube_maps(&[], 0, 0).is_empty());
    assert!(reshape_cube_maps(&[1, 2, 3], 0, 7).is_empty());
    assert!(reshape_cube_maps(&[1, 2, 3], 5, 0).is_empty());
}

#[test]
fn place_block_follows_the_draw() {
    let mut tree: Octree<i32> = Octree::new();
    for drawn in [1, 2, 11, -1, i32::MAX] {
        assert_eq!(Ok(false), place_block(&mut tree, drawn, 5, [1, 2, 3]));
        assert_eq!(0, tree.count_leaves());
    }
    assert_eq!(Ok(true), place_block(&mut tree, 0, 5, [1, 2, 3]));
    assert_eq!(*tree.root(), Some(Node::new_leaf(5, [1, 2, 3])));
    assert_eq!(
        Err(OctreeError::DuplicatePosition),
        place_block(&mut tree, 0, 6, [1, 2, 3])
    );
    assert_eq!(Ok(false), place_block(&mut tree, 3, 6, [1, 2, 3]));
    assert_eq!(*tree.root(), Some(Node::new_leaf(5, [1, 2, 3])));
}

#[test]
fn scatter_with_odds_of_one_fills_the_box() {
    let mut tree: Octree<i32> = Octree::new();
    assert_eq!(Ok(()), scatter_blocks(&mut tree, -2, 2, 1, 5));
    assert_eq!(64, tree.count_leaves());
    let root = tree.root().as_ref().unwrap().aabc;
    assert_eq!(4, root.size);
    assert_eq!([-2, -2, -2], root.origin);
    let buf = tree.serialize().unwrap();
    assert_eq!(4 + 8 + 8 * 8, buf.len());
    assert!(buf[12..].iter().all(|cell| *cell == 5));
    // a second pass finds every position taken
    assert_eq!(
        Err(OctreeError::DuplicatePosition),
        scatter_blocks(&mut tree, -2, 2, 1, 5)
    );
    assert_eq!(64, tree.count_leaves());
}

#[test]
fn scatter_keeps_to_the_box_and_the_value() {
    let mut tree: Octree<i32> = Octree::new();
    tree.insert_leaf(9, [40, 40, 40]).unwrap();
    assert_eq!(Ok(()), scatter_blocks(&mut tree, -6, 6, 3, 5));
    let count = tree.count_leaves();
    assert!(count >= 1 && count <= 1 + 12 * 12 * 12);
    // about a third of the positions are taken
    assert!(count > 300 && count < 900);
    let mut found = 0;
    let mut nodes = vec![tree.root().as_ref().unwrap()];
    while let Some(node) = nodes.pop() {
        match &node.data {
            NodeData::Value(value) => {
                found += 1;
                if node.aabc.origin == [40, 40, 40] {
                    assert_eq!(9, *value);
                } else {
                    assert_eq!(5, *value);
                    assert!(node.aabc.origin.iter().all(|c| (-6..6).contains(c)));
                }
            }
            NodeData::Children(children) => {
                nodes.extend(children.iter().flatten());
            }
        }
    }
    assert_eq!(count, found);
}

#[test]
fn scatter_over_an_empty_box_changes_nothing() {
    let mut tree: Octree<i32> = Octree::new();
    assert_eq!(Ok(()), scatter_blocks(&mut tree, 3, 3, 1, 5));
    assert_eq!(Ok(()), scatter_blocks(&mut tree, 3, -3, 1, 5));
    assert!(tree.root().is_none());
}

#[test]
fn scatter_stops_at_the_first_position_that_is_taken() {
    let mut tree: Octree<i32> = Octree::new();
    tree.insert_leaf(9, [0, 1, 0]).unwrap();
    assert_eq!(
        Err(OctreeError::DuplicatePosition),
        scatter_blocks(&mut tree, 0, 2, 1, 5)
    );
    // the positions before (0, 1, 0) were filled, and none after it
    assert_eq!(3, tree.count_leaves());
    let buf = tree.serialize().unwrap();
    assert_eq!(vec![2, 0, 0, 0, 0, 0, 9, 0, 0, 0, 5, 5], buf);
}

#[test]
fn scatter_leaves_the_tree_as_the_insertions_leave_it() {
    let mut scattered: Octree<i32> = Octree::new();
    scattered.insert_leaf(9, [7, 7, 7]).unwrap();
    assert_eq!(Ok(()), scatter_blocks(&mut scattered, -1, 1, 1, 5));
    let mut inserted: Octree<i32> = Octree::new();
    inserted.insert_leaf(9, [7, 7, 7]).unwrap();
    for x in -1..1 {
        for y in -1..1 {
            for z in -1..1 {
                inserted.insert_leaf(5, [x, y, z]).unwrap();
            }
        }
    }
    assert_eq!(*inserted.root(), *scattered.root());
    assert_eq!(9, scattered.count_leaves());
}

#[test]
fn scatter_beyond_the_grid_is_refused() {
    let mut tree: Octree<i32> = Octree::new();
    tree.insert_leaf(9, [i32::MAX, 5, 5]).unwrap();
    assert_eq!(
        Err(OctreeError::OutOfRange),
        scatter_blocks(&mut tree, 0, 1, 1, 5)
    );
    assert_eq!(*tree.root(), Some(Node::new_leaf(9, [i32::MAX, 5, 5])));
}
