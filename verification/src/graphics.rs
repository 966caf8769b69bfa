//! What the renderer is given: the faces of the cube maps, cut out of an image
//! six faces wide with one cube map below the other, and a world of blocks
//! scattered at random.

use crate::aabc::point_of;
use crate::contents::{Contents, OctreeError};
use crate::cube::Point;
use crate::octree::Octree;
use crate::voxel::Voxel;
use rand::Rng;
use vecmath::Vector3;
use vstd::prelude::*;

verus! {

/// Why the renderer could not be set up.
#[derive(PartialEq, Eq, Debug, Clone, Copy)]
pub enum GraphicsCreationError {
    /// The cube-map image does not hold four 8-bit channels per pixel.
    CubeMapImageNotRGBA,
}

/// How an image stores a pixel.
#[derive(PartialEq, Eq, Structural, Debug, Clone, Copy)]
pub enum ColorType {
    Grayscale,
    Rgb,
    Indexed,
    GrayscaleAlpha,
    Rgba,
}

/// The measures of the cube maps in an image.
#[derive(PartialEq, Eq, Structural, Debug, Clone, Copy)]
pub struct CubeMapLayout {
    /// The bytes of the whole image: four for each pixel.
    pub image_bytes: u32,
    /// The edge of a face in pixels: a sixth of the image's width.
    pub face_size: u32,
    /// The faces that the image holds.
    pub array_layers: u32,
    /// The cube maps that the image holds, one below the other.
    pub n_cubemaps: u32,
}

/// The byte at which row `j` of face `i` of cube map `l` starts in an image
/// that is six faces of edge `f` wide.
pub open spec fn row_start(f: int, l: int, i: int, j: int) -> int {
    (j * 6 + i + l * 6 * f) * 4 * f
}

/// The first `j` rows of face `i` of cube map `l`, top to bottom.
pub open spec fn rows_before(data: Seq<u8>, f: int, l: int, i: int, j: int) -> Seq<u8>
    decreases j,
{
    if j <= 0 {
        Seq::empty()
    } else {
        rows_before(data, f, l, i, j - 1) + data.subrange(
            row_start(f, l, i, j - 1),
            row_start(f, l, i, j - 1) + 4 * f,
        )
    }
}

/// The first `i` faces of cube map `l`, each with all its rows.
pub open spec fn faces_before(data: Seq<u8>, f: int, l: int, i: int) -> Seq<u8>
    decreases i,
{
    if i <= 0 {
        Seq::empty()
    } else {
        faces_before(data, f, l, i - 1) + rows_before(data, f, l, i - 1, f)
    }
}

/// The first `l` cube maps, each with its six faces.
pub open spec fn cube_maps_before(data: Seq<u8>, f: int, l: int) -> Seq<u8>
    decreases l,
{
    if l <= 0 {
        Seq::empty()
    } else {
        cube_maps_before(data, f, l - 1) + faces_before(data, f, l - 1, 6)
    }
}

/// Row `j` of face `i` of cube map `l` lies in an image of `n` cube maps.
proof fn lemma_row_in_image(f: int, n: int, l: int, i: int, j: int)
    requires
        0 <= l < n,
        0 <= i < 6,
        0 <= j < f,
    ensures
        0 <= l * 6 <= l * 6 * f <= 24 * f * f * n,
        0 <= j * 6 + i + l * 6 * f,
        (j * 6 + i + l * 6 * f) * 4 <= 24 * f * f * n,
        0 <= row_start(f, l, i, j),
        row_start(f, l, i, j) + 4 * f <= 24 * f * f * n,
{
    let k = j * 6 + i + l * 6 * f;
    assert(l * 6 * f <= (n - 1) * 6 * f) by (nonlinear_arith)
        requires
            l <= n - 1,
            0 <= f,
    ;
    assert(l * 6 <= l * 6 * f) by (nonlinear_arith)
        requires
            0 <= l,
            1 <= f,
    ;
    assert(6 * f + (n - 1) * 6 * f == 6 * f * n) by (nonlinear_arith);
    assert((k + 1) * (4 * f) <= (6 * f * n) * (4 * f)) by (nonlinear_arith)
        requires
            k + 1 <= 6 * f * n,
            0 <= f,
    ;
    assert((k + 1) * (4 * f) == k * 4 * f + 4 * f) by (nonlinear_arith);
    assert((6 * f * n) * (4 * f) == 24 * f * f * n) by (nonlinear_arith);
    assert(k * 4 <= k * 4 * f) by (nonlinear_arith)
        requires
            0 <= k,
            1 <= f,
    ;
}

/// The measures of the cube maps in an image of the given width and height,
/// for an image of four 8-bit channels.
pub fn cube_map_layout(color: ColorType, width: u32, height: u32) -> (r: Result<
    CubeMapLayout,
    GraphicsCreationError,
>)
    requires
        color == ColorType::Rgba ==> width >= 6 && 4 * width * height <= u32::MAX,
    ensures
        r is Err <==> color != ColorType::Rgba,
        r matches Ok(layout) ==> layout.image_bytes == 4 * width * height && layout.face_size
            == width / 6 && layout.array_layers == (36 * height) / (width as int)
            && layout.n_cubemaps == height / (width / 6),
{
    match color {
        ColorType::Rgba => {},
        _ => {
            return Err(GraphicsCreationError::CubeMapImageNotRGBA);
        },
    }
    assert(width * height * 4 == 4 * width * height && 0 <= width * height <= width * height * 4)
        by (nonlinear_arith)
        requires
            0 <= width,
            0 <= height,
    ;
    assert((36 * height) / (width as int) <= 6 * height) by (nonlinear_arith)
        requires
            6 <= width,
            0 <= height,
    ;
    assert(6 * height <= width * height) by (nonlinear_arith)
        requires
            6 <= width,
            0 <= height,
    ;
    let face_size = width / 6;
    Ok(
        CubeMapLayout {
            image_bytes: width * height * 4,
            face_size,
            array_layers: ((36 * height as u64) / width as u64) as u32,
            n_cubemaps: height / face_size,
        },
    )
}

/// The faces of the cube maps in `data`, one after the other: the six faces of
/// the first cube map, then those of the second, and so on, each face row by
/// row.
pub fn reshape_cube_maps(data: &[u8], face_size: u32, n_cubemaps: u32) -> (reshaped: Vec<u8>)
    requires
        24 * face_size * face_size * n_cubemaps <= data@.len(),
    ensures
        reshaped@ == cube_maps_before(data@, face_size as int, n_cubemaps as int),
{
    let ghost f = face_size as int;
    let ghost n = n_cubemaps as int;
    let face = face_size as usize;
    let len = data.len();
    let mut reshaped_image_data: Vec<u8> = Vec::new();
    let mut l: usize = 0;
    while l < n_cubemaps as usize
        invariant
            l <= n,
            f == face_size,
            n == n_cubemaps,
            face == f,
            24 * f * f * n <= data@.len() == len,
            reshaped_image_data@ == cube_maps_before(data@, f, l as int),
        decreases n - l,
    {
        let mut i: usize = 0;
        while i < 6
            invariant
                l < n,
                i <= 6,
                f == face_size,
                n == n_cubemaps,
                face == f,
                24 * f * f * n <= data@.len() == len,
                reshaped_image_data@ == cube_maps_before(data@, f, l as int) + faces_before(
                    data@,
                    f,
                    l as int,
                    i as int,
                ),
            decreases 6 - i,
        {
            let mut j: usize = 0;
            while j < face
                invariant
                    l < n,
                    i < 6,
                    j <= f,
                    f == face_size,
                    n == n_cubemaps,
                    face == f,
                    24 * f * f * n <= data@.len() == len,
                    reshaped_image_data@ == cube_maps_before(data@, f, l as int) + faces_before(
                        data@,
                        f,
                        l as int,
                        i as int,
                    ) + rows_before(data@, f, l as int, i as int, j as int),
                decreases f - j,
            {
                proof {
                    lemma_row_in_image(f, n, l as int, i as int, j as int);
                }
                let start = (j * 6 + i + l * 6 * face) * 4 * face;
                let end = start + face * 4;
                let ghost before = reshaped_image_data@;
                reshaped_image_data.extend_from_slice(&data[start..end]);
                assert(reshaped_image_data@ =~= before + data@.subrange(start as int, end as int));
                j += 1;
            }
            i += 1;
        }
        l += 1;
    }
    reshaped_image_data
}

/// `rand::Rng::gen_range` on the generator of the thread, `rand::thread_rng`:
/// a number drawn from `0..upper`. Which one is not known; the range must not
/// be empty.
#[verifier::external_body]
fn draw_below(upper: i32) -> (r: i32)
    requires
        upper > 0,
    ensures
        0 <= r < upper,
{
    rand::thread_rng().gen_range(0..upper)
}

/// `p` lies in the box `[low, high)` on every axis.
pub open spec fn in_box(p: Point, low: int, high: int) -> bool {
    low <= p.x < high && low <= p.y < high && low <= p.z < high
}

/// The leaves of `before` are leaves of `after` with the same values, and every
/// other leaf of `after` lies in the box and has the value `value`.
pub open spec fn scattered<T>(
    before: Map<Point, T>,
    after: Map<Point, T>,
    low: int,
    high: int,
    value: T,
) -> bool {
    &&& forall|p: Point| #[trigger]
        before.dom().contains(p) ==> after.dom().contains(p) && after[p] == before[p]
    &&& forall|p: Point| #[trigger]
        after.dom().contains(p) && !before.dom().contains(p) ==> in_box(p, low, high) && after[p]
            == value
}

/// Inserts a block of kind `value` at `pos` if the number drawn for the
/// position is 0, and returns whether it did.
pub fn place_block<T: Voxel>(tree: &mut Octree<T>, drawn: i32, value: T, pos: Vector3<i32>) -> (r:
    Result<bool, OctreeError>)
    ensures
        drawn != 0 ==> r == Ok::<bool, OctreeError>(false) && *final(tree) == *old(tree),
        drawn == 0 ==> match r {
            Ok(placed) => placed && old(tree)@.insert_fault(point_of(pos)) is None && final(tree)@
                == old(tree)@.insert(point_of(pos), value),
            Err(e) => old(tree)@.insert_fault(point_of(pos)) == Some(e) && *final(tree) == *old(
                tree,
            ),
        },
{
    if drawn == 0 {
        match tree.insert_leaf(value, pos) {
            Ok(()) => Ok(true),
            Err(e) => Err(e),
        }
    } else {
        Ok(false)
    }
}

/// `p` comes before `(i, j, k)` in the order in which positions are visited: by
/// x, then y, then z.
pub open spec fn visited_before(p: Point, i: int, j: int, k: int) -> bool {
    p.x < i || (p.x == i && (p.y < j || (p.y == j && p.z < k)))
}

/// Every position of the box that comes before `(i, j, k)` holds a leaf.
pub open spec fn filled_before<T>(
    leaves: Map<Point, T>,
    low: int,
    high: int,
    i: int,
    j: int,
    k: int,
) -> bool {
    forall|q: Point|
        in_box(q, low, high) && visited_before(q, i, j, k) ==> #[trigger] leaves.dom().contains(q)
}

/// The scattering stopped at `p`, a position of the box at which the tree, as
/// it is now, refuses a leaf for the reason `e`: every leaf that is new comes
/// before `p`, and where a block is placed at every position (odds of 1), every
/// position before `p` holds a leaf.
pub open spec fn stopped_at<T>(
    before: Map<Point, T>,
    after: Contents<T>,
    low: int,
    high: int,
    odds: int,
    p: Point,
    e: OctreeError,
) -> bool {
    &&& in_box(p, low, high)
    &&& after.insert_fault(p) == Some(e)
    &&& forall|q: Point| #[trigger]
        after.leaves.dom().contains(q) && !before.dom().contains(q) ==> visited_before(
            q,
            p.x,
            p.y,
            p.z,
        )
    &&& odds == 1 ==> filled_before(after.leaves, low, high, p.x, p.y, p.z)
}

/// The positions of `log` lie in the box, each before the next in the order in
/// which positions are visited, and all before `(i, j, k)`.
pub open spec fn placed_before(
    log: Seq<Point>,
    low: int,
    high: int,
    i: int,
    j: int,
    k: int,
) -> bool {
    &&& forall|a: int|
        0 <= a < log.len() ==> in_box(#[trigger] log[a], low, high) && visited_before(
            log[a],
            i,
            j,
            k,
        )
    &&& forall|a: int, b: int|
        0 <= a < b < log.len() ==> visited_before(
            #[trigger] log[a],
            (#[trigger] log[b]).x,
            log[b].y,
            log[b].z,
        )
}

/// Visits every position of the box `[low, high)` on every axis, by x, then y,
/// then z, draws for each a number below `odds`, and inserts a block of kind
/// `value` where it is 0. Stops at the first insertion that is refused, and
/// returns why it was. The tree is left as the insertions that were made leave
/// it, one after the other. With odds of 1 every draw is 0, so that a run that
/// is not refused fills the box.
pub fn scatter_blocks<T: Voxel>(
    tree: &mut Octree<T>,
    low: i32,
    high: i32,
    odds: i32,
    value: T,
) -> (r: Result<(), OctreeError>)
    requires
        odds > 0,
    ensures
        exists|log: Seq<Point>|
            placed_before(log, low as int, high as int, high as int, high as int, high as int)
                && #[trigger] old(tree)@.insert_all(log, value) == Some(final(tree)@),
        scattered(old(tree)@.leaves, final(tree)@.leaves, low as int, high as int, value),
        low >= high ==> r is Ok && *final(tree) == *old(tree),
        r is Ok && odds == 1 ==> forall|p: Point|
            in_box(p, low as int, high as int) ==> #[trigger] final(tree)@.leaves.dom().contains(p),
        r matches Err(e) ==> exists|p: Point|
            stopped_at(
                old(tree)@.leaves,
                final(tree)@,
                low as int,
                high as int,
                odds as int,
                p,
                e,
            ),
        r matches Err(e) ==> e == OctreeError::DuplicatePosition || e == OctreeError::OutOfRange
            || e == OctreeError::Full,
        r == Err::<(), OctreeError>(OctreeError::DuplicatePosition) ==> exists|p: Point|
            in_box(p, low as int, high as int) && old(tree)@.leaves.dom().contains(p),
{
    let ghost before = tree@.leaves;
    let ghost mut log: Seq<Point> = Seq::empty();
    let mut i = low;
    while i < high
        invariant
            odds > 0,
            low <= i,
            before == old(tree)@.leaves,
            placed_before(log, low as int, high as int, i as int, low as int, low as int),
            old(tree)@.insert_all(log, value) == Some(tree@),
            low >= high ==> *tree == *old(tree),
            scattered(before, tree@.leaves, low as int, high as int, value),
            forall|p: Point| #[trigger]
                tree@.leaves.dom().contains(p) && !before.dom().contains(p) ==> p.x < i,
            odds == 1 ==> filled_before(
                tree@.leaves,
                low as int,
                high as int,
                i as int,
                low as int,
                low as int,
            ),
        decreases high - i,
    {
        let mut j = low;
        while j < high
            invariant
                odds > 0,
                low <= i < high,
                low <= j,
                before == old(tree)@.leaves,
                placed_before(log, low as int, high as int, i as int, j as int, low as int),
                old(tree)@.insert_all(log, value) == Some(tree@),
                scattered(before, tree@.leaves, low as int, high as int, value),
                forall|p: Point| #[trigger]
                    tree@.leaves.dom().contains(p) && !before.dom().contains(p) ==> visited_before(
                        p,
                        i as int,
                        j as int,
                        low as int,
                    ),
                odds == 1 ==> filled_before(
                    tree@.leaves,
                    low as int,
                    high as int,
                    i as int,
                    j as int,
                    low as int,
                ),
            decreases high - j,
        {
            let mut k = low;
            while k < high
                invariant
                    odds > 0,
                    low <= i < high,
                    low <= j < high,
                    low <= k,
                    before == old(tree)@.leaves,
                    placed_before(log, low as int, high as int, i as int, j as int, k as int),
                    old(tree)@.insert_all(log, value) == Some(tree@),
                    scattered(before, tree@.leaves, low as int, high as int, value),
                    forall|p: Point| #[trigger]
                        tree@.leaves.dom().contains(p) && !before.dom().contains(p)
                            ==> visited_before(p, i as int, j as int, k as int),
                    odds == 1 ==> filled_before(
                        tree@.leaves,
                        low as int,
                        high as int,
                        i as int,
                        j as int,
                        k as int,
                    ),
                decreases high - k,
            {
                let place_block = draw_below(odds);
                let ghost held = tree@.leaves;
                let ghost here = point_of([i, j, k]);
                match self::place_block(tree, place_block, value, [i, j, k]) {
                    Ok(placed) => {
                        proof {
                            if placed {
                                assert(log.push(here).drop_last() =~= log);
                                log = log.push(here);
                            }
                        }
                        assert(in_box(here, low as int, high as int));
                        assert(tree@.leaves == held || tree@.leaves == held.insert(here, value));
                        assert(odds == 1 ==> tree@.leaves == held.insert(here, value));
                    },
                    Err(e) => {
                        proof {
                            assert(in_box(here, low as int, high as int));
                            assert(stopped_at(
                                before,
                                tree@,
                                low as int,
                                high as int,
                                odds as int,
                                here,
                                e,
                            ));
                            if e == OctreeError::DuplicatePosition {
                                assert(held.dom().contains(here));
                                assert(!visited_before(here, i as int, j as int, k as int));
                                assert(before.dom().contains(here));
                            }
                        }
                        return Err(e);
                    },
                }
                k += 1;
            }
            j += 1;
        }
        i += 1;
    }
    Ok(())
}

} // verus!
