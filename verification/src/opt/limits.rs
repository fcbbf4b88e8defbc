//! Plain bounds under which the meshers stay inside the machine integers.
use crate::map::{Colormap, Heightmap};
use crate::opt::pairs::HeightColor;
use crate::opt::quad::TileModel;
use crate::util::GenOptions;
use vstd::prelude::*;

verus! {

/// Bound on heights: almost as high as bricks can be placed.
pub const MAX_LEVEL: u32 = 0x7FFF_FFF0;

/// Bound on the vertical scale.
pub const MAX_SCALE: u32 = 0x1000_0000;

/// The size of a map, its heights up to `limit` and the options are far from overflowing.
pub open spec fn moderate(options: GenOptions, dims: (u32, u32), limit: u32) -> bool {
    &&& options.scale <= MAX_SCALE
    &&& limit <= MAX_LEVEL
    &&& options.scale * (limit + 2) <= MAX_LEVEL + 2
    &&& dims.0 <= i32::MAX && dims.1 <= i32::MAX
    &&& 2 * (dims.0 * options.size) <= i32::MAX
    &&& 2 * (dims.1 * options.size) <= i32::MAX
}

/// Whether size, scale and heights up to `limit` are far from overflowing.
pub fn is_moderate(options: &GenOptions, dims: (u32, u32), limit: u32) -> (b: bool)
    ensures
        b == moderate(*options, dims, limit),
{
    proof {
        assert(0 <= options.scale * (limit + 2) <= u32::MAX * (u32::MAX + 2)) by (nonlinear_arith)
            requires
                0 <= options.scale <= u32::MAX,
                0 <= limit <= u32::MAX,
        ;
        assert(0 <= dims.0 * options.size <= u32::MAX * u16::MAX) by (nonlinear_arith)
            requires
                0 <= dims.0 <= u32::MAX,
                0 <= options.size <= u16::MAX,
        ;
        assert(0 <= dims.1 * options.size <= u32::MAX * u16::MAX) by (nonlinear_arith)
            requires
                0 <= dims.1 <= u32::MAX,
                0 <= options.size <= u16::MAX,
        ;
    }
    let size: u64 = options.size as u64;
    options.scale <= MAX_SCALE && limit <= MAX_LEVEL && options.scale as u64 * (limit as u64 + 2)
        <= MAX_LEVEL as u64 + 2 && dims.0 <= i32::MAX as u32 && dims.1 <= i32::MAX as u32 && 2 * (
    dims.0 as u64 * size) <= i32::MAX as u64 && 2 * (dims.1 as u64 * size) <= i32::MAX as u64
}

/// Whether no height of the map is above `limit`.
pub fn are_heights_below<H: Heightmap + ?Sized>(heightmap: &H, limit: u32) -> (b: bool)
    ensures
        b == crate::opt::coverage::heights_below(heightmap, limit),
{
    let (width, height) = heightmap.size();
    let mut y: u32 = 0;
    while y < height
        invariant
            (width, height) == heightmap.dims(),
            y <= height,
            forall|a: int, b: int|
                0 <= a < width && 0 <= b < y ==> #[trigger] heightmap.height_at(a, b) <= limit,
        decreases height - y,
    {
        let mut x: u32 = 0;
        while x < width
            invariant
                (width, height) == heightmap.dims(),
                y < height,
                x <= width,
                forall|a: int, b: int|
                    0 <= a < width && 0 <= b < y ==> #[trigger] heightmap.height_at(a, b)
                        <= limit,
                forall|a: int|
                    0 <= a < x ==> #[trigger] heightmap.height_at(a, y as int) <= limit,
            decreases width - x,
        {
            if heightmap.at(x, y) > limit {
                assert(!(heightmap.height_at(x as int, y as int) <= limit));
                return false;
            }
            x = x + 1;
        }
        y = y + 1;
    }
    true
}

proof fn lemma_stack_fits(options: GenOptions, z: int, desired: int)
    requires
        z - 2 * (if desired > 0 {
            desired
        } else {
            0
        }) - 40 >= i32::MIN,
    ensures
        crate::opt::column::stack_fits(options, z, desired),
    decreases
            if desired > 0 {
                desired
            } else {
                0
            },
{
    if desired > 0 {
        let height = crate::opt::column::piece_height(options, desired);
        let parity = crate::opt::column::height_parity(options);
        assert(parity <= height <= desired + parity + 4);
        if desired > height {
            assert(height <= desired);
        }
        if desired - height > 0 {
            lemma_stack_fits(options, z - 2 * height, desired - height);
        } else {
            assert(crate::opt::column::stack_fits(options, z - 2 * height, desired - height));
        }
    }
}

proof fn lemma_height_fits(options: GenOptions, h: u32, min_height: u32)
    requires
        options.scale <= MAX_SCALE,
        h <= MAX_LEVEL,
        options.scale * h <= i32::MAX,
        min_height <= MAX_LEVEL,
    ensures
        crate::opt::generate::height_fits(options, h, min_height),
{
    let above = h - min_height;
    let scale = options.scale as int;
    assert(0 <= options.scale * h) by (nonlinear_arith)
        requires
            0 <= options.scale,
            0 <= h,
    ;
    if above > 0 {
        assert(0 <= above * scale <= scale * h) by (nonlinear_arith)
            requires
                0 < above <= h,
                0 <= scale,
        ;
    }
    let fill = crate::opt::generate::fill_height(options, h, min_height);
    assert(0 * scale == 0) by (nonlinear_arith);
    assert(2 * fill <= scale * h + 4 * MAX_SCALE + 4);
    lemma_stack_fits(options, scale * h, fill);
}

/// Greedy meshing of a map of moderate size and heights stays inside the machine integers, over any
/// moderate base plane and at any offset that leaves room for the map.
pub proof fn moderate_maps_mesh_greedily<H: Heightmap + ?Sized, C: Colormap + ?Sized>(
    heightmap: &H,
    colormap: &C,
    options: GenOptions,
    base: Option<u32>,
    offset: Option<(i32, i32)>,
    mask: Option<Seq<bool>>,
    limit: u32,
)
    requires
        moderate(options, heightmap.dims(), limit),
        crate::opt::coverage::heights_below(heightmap, limit),
        base matches Some(b) ==> b <= MAX_LEVEL,
        offset matches Some(o) ==> 2 * (heightmap.dims().0 * options.size) + o.0 <= i32::MAX && 2 * (
        heightmap.dims().1 * options.size) + o.1 <= i32::MAX,
    ensures
        crate::opt::generate::greedy_fits(heightmap, colormap, options, base, offset, mask),
{
    let (width, height) = heightmap.dims();
    assert(0 <= width * options.size && 0 <= height * options.size) by (nonlinear_arith)
        requires
            0 <= width,
            0 <= height,
            0 <= options.size,
    ;
    assert forall|pairs: Seq<HeightColor>, x: int, y: int|
        {
            &&& #[trigger] crate::opt::pairs::is_pair_list(
                heightmap,
                colormap,
                options.cull,
                pairs,
            )
            &&& 0 <= x < width
            &&& 0 <= y < height
            &&& #[trigger] crate::opt::planes::kept(mask, width as int, x, y)
            &&& crate::opt::pairs::counted(
                crate::opt::pairs::cell_pair(heightmap, colormap, x, y),
                options.cull,
            )
        } implies crate::opt::generate::height_fits(
        options,
        heightmap.height_at(x, y),
        crate::opt::generate::base_plane(base, pairs),
    ) by {
        let h = heightmap.height_at(x, y);
        assert(h <= limit);
        assert(options.scale * h <= options.scale * (limit + 2)) by (nonlinear_arith)
            requires
                h <= limit,
                0 <= options.scale,
        ;
        if base is None && pairs.len() > 0 {
            lemma_first_pair(heightmap, colormap, options.cull, pairs, limit);
        }
        lemma_height_fits(
            options,
            h,
            crate::opt::generate::base_plane(base, pairs),
        );
    }
}

/// The first pair of a pair list has a height of the map.
proof fn lemma_first_pair<H: Heightmap + ?Sized, C: Colormap + ?Sized>(
    heightmap: &H,
    colormap: &C,
    cull: bool,
    pairs: Seq<HeightColor>,
    limit: u32,
)
    requires
        crate::opt::pairs::is_pair_list(heightmap, colormap, cull, pairs),
        pairs.len() > 0,
        crate::opt::coverage::heights_below(heightmap, limit),
    ensures
        pairs[0].0 <= limit,
{
    assert(crate::opt::pairs::occurs(heightmap, colormap, cull, pairs[0]));
}

proof fn lemma_tile_fits(
    options: GenOptions,
    tile: TileModel,
    dims: (u32, u32),
    limit: u32,
    x: int,
    y: int,
)
    requires
        moderate(options, dims, limit),
        options.size >= 1,
        crate::opt::coverage::tile_below(tile, limit),
        crate::opt::quad::tile_in_grid(tile, dims.0 as int, dims.1 as int, x, y),
        0 <= x,
        0 <= y,
        crate::opt::coverage::side_capped(tile.size.0, options.size as int),
        crate::opt::coverage::side_capped(tile.size.1, options.size as int),
    ensures
        crate::opt::tiles::tile_fits(
            options,
            tile,
            crate::opt::tiles::centered(options, dims.0, dims.1),
        ),
{
    let h = tile.height;
    let scale = options.scale as int;
    let low = crate::opt::tiles::lowest(tile.neighbors);
    assert(low <= limit) by {
        if tile.neighbors != Set::<u32>::empty() {
            assert(exists|n: u32| tile.neighbors.contains(n)) by {
                if forall|n: u32| !tile.neighbors.contains(n) {
                    assert(tile.neighbors =~= Set::<u32>::empty());
                }
            }
            let n = choose|n: u32| tile.neighbors.contains(n);
            let _ = lemma_has_lowest(tile.neighbors, n);
            assert(crate::opt::tiles::is_lowest(tile.neighbors, low));
            assert(tile.neighbors.contains(low));
        }
    }
    assert(0 <= options.scale * h && options.scale * h + 2 * options.scale <= options.scale * (limit
        + 2)) by (nonlinear_arith)
        requires
            0 <= h <= limit,
            0 <= options.scale,
    ;
    let drop = crate::opt::tiles::drop_height(tile);
    assert(2 <= drop <= h + 2);
    assert(0 <= drop * scale <= scale * h + 2 * scale) by (nonlinear_arith)
        requires
            2 <= drop <= h + 2,
            0 <= scale,
    ;
    lemma_stack_fits(
        options,
        crate::opt::tiles::tile_z(options, tile),
        crate::opt::tiles::tile_height(options, tile),
    );
    assert(0 <= tile.size.0 * options.size && tile.size.0 * options.size <= dims.0 * options.size
        && 0 <= tile.size.1 * options.size && tile.size.1 * options.size <= dims.1 * options.size)
        by (nonlinear_arith)
        requires
            tile.size.0 <= dims.0,
            tile.size.1 <= dims.1,
            0 <= options.size,
    ;
    assert(1 * options.size == options.size) by (nonlinear_arith);
    assert(tile.size.0 <= tile.size.0 * options.size && tile.size.1 <= tile.size.1 * options.size)
        by (nonlinear_arith)
        requires
            1 <= options.size,
            0 <= tile.size.0,
            0 <= tile.size.1,
    ;
    assert(dims.0 <= dims.0 * options.size && dims.1 <= dims.1 * options.size)
        by (nonlinear_arith)
        requires
            1 <= options.size,
            0 <= dims.0,
            0 <= dims.1,
    ;
    assert((tile.center.0 * 2 + tile.size.0) * options.size <= 2 * (dims.0 * options.size) && (
    tile.center.1 * 2 + tile.size.1) * options.size <= 2 * (dims.1 * options.size))
        by (nonlinear_arith)
        requires
            tile.center.0 * 2 + tile.size.0 <= 2 * dims.0,
            tile.center.1 * 2 + tile.size.1 <= 2 * dims.1,
            0 <= options.size,
    ;
}

/// A set of numbers that has an element has a lowest one.
proof fn lemma_has_lowest(heights: Set<u32>, n: u32) -> (m: u32)
    requires
        heights.contains(n),
    ensures
        crate::opt::tiles::is_lowest(heights, m),
    decreases n,
{
    if exists|h: u32| heights.contains(h) && h < n {
        let h = choose|h: u32| heights.contains(h) && h < n;
        lemma_has_lowest(heights, h)
    } else {
        n
    }
}

/// Quadtree meshing of a map of moderate size and heights, in cells of at least one unit, stays inside
/// the machine integers.
pub proof fn moderate_maps_mesh_by_quadtree<H: Heightmap + ?Sized, C: Colormap + ?Sized>(
    heightmap: &H,
    colormap: &C,
    options: GenOptions,
    limit: u32,
)
    requires
        moderate(options, heightmap.dims(), limit),
        options.size >= 1,
        crate::opt::coverage::heights_below(heightmap, limit),
        crate::opt::quad::grid_fits(heightmap.dims()),
        heightmap.dims().0 >= 1,
        heightmap.dims().1 >= 1,
    ensures
        crate::opt::quadgen::quad_fits(heightmap, colormap, options),
{
    let (width, height) = heightmap.dims();
    let tiles = crate::opt::quadgen::merged_tiles(heightmap, colormap, options);
    crate::opt::coverage::merged_tiles_cover_the_map_once(heightmap, colormap, options, limit);
    assert(0 <= width * options.size && 0 <= height * options.size) by (nonlinear_arith)
        requires
            0 <= width,
            0 <= height,
            0 <= options.size,
    ;
    assert forall|i: int| 0 <= i < tiles.len() implies crate::opt::tiles::tile_fits(
        options,
        #[trigger] tiles[i],
        crate::opt::tiles::centered(options, width, height),
    ) by {
        crate::opt::quad::lemma_index(i, width as int, height as int);
        let (x, y) = (i / height as int, i % height as int);
        assert(crate::opt::quad::tile_in_grid(
            tiles[crate::opt::quad::cell(x, y, height as int)],
            width as int,
            height as int,
            x,
            y,
        ));
        lemma_tile_fits(options, tiles[i], (width, height), limit, x, y);
    }
}

/// Whether the cell numbers of a grid stay inside the machine integers.
pub fn is_grid_fitting(dims: (u32, u32)) -> (b: bool)
    ensures
        b == crate::opt::quad::grid_fits(dims),
{
    let (w, h) = (dims.0 as u64, dims.1 as u64);
    proof {
        assert(0 <= w * h <= 0xFFFF_FFFF * 0xFFFF_FFFF) by (nonlinear_arith)
            requires
                0 <= w <= 0xFFFF_FFFF,
                0 <= h <= 0xFFFF_FFFF,
        ;
        assert((h - 1) * h <= 0xFFFF_FFFE * 0xFFFF_FFFF) by (nonlinear_arith)
            requires
                0 <= h <= 0xFFFF_FFFF,
        ;
        assert(h >= 1 ==> 0 <= (h - 1) * h) by (nonlinear_arith)
            requires
                0 <= h,
        ;
        assert((0 - 1) * 0 == 0) by (nonlinear_arith);
    }
    let rows: u64 = if h == 0 {
        0
    } else {
        (h - 1) * h
    };
    w <= i32::MAX as u64 && h <= i32::MAX as u64 && w * h <= u32::MAX as u64 && rows + w <= i32::MAX
        as u64 + 1
}

/// The height is that of the highest cell; 0 where there are no cells.
pub open spec fn is_highest<H: Heightmap + ?Sized>(heightmap: &H, top: u32) -> bool {
    &&& crate::opt::coverage::heights_below(heightmap, top)
    &&& top == 0 || exists|x: int, y: int|
        0 <= x < heightmap.dims().0 && 0 <= y < heightmap.dims().1 && #[trigger]
            heightmap.height_at(x, y) == top
}

/// Height of the highest cell.
pub fn highest<H: Heightmap + ?Sized>(heightmap: &H) -> (top: u32)
    ensures
        is_highest(heightmap, top),
{
    let (width, height) = heightmap.size();
    let mut top: u32 = 0;
    let mut y: u32 = 0;
    while y < height
        invariant
            (width, height) == heightmap.dims(),
            y <= height,
            forall|a: int, b: int|
                0 <= a < width && 0 <= b < y ==> #[trigger] heightmap.height_at(a, b) <= top,
            top == 0 || exists|a: int, b: int|
                0 <= a < width && 0 <= b < height && #[trigger] heightmap.height_at(a, b) == top,
        decreases height - y,
    {
        let mut x: u32 = 0;
        while x < width
            invariant
                (width, height) == heightmap.dims(),
                x <= width,
                y < height,
                forall|a: int, b: int|
                    0 <= a < width && 0 <= b < y ==> #[trigger] heightmap.height_at(a, b) <= top,
                forall|a: int| 0 <= a < x ==> #[trigger] heightmap.height_at(a, y as int) <= top,
                top == 0 || exists|a: int, b: int|
                    0 <= a < width && 0 <= b < height && #[trigger] heightmap.height_at(a, b)
                        == top,
            decreases width - x,
        {
            let h: u32 = heightmap.at(x, y);
            if h > top {
                top = h;
            }
            x = x + 1;
        }
        y = y + 1;
    }
    top
}

/// Maps of this size whose highest cell is `top` mesh without overflowing.
pub open spec fn map_fits(options: GenOptions, dims: (u32, u32), top: u32) -> bool {
    &&& moderate(options, dims, top)
    &&& options.greedy || (options.size >= 1 && crate::opt::quad::grid_fits(dims) && dims.0 >= 1
        && dims.1 >= 1)
}

/// Check that a map can be meshed with the options, centered on the origin, without overflowing.
pub fn is_map_fitting<H: Heightmap + ?Sized, C: Colormap + ?Sized>(
    heightmap: &H,
    colormap: &C,
    options: &GenOptions,
) -> (b: bool)
    ensures
        exists|top: u32| #[trigger]
            is_highest(heightmap, top) && b == map_fits(*options, heightmap.dims(), top),
        b ==> if options.greedy {
            crate::opt::generate::greedy_fits(heightmap, colormap, *options, None, None, None)
        } else {
            crate::opt::quadgen::quad_fits(heightmap, colormap, *options)
        },
{
    let top: u32 = highest(heightmap);
    let dims: (u32, u32) = heightmap.size();
    let b: bool = is_moderate(options, dims, top) && (options.greedy || (options.size >= 1
        && is_grid_fitting(dims) && dims.0 >= 1 && dims.1 >= 1));
    proof {
        if b {
            if options.greedy {
                moderate_maps_mesh_greedily(
                    heightmap,
                    colormap,
                    *options,
                    None,
                    None,
                    None,
                    top,
                );
            } else {
                moderate_maps_mesh_by_quadtree(heightmap, colormap, *options, top);
            }
        }
    }
    b
}

} // verus!
