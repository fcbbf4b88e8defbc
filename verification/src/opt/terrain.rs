//! What a mesh looks like from outside: where its bricks stand, how high and how deep they are, and
//! whose color they have.
use crate::brick::{Brick, BrickType};
use crate::map::{Colormap, Heightmap};
use crate::opt::generate::TaggedQuad;
use crate::opt::greedy::GreedyQuad;
use crate::opt::pairs::HeightColor;
use crate::opt::quad::TileModel;
use crate::util::GenOptions;
use vstd::prelude::*;

verus! {

/// The brick's footprint holds the square of cell `(x, y)`: cells are twice the size wide, and the
/// first one starts at the origin given.
pub open spec fn stands_over(brick: Brick, size: int, origin: (int, int), x: int, y: int) -> bool {
    brick.asset matches BrickType::Procedural { size: reach, .. } && {
        &&& brick.position.x - reach.x <= 2 * x * size + origin.0
        &&& 2 * (x + 1) * size + origin.0 <= brick.position.x + reach.x
        &&& brick.position.y - reach.y <= 2 * y * size + origin.1
        &&& 2 * (y + 1) * size + origin.1 <= brick.position.y + reach.y
    }
}

/// The brick has the color, alpha aside.
pub open spec fn is_colored(brick: Brick, color: [u8; 4]) -> bool {
    brick.color.r == color[0] && brick.color.g == color[1] && brick.color.b == color[2]
}

/// A rectangle of cells holds a cell where the brick on it stands over the cell.
proof fn lemma_cells_under(start: int, cells: int, size: int, at: int)
    requires
        size > 0,
    ensures
        2 * start * size <= 2 * at * size <==> start <= at,
        2 * (at + 1) * size <= 2 * (start + cells) * size <==> at < start + cells,
{
    assert(2 * start * size <= 2 * at * size <==> start <= at) by (nonlinear_arith)
        requires
            size > 0,
    ;
    assert(2 * (at + 1) * size <= 2 * (start + cells) * size <==> at + 1 <= start + cells)
        by (nonlinear_arith)
        requires
            size > 0,
    ;
}

/// The bricks of a tile are among those of all tiles.
proof fn lemma_tile_is_placed(
    options: GenOptions,
    tiles: Seq<TileModel>,
    origin: (int, int),
    i: int,
    n: int,
) -> (k: int)
    requires
        0 <= i < tiles.len(),
        0 <= n < crate::opt::tiles::tile_bricks(options, tiles[i], origin).len(),
    ensures
        0 <= k < crate::opt::tiles::all_tile_bricks(options, tiles, origin).len(),
        crate::opt::tiles::all_tile_bricks(options, tiles, origin)[k]
            == crate::opt::tiles::tile_bricks(options, tiles[i], origin)[n],
    decreases tiles.len(),
{
    let head = crate::opt::tiles::all_tile_bricks(options, tiles.drop_last(), origin);
    if i == tiles.len() - 1 {
        head.len() + n
    } else {
        lemma_tile_is_placed(options, tiles.drop_last(), origin, i, n)
    }
}

/// Each brick is one of some tile's.
proof fn lemma_tile_of_brick(
    options: GenOptions,
    tiles: Seq<TileModel>,
    origin: (int, int),
    k: int,
) -> (at: (int, int))
    requires
        0 <= k < crate::opt::tiles::all_tile_bricks(options, tiles, origin).len(),
    ensures
        0 <= at.0 < tiles.len(),
        0 <= at.1 < crate::opt::tiles::tile_bricks(options, tiles[at.0], origin).len(),
        crate::opt::tiles::all_tile_bricks(options, tiles, origin)[k]
            == crate::opt::tiles::tile_bricks(options, tiles[at.0], origin)[at.1],
    decreases tiles.len(),
{
    let head = crate::opt::tiles::all_tile_bricks(options, tiles.drop_last(), origin);
    if k < head.len() {
        lemma_tile_of_brick(options, tiles.drop_last(), origin, k)
    } else {
        (tiles.len() - 1, k - head.len())
    }
}

/// The map's heights stay below the sign bit, scaled as well.
pub open spec fn is_low_map<H: Heightmap + ?Sized>(heightmap: &H, options: GenOptions) -> bool {
    &&& options.scale <= i32::MAX
    &&& forall|x: int, y: int|
        0 <= x < heightmap.dims().0 && 0 <= y < heightmap.dims().1
            ==> #[trigger] heightmap.height_at(x, y) <= i32::MAX && options.scale
            * heightmap.height_at(x, y) <= i32::MAX
}

/// The unmerged tile of a cell.
proof fn lemma_tile_of_cell<H: Heightmap + ?Sized, C: Colormap + ?Sized>(
    heightmap: &H,
    colormap: &C,
    options: GenOptions,
    x: int,
    y: int,
) -> (i: int)
    requires
        crate::opt::quadgen::quad_fits(heightmap, colormap, options),
        is_low_map(heightmap, options),
        0 <= x < heightmap.dims().0,
        0 <= y < heightmap.dims().1,
    ensures
        ({
            let tiles = crate::opt::quadgen::merged_tiles(heightmap, colormap, options);
            let origin = crate::opt::tiles::centered(
                options,
                heightmap.dims().0,
                heightmap.dims().1,
            );
            &&& crate::opt::coverage::live_cover(tiles, i, x, y)
            &&& tiles[i].height == heightmap.height_at(x, y)
            &&& tiles[i].color == colormap.color_at(x, y)
            &&& crate::opt::tiles::tile_fits(options, tiles[i], origin)
            &&& crate::opt::tiles::tile_is_low(options, tiles[i])
            &&& i32::MIN <= origin.0 <= 0
            &&& i32::MIN <= origin.1 <= 0
        }),
{
    let tiles = crate::opt::quadgen::merged_tiles(heightmap, colormap, options);
    crate::opt::coverage::merged_tiles_cover_the_map_once(
        heightmap,
        colormap,
        options,
        i32::MAX as u32,
    );
    assert(crate::opt::coverage::is_covered(tiles, x, y));
    let i = choose|i: int| #[trigger] crate::opt::coverage::live_cover(tiles, i, x, y);
    assert(crate::opt::coverage::tile_below(tiles[i], i32::MAX as u32));
    let (w, h, size) = (
        heightmap.dims().0 as int,
        heightmap.dims().1 as int,
        options.size as int,
    );
    assert(0 <= w * size && 0 <= h * size) by (nonlinear_arith)
        requires
            0 <= w,
            0 <= h,
            0 <= size,
    ;
    i
}

/// Every cell of a map has its brick: where culling does not leave the cell out, a brick of the cell's
/// color stands over it, and on terrain it ends at the cell's scaled height.
pub proof fn quad_mesh_shows_every_cell<H: Heightmap + ?Sized, C: Colormap + ?Sized>(
    heightmap: &H,
    colormap: &C,
    options: GenOptions,
    x: int,
    y: int,
) -> (k: int)
    requires
        crate::opt::quadgen::quad_fits(heightmap, colormap, options),
        is_low_map(heightmap, options),
        options.size > 0,
        0 <= x < heightmap.dims().0,
        0 <= y < heightmap.dims().1,
        options.cull ==> heightmap.height_at(x, y) > 0 && colormap.color_at(x, y)[3] > 0,
    ensures
        ({
            let bricks = crate::opt::quadgen::quad_mesh(heightmap, colormap, options);
            let size = options.size as int;
            let origin = (-(heightmap.dims().0 * size), -(heightmap.dims().1 * size));
            &&& 0 <= k < bricks.len()
            &&& stands_over(bricks[k], size, origin, x, y)
            &&& is_colored(bricks[k], colormap.color_at(x, y))
            &&& !options.img && !options.snap ==> crate::opt::column::top_of(bricks[k])
                == options.scale * heightmap.height_at(x, y) + crate::opt::column::plane_shift(
                options,
            )
        }),
{
    let tiles = crate::opt::quadgen::merged_tiles(heightmap, colormap, options);
    let origin = crate::opt::tiles::centered(options, heightmap.dims().0, heightmap.dims().1);
    let i = lemma_tile_of_cell(heightmap, colormap, options, x, y);
    let tile = tiles[i];
    let bricks = crate::opt::tiles::tile_bricks(options, tile, origin);
    let size = options.size as int;
    if !options.img {
        let m = crate::opt::tiles::lemma_some_floor_or_none(tile);
        crate::opt::tiles::tile_reaches_its_lowest_neighbor(options, tile, origin, m);
    }
    assert(bricks.len() > 0);
    crate::opt::tiles::tile_bricks_stand_over_their_cells(options, tile, origin, 0);
    lemma_cells_under(tile.center.0 as int, tile.size.0 as int, size, x);
    lemma_cells_under(tile.center.1 as int, tile.size.1 as int, size, y);
    lemma_tile_is_placed(options, tiles, origin, i, 0)
}

/// No brick stands where none belongs: a brick that stands over a cell of the map has the cell's color,
/// and culling does not leave the cell out. Every brick stands over some cell of the map.
pub proof fn quad_mesh_shows_nothing_else<H: Heightmap + ?Sized, C: Colormap + ?Sized>(
    heightmap: &H,
    colormap: &C,
    options: GenOptions,
    k: int,
) -> (cell: (int, int))
    requires
        crate::opt::quadgen::quad_fits(heightmap, colormap, options),
        options.size > 0,
        0 <= k < crate::opt::quadgen::quad_mesh(heightmap, colormap, options).len(),
    ensures
        ({
            let brick = crate::opt::quadgen::quad_mesh(heightmap, colormap, options)[k];
            let size = options.size as int;
            let origin = (-(heightmap.dims().0 * size), -(heightmap.dims().1 * size));
            &&& 0 <= cell.0 < heightmap.dims().0
            &&& 0 <= cell.1 < heightmap.dims().1
            &&& stands_over(brick, size, origin, cell.0, cell.1)
            &&& forall|x: int, y: int|
                #[trigger] stands_over(brick, size, origin, x, y) ==> {
                    &&& is_colored(brick, colormap.color_at(x, y))
                    &&& options.cull ==> heightmap.height_at(x, y) > 0 && colormap.color_at(
                        x,
                        y,
                    )[3] > 0
                }
        }),
{
    let tiles = crate::opt::quadgen::merged_tiles(heightmap, colormap, options);
    let origin = crate::opt::tiles::centered(options, heightmap.dims().0, heightmap.dims().1);
    let size = options.size as int;
    let (w, h) = (heightmap.dims().0 as int, heightmap.dims().1 as int);
    assert(0 <= w * size && 0 <= h * size) by (nonlinear_arith)
        requires
            0 <= w,
            0 <= h,
            0 <= size,
    ;
    crate::opt::coverage::merged_tiles_cover_the_map_once(heightmap, colormap, options, u32::MAX);
    let (i, n) = lemma_tile_of_brick(options, tiles, origin, k);
    let tile = tiles[i];
    crate::opt::tiles::tile_bricks_stand_over_their_cells(options, tile, origin, n);
    let brick = crate::opt::quadgen::quad_mesh(heightmap, colormap, options)[k];
    assert forall|x: int, y: int| #[trigger] stands_over(brick, size, origin, x, y) <==> tile.covers(
        x,
        y,
    ) by {
        lemma_cells_under(tile.center.0 as int, tile.size.0 as int, size, x);
        lemma_cells_under(tile.center.1 as int, tile.size.1 as int, size, y);
    }
    assert forall|x: int, y: int| #[trigger] stands_over(brick, size, origin, x, y) implies {
        &&& is_colored(brick, colormap.color_at(x, y))
        &&& options.cull ==> heightmap.height_at(x, y) > 0 && colormap.color_at(x, y)[3] > 0
    } by {
        assert(crate::opt::coverage::live_cover(tiles, i, x, y));
    }
    crate::opt::quad::lemma_index(i, w, h);
    let cell = (i / h, i % h);
    assert(crate::opt::quad::tile_in_grid(
        tiles[crate::opt::quad::cell(cell.0, cell.1, h)],
        w,
        h,
        cell.0,
        cell.1,
    ));
    assert(tile.covers(cell.0, cell.1));
    cell
}

/// Terrain has no holes: of two cells beside each other, some brick over the one reaches down to the
/// height of the other or below it.
pub proof fn quad_mesh_has_no_holes<H: Heightmap + ?Sized, C: Colormap + ?Sized>(
    heightmap: &H,
    colormap: &C,
    options: GenOptions,
    x: int,
    y: int,
    c: int,
    d: int,
) -> (k: int)
    requires
        crate::opt::quadgen::quad_fits(heightmap, colormap, options),
        is_low_map(heightmap, options),
        options.size > 0,
        !options.img,
        !options.snap,
        0 <= x < heightmap.dims().0,
        0 <= y < heightmap.dims().1,
        0 <= c < heightmap.dims().0,
        0 <= d < heightmap.dims().1,
        crate::opt::coverage::adjacent(x, y, c, d),
        options.cull ==> heightmap.height_at(x, y) > 0 && colormap.color_at(x, y)[3] > 0,
    ensures
        ({
            let bricks = crate::opt::quadgen::quad_mesh(heightmap, colormap, options);
            let size = options.size as int;
            let origin = (-(heightmap.dims().0 * size), -(heightmap.dims().1 * size));
            &&& 0 <= k < bricks.len()
            &&& stands_over(bricks[k], size, origin, x, y)
            &&& crate::opt::column::bottom_of(bricks[k]) <= options.scale * heightmap.height_at(
                c,
                d,
            ) + crate::opt::column::plane_shift(options)
        }),
{
    let tiles = crate::opt::quadgen::merged_tiles(heightmap, colormap, options);
    let origin = crate::opt::tiles::centered(options, heightmap.dims().0, heightmap.dims().1);
    let i = lemma_tile_of_cell(heightmap, colormap, options, x, y);
    crate::opt::coverage::merged_tiles_cover_the_map_once(heightmap, colormap, options, u32::MAX);
    let tile = tiles[i];
    let other = heightmap.height_at(c, d);
    assert(tile.neighbors.contains(other));
    let m = crate::opt::tiles::lemma_some_floor(tile, other);
    crate::opt::tiles::tile_reaches_its_lowest_neighbor(options, tile, origin, m);
    let scale = options.scale as int;
    assert(scale * m <= scale * other) by (nonlinear_arith)
        requires
            scale >= 0,
            m <= other,
    ;
    let bricks = crate::opt::tiles::tile_bricks(options, tile, origin);
    let n = bricks.len() - 1;
    let size = options.size as int;
    crate::opt::tiles::tile_bricks_stand_over_their_cells(options, tile, origin, n);
    lemma_cells_under(tile.center.0 as int, tile.size.0 as int, size, x);
    lemma_cells_under(tile.center.1 as int, tile.size.1 as int, size, y);
    lemma_tile_is_placed(options, tiles, origin, i, n)
}

/// The bricks of a quad are among those of all quads.
proof fn lemma_quad_is_placed(
    options: GenOptions,
    quads: Seq<TaggedQuad>,
    min_height: u32,
    offset: (i32, i32),
    i: int,
    n: int,
) -> (k: int)
    requires
        0 <= i < quads.len(),
        0 <= n < crate::opt::generate::quad_bricks(options, quads[i], min_height, offset).len(),
    ensures
        0 <= k < crate::opt::generate::all_quad_bricks(options, quads, min_height, offset).len(),
        crate::opt::generate::all_quad_bricks(options, quads, min_height, offset)[k]
            == crate::opt::generate::quad_bricks(options, quads[i], min_height, offset)[n],
    decreases quads.len(),
{
    let head = crate::opt::generate::all_quad_bricks(
        options,
        quads.drop_last(),
        min_height,
        offset,
    );
    if i == quads.len() - 1 {
        head.len() + n
    } else {
        lemma_quad_is_placed(options, quads.drop_last(), min_height, offset, i, n)
    }
}

/// Each brick is one of some quad's.
proof fn lemma_quad_of_brick(
    options: GenOptions,
    quads: Seq<TaggedQuad>,
    min_height: u32,
    offset: (i32, i32),
    k: int,
) -> (at: (int, int))
    requires
        0 <= k < crate::opt::generate::all_quad_bricks(options, quads, min_height, offset).len(),
    ensures
        0 <= at.0 < quads.len(),
        0 <= at.1 < crate::opt::generate::quad_bricks(
            options,
            quads[at.0],
            min_height,
            offset,
        ).len(),
        crate::opt::generate::all_quad_bricks(options, quads, min_height, offset)[k]
            == crate::opt::generate::quad_bricks(options, quads[at.0], min_height, offset)[at.1],
    decreases quads.len(),
{
    let head = crate::opt::generate::all_quad_bricks(
        options,
        quads.drop_last(),
        min_height,
        offset,
    );
    if k < head.len() {
        lemma_quad_of_brick(options, quads.drop_last(), min_height, offset, k)
    } else {
        (quads.len() - 1, k - head.len())
    }
}

/// A quad of a mesh is among the tagged ones.
proof fn lemma_quad_is_tagged(
    pairs: Seq<HeightColor>,
    meshes: Seq<Seq<GreedyQuad>>,
    p: int,
    k: int,
) -> (i: int)
    requires
        pairs.len() == meshes.len(),
        0 <= p < pairs.len(),
        0 <= k < meshes[p].len(),
    ensures
        0 <= i < crate::opt::generate::tag_meshes(pairs, meshes).len(),
        crate::opt::generate::tag_meshes(pairs, meshes)[i] == (
            meshes[p][k],
            pairs[p].0,
            pairs[p].1,
        ),
    decreases pairs.len(),
{
    let head = crate::opt::generate::tag_meshes(pairs.drop_last(), meshes.drop_last());
    if p == pairs.len() - 1 {
        head.len() + k
    } else {
        lemma_quad_is_tagged(pairs.drop_last(), meshes.drop_last(), p, k)
    }
}

/// A quad's bricks stand over its cells: their sides lie on the lines between cells, which are twice
/// the size apart, and the map's first cell starts at the offset. They have the quad's color.
pub proof fn quad_bricks_stand_over_their_cells(
    options: GenOptions,
    tagged: TaggedQuad,
    min_height: u32,
    offset: (i32, i32),
    i: int,
)
    requires
        crate::opt::generate::quad_fits(options, tagged.0, offset),
        0 <= i < crate::opt::generate::quad_bricks(options, tagged, min_height, offset).len(),
    ensures
        ({
            let brick = crate::opt::generate::quad_bricks(options, tagged, min_height, offset)[i];
            let size = options.size as int;
            let quad = tagged.0;
            &&& brick.asset matches BrickType::Procedural { size: reach, .. } && {
                &&& brick.position.x - reach.x == 2 * quad.x * size + offset.0
                &&& brick.position.x + reach.x == 2 * (quad.x + quad.w) * size + offset.0
                &&& brick.position.y - reach.y == 2 * quad.y * size + offset.1
                &&& brick.position.y + reach.y == 2 * (quad.y + quad.h) * size + offset.1
            }
            &&& is_colored(brick, tagged.2)
            &&& !(options.skip_floor && options.fill_to_base && !options.img && tagged.1
                <= options.omit_below_h)
        }),
{
    let col = crate::opt::generate::quad_column(options, tagged, min_height, offset);
    crate::opt::column::column_bricks_look_as_asked(
        options,
        col,
        col.z as int,
        col.desired_height as int,
        i,
    );
    let size = options.size as int;
    lemma_quad_side(tagged.0.x as int, tagged.0.w as int, size);
    lemma_quad_side(tagged.0.y as int, tagged.0.h as int, size);
}

proof fn lemma_quad_side(start: int, cells: int, size: int)
    requires
        start >= 0,
        cells >= 0,
        size >= 0,
    ensures
        start * size * 2 == 2 * start * size,
        start * size * 2 + cells * size + cells * size == 2 * (start + cells) * size,
        start * size >= 0,
        cells * size >= 0,
{
    assert(start * size * 2 == 2 * start * size && start * size * 2 + cells * size + cells * size
        == 2 * (start + cells) * size) by (nonlinear_arith);
    assert(start * size >= 0 && cells * size >= 0) by (nonlinear_arith)
        requires
            start >= 0,
            cells >= 0,
            size >= 0,
    ;
}

/// How deep a terrain column is: it reaches half of its scaled height over the base plane down when
/// terrain is filled, and never less than two; a surface is twice the scale deep.
pub open spec fn surface_depth(options: GenOptions, h: int, base: int) -> int {
    if options.fill_to_base {
        if h > base && (h - base) * options.scale / 2 > 2 {
            (h - base) * options.scale / 2
        } else {
            2
        }
    } else {
        2 * options.scale
    }
}

/// The bricks of a quad of terrain are one stack without gaps, from the quad's scaled height down, as
/// deep as asked for and by less than one step of the parity deeper; where terrain is filled they reach
/// the base plane, to within half a step of the scale.
pub proof fn quad_reaches_the_base(
    options: GenOptions,
    tagged: TaggedQuad,
    min_height: u32,
    offset: (i32, i32),
)
    requires
        !options.img,
        !(options.skip_floor && options.fill_to_base && tagged.1 <= options.omit_below_h),
        1 <= options.scale,
        2 * options.scale <= i32::MAX,
        tagged.1 <= i32::MAX,
        min_height <= i32::MAX,
        options.scale * tagged.1 <= i32::MAX,
        crate::opt::generate::height_fits(options, tagged.1, min_height),
    ensures
        ({
            let bricks = crate::opt::generate::quad_bricks(options, tagged, min_height, offset);
            let shift = crate::opt::column::plane_shift(options);
            let top = crate::opt::column::top_of(bricks[0]) - shift;
            let bottom = crate::opt::column::bottom_of(bricks.last()) - shift;
            let depth = surface_depth(options, tagged.1 as int, min_height as int);
            &&& bricks.len() > 0
            &&& top == options.scale * tagged.1
            &&& forall|i: int|
                #![trigger bricks[i]]
                0 <= i < bricks.len() - 1 ==> crate::opt::column::bottom_of(bricks[i])
                    == crate::opt::column::top_of(bricks[i + 1])
            &&& 2 * depth <= top - bottom
            &&& top - bottom < 2 * depth + if options.stud {
                10int
            } else {
                4
            }
            &&& options.fill_to_base ==> bottom <= options.scale * min_height + 1
        }),
{
    let (h, base, scale) = (tagged.1 as int, min_height as int, options.scale as int);
    let col = crate::opt::generate::quad_column(options, tagged, min_height, offset);
    assert(0 <= scale * h) by (nonlinear_arith)
        requires
            0 <= scale,
            0 <= h,
    ;
    if options.fill_to_base {
        assert((h - base) * scale == scale * h - scale * base) by (nonlinear_arith);
        if h <= base {
            assert(scale * h <= scale * base) by (nonlinear_arith)
                requires
                    0 <= scale,
                    h <= base,
            ;
            assert(0 * scale / 2 == 0);
        }
    }
    assert(col.desired_height == surface_depth(options, h, base));
    crate::opt::column::column_fills_without_gaps(
        options,
        col,
        col.z as int,
        col.desired_height as int,
    );
}

/// Where a map is placed: at the offset given, or centered on the origin.
pub open spec fn origin_of<H: Heightmap + ?Sized>(
    heightmap: &H,
    options: GenOptions,
    offset: Option<(i32, i32)>,
) -> (int, int) {
    match offset {
        Some(o) => (o.0 as int, o.1 as int),
        None => (-(heightmap.dims().0 * options.size), -(heightmap.dims().1 * options.size)),
    }
}

/// Every cell of a map has its brick: where neither the mask, culling nor a skipped floor leaves the
/// cell out, a brick of the cell's color stands over it. On terrain it ends at the cell's scaled height,
/// and where terrain is filled from a given base plane, a brick over the cell reaches that plane, to
/// within half a step of the scale.
pub proof fn greedy_mesh_shows_every_cell<H: Heightmap + ?Sized, C: Colormap + ?Sized>(
    heightmap: &H,
    colormap: &C,
    options: GenOptions,
    base: Option<u32>,
    offset: Option<(i32, i32)>,
    mask: Option<Seq<bool>>,
    bricks: Seq<Brick>,
    x: int,
    y: int,
) -> (found: (int, int))
    requires
        crate::opt::generate::greedy_fits(heightmap, colormap, options, base, offset, mask),
        crate::opt::generate::is_greedy_output(
            heightmap,
            colormap,
            options,
            base,
            offset,
            mask,
            bricks,
        ),
        is_low_map(heightmap, options),
        base matches Some(b) ==> b <= i32::MAX,
        options.size > 0,
        1 <= options.scale,
        2 * options.scale <= i32::MAX,
        0 <= x < heightmap.dims().0,
        0 <= y < heightmap.dims().1,
        mask matches Some(m) ==> m[y * heightmap.dims().0 + x],
        options.cull ==> heightmap.height_at(x, y) > 0 && colormap.color_at(x, y)[3] > 0,
        !(options.skip_floor && options.fill_to_base && !options.img && heightmap.height_at(x, y)
            <= options.omit_below_h),
    ensures
        ({
            let origin = origin_of(heightmap, options, offset);
            let size = options.size as int;
            let (k, l) = found;
            let shift = crate::opt::column::plane_shift(options);
            &&& 0 <= k < bricks.len()
            &&& 0 <= l < bricks.len()
            &&& stands_over(bricks[k], size, origin, x, y)
            &&& stands_over(bricks[l], size, origin, x, y)
            &&& is_colored(bricks[k], colormap.color_at(x, y))
            &&& is_colored(bricks[l], colormap.color_at(x, y))
            &&& !options.img ==> crate::opt::column::top_of(bricks[k]) == options.scale
                * heightmap.height_at(x, y) + shift
            &&& !options.img && options.fill_to_base ==> (base matches Some(b)
                ==> crate::opt::column::bottom_of(bricks[l]) <= options.scale * b + 1 + shift)
        }),
{
    let (pairs, meshes) = crate::opt::laws::lemma_run_of(
        heightmap,
        colormap,
        options,
        base,
        offset,
        mask,
        bricks,
    );
    crate::opt::laws::quads_hold_the_visible_cells(
        heightmap,
        colormap,
        options,
        mask,
        pairs,
        meshes,
        x,
        y,
    );
    let (p, k) = choose|p: int, k: int|
        #[trigger] crate::opt::laws::quad_holds(meshes, p, k, x, y);
    let i = lemma_quad_is_tagged(pairs, meshes, p, k);
    crate::opt::generate::lemma_quads_fit(
        heightmap,
        colormap,
        options,
        base,
        offset,
        mask,
        pairs,
        meshes,
        i,
    );
    let quads = crate::opt::generate::tag_meshes(pairs, meshes);
    let (w, h) = heightmap.dims();
    let place = crate::opt::generate::placement(offset, options, w, h);
    let floor = crate::opt::generate::base_plane(base, pairs);
    let size = options.size as int;
    assert(0 <= w * size && 0 <= h * size) by (nonlinear_arith)
        requires
            0 <= w,
            0 <= h,
            0 <= size,
    ;
    let at = crate::opt::laws::base_plane_is_the_lowest_height(
        heightmap,
        colormap,
        options.cull,
        pairs,
        x,
        y,
    );
    let tagged = quads[i];
    let stack = crate::opt::generate::quad_bricks(options, tagged, floor, place);
    if !options.img {
        quad_reaches_the_base(options, tagged, floor, place);
    }
    assert(stack.len() > 0);
    quad_bricks_stand_over_their_cells(options, tagged, floor, place, 0);
    quad_bricks_stand_over_their_cells(options, tagged, floor, place, stack.len() - 1);
    lemma_cells_under(tagged.0.x as int, tagged.0.w as int, size, x);
    lemma_cells_under(tagged.0.y as int, tagged.0.h as int, size, y);
    (
        lemma_quad_is_placed(options, quads, floor, place, i, 0),
        lemma_quad_is_placed(options, quads, floor, place, i, stack.len() - 1),
    )
}

/// No brick stands where none belongs: a brick that stands over a cell has the cell's color, and neither
/// the mask, culling nor a skipped floor leaves the cell out.
pub proof fn greedy_mesh_shows_nothing_else<H: Heightmap + ?Sized, C: Colormap + ?Sized>(
    heightmap: &H,
    colormap: &C,
    options: GenOptions,
    base: Option<u32>,
    offset: Option<(i32, i32)>,
    mask: Option<Seq<bool>>,
    bricks: Seq<Brick>,
    k: int,
    x: int,
    y: int,
)
    requires
        crate::opt::generate::greedy_fits(heightmap, colormap, options, base, offset, mask),
        crate::opt::generate::is_greedy_output(
            heightmap,
            colormap,
            options,
            base,
            offset,
            mask,
            bricks,
        ),
        options.size > 0,
        0 <= k < bricks.len(),
        stands_over(
            bricks[k],
            options.size as int,
            origin_of(heightmap, options, offset),
            x,
            y,
        ),
    ensures
        0 <= x < heightmap.dims().0,
        0 <= y < heightmap.dims().1,
        is_colored(bricks[k], colormap.color_at(x, y)),
        mask matches Some(m) ==> m[y * heightmap.dims().0 + x],
        options.cull ==> heightmap.height_at(x, y) > 0 && colormap.color_at(x, y)[3] > 0,
        !(options.skip_floor && options.fill_to_base && !options.img && heightmap.height_at(x, y)
            <= options.omit_below_h),
{
    let (pairs, meshes) = crate::opt::laws::lemma_run_of(
        heightmap,
        colormap,
        options,
        base,
        offset,
        mask,
        bricks,
    );
    let quads = crate::opt::generate::tag_meshes(pairs, meshes);
    let (w, h) = heightmap.dims();
    let place = crate::opt::generate::placement(offset, options, w, h);
    let floor = crate::opt::generate::base_plane(base, pairs);
    let size = options.size as int;
    assert(0 <= w * size && 0 <= h * size) by (nonlinear_arith)
        requires
            0 <= w,
            0 <= h,
            0 <= size,
    ;
    let (i, n) = lemma_quad_of_brick(options, quads, floor, place, k);
    crate::opt::generate::lemma_quads_fit(
        heightmap,
        colormap,
        options,
        base,
        offset,
        mask,
        pairs,
        meshes,
        i,
    );
    let tagged = quads[i];
    quad_bricks_stand_over_their_cells(options, tagged, floor, place, n);
    lemma_cells_under(tagged.0.x as int, tagged.0.w as int, size, x);
    lemma_cells_under(tagged.0.y as int, tagged.0.h as int, size, y);
    let (p, q) = crate::opt::generate::lemma_tagged_from_mesh(pairs, meshes, i);
    assert(crate::opt::laws::quad_holds(meshes, p, q, x, y));
    crate::opt::laws::quads_hold_the_visible_cells(
        heightmap,
        colormap,
        options,
        mask,
        pairs,
        meshes,
        x,
        y,
    );
}

/// The brick is of the asset, collides and is made of the material that the options ask for, and is at
/// most 250 units high.
pub open spec fn looks_as_asked(brick: Brick, options: GenOptions) -> bool {
    &&& brick.asset matches BrickType::Procedural { asset, size } && asset == options.asset && (!(
    options.img && options.micro) ==> 0 < size.z <= 250)
    &&& brick.collision.player == !options.nocollide
    &&& brick.collision.weapon == !options.nocollide
    &&& brick.collision.interact == !options.nocollide
    &&& brick.collision.tool
    &&& brick.collision.physics
    &&& options.glow ==> brick.material is Glow && brick.material_intensity == 0
    &&& !options.glow ==> brick.material is Plastic && brick.material_intensity == 5
}

/// All bricks of a mesh are of the asset, collide and are made of the material that the options ask for,
/// and none is higher than 250 units.
pub proof fn meshed_bricks_look_as_asked<H: Heightmap + ?Sized, C: Colormap + ?Sized>(
    heightmap: &H,
    colormap: &C,
    options: GenOptions,
    base: Option<u32>,
    offset: Option<(i32, i32)>,
    mask: Option<Seq<bool>>,
    bricks: Seq<Brick>,
    k: int,
)
    requires
        crate::opt::generate::is_greedy_output(
            heightmap,
            colormap,
            options,
            base,
            offset,
            mask,
            bricks,
        ) || bricks == crate::opt::quadgen::quad_mesh(heightmap, colormap, options),
        0 <= k < bricks.len(),
    ensures
        looks_as_asked(bricks[k], options),
{
    if bricks == crate::opt::quadgen::quad_mesh(heightmap, colormap, options) {
        let tiles = crate::opt::quadgen::merged_tiles(heightmap, colormap, options);
        let origin = crate::opt::tiles::centered(options, heightmap.dims().0, heightmap.dims().1);
        let (i, n) = lemma_tile_of_brick(options, tiles, origin, k);
        let col = crate::opt::tiles::tile_column(options, tiles[i], origin);
        lemma_column_looks(options, col, n);
    } else {
        let (pairs, meshes) = crate::opt::laws::lemma_run_of(
            heightmap,
            colormap,
            options,
            base,
            offset,
            mask,
            bricks,
        );
        let quads = crate::opt::generate::tag_meshes(pairs, meshes);
        let (w, h) = heightmap.dims();
        let place = crate::opt::generate::placement(offset, options, w, h);
        let floor = crate::opt::generate::base_plane(base, pairs);
        let (i, n) = lemma_quad_of_brick(options, quads, floor, place, k);
        let col = crate::opt::generate::quad_column(options, quads[i], floor, place);
        lemma_column_looks(options, col, n);
    }
}

proof fn lemma_column_looks(options: GenOptions, col: crate::opt::column::BrickColumn, n: int)
    requires
        0 <= n < crate::opt::column::column_bricks(options, col).len(),
    ensures
        looks_as_asked(crate::opt::column::column_bricks(options, col)[n], options),
{
    let (z, desired) = (col.z as int, col.desired_height as int);
    crate::opt::column::column_bricks_look_as_asked(options, col, z, desired, n);
    if !(options.img && options.micro) {
        crate::opt::column::split_bricks_are_legal(options, col, z, desired, n);
    }
}

} // verus!
