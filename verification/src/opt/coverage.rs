//! What merging tiles keeps: the unmerged tiles cover every cell once, show the map's heights and
//! colors, and stay within the brick unit cap.
use crate::map::{Colormap, Heightmap};
use crate::opt::quad::TileModel;
use crate::opt::MAX_BRICK_UNITS;
use vstd::prelude::*;

verus! {

/// Tile `i` is unmerged and holds the cell.
pub open spec fn live_cover(tiles: Seq<TileModel>, i: int, a: int, b: int) -> bool {
    0 <= i < tiles.len() && tiles[i].parent is None && tiles[i].covers(a, b)
}

/// Some unmerged tile holds the cell.
pub open spec fn is_covered(tiles: Seq<TileModel>, a: int, b: int) -> bool {
    exists|i: int| #[trigger] live_cover(tiles, i, a, b)
}

/// The unmerged tiles hold every cell of the grid, and no cell is held twice.
pub open spec fn tiled_once(tiles: Seq<TileModel>, width: int, height: int) -> bool {
    &&& forall|a: int, b: int|
        0 <= a < width && 0 <= b < height ==> #[trigger] is_covered(tiles, a, b)
    &&& forall|i: int, j: int, a: int, b: int|
        #[trigger] live_cover(tiles, i, a, b) && #[trigger] live_cover(tiles, j, a, b) ==> i == j
}

/// Every unmerged tile has the height and the color of the map at each cell it holds.
pub open spec fn faithful<H: Heightmap + ?Sized, C: Colormap + ?Sized>(
    tiles: Seq<TileModel>,
    heightmap: &H,
    colormap: &C,
) -> bool {
    forall|i: int, a: int, b: int|
        #[trigger] live_cover(tiles, i, a, b) ==> tiles[i].height == heightmap.height_at(a, b)
            && tiles[i].color == colormap.color_at(a, b)
}

/// A side of a tile is a single cell or stays within the brick unit cap.
pub open spec fn side_capped(cells: u32, size: int) -> bool {
    cells == 1 || cells * size <= MAX_BRICK_UNITS
}

/// Every tile keeps to the brick unit cap.
pub open spec fn all_capped(tiles: Seq<TileModel>, size: int) -> bool {
    forall|i: int|
        0 <= i < tiles.len() ==> side_capped((#[trigger] tiles[i]).size.0, size) && side_capped(
            tiles[i].size.1,
            size,
        )
}

/// The tile is as large as it was, or it took others over in one line: it was unmerged and grew along
/// exactly one axis, on which it keeps to the brick unit cap.
pub open spec fn grows_in_line(was: TileModel, now: TileModel, size: int) -> bool {
    ||| now.size == was.size
    ||| {
        &&& was.parent is None
        &&& now.size.0 == was.size.0
        &&& was.size.1 < now.size.1
        &&& now.size.1 * size <= MAX_BRICK_UNITS
    }
    ||| {
        &&& was.parent is None
        &&& was.size.0 < now.size.0
        &&& now.size.1 == was.size.1
        &&& now.size.0 * size <= MAX_BRICK_UNITS
    }
}

/// Every tile is as large as it was or grew in one line.
pub open spec fn all_grow_in_line(was: Seq<TileModel>, now: Seq<TileModel>, size: int) -> bool {
    &&& now.len() == was.len()
    &&& forall|k: int|
        0 <= k < was.len() ==> grows_in_line(was[k], #[trigger] now[k], size)
}

/// Merged tiles stay merged, and only the tiles `from..to` may have grown, each in one line.
spec fn grows_between(
    was: Seq<TileModel>,
    now: Seq<TileModel>,
    size: int,
    from: int,
    to: int,
) -> bool {
    &&& all_grow_in_line(was, now, size)
    &&& forall|k: int|
        0 <= k < was.len() ==> (was[k].parent is Some ==> (#[trigger] now[k]).parent is Some) && (
        from <= k < to || now[k].size == was[k].size)
}

/// Growth of some tiles and then of the ones after them.
proof fn lemma_grows_on(
    a: Seq<TileModel>,
    b: Seq<TileModel>,
    c: Seq<TileModel>,
    size: int,
    from: int,
    mid: int,
    to: int,
)
    requires
        grows_between(a, b, size, from, mid),
        grows_between(b, c, size, mid, to),
        from <= mid <= to,
    ensures
        grows_between(a, c, size, from, to),
{
    assert forall|k: int| 0 <= k < a.len() implies {
        &&& grows_in_line(a[k], #[trigger] c[k], size)
        &&& a[k].parent is Some ==> c[k].parent is Some
        &&& from <= k < to || c[k].size == a[k].size
    } by {
        assert(grows_in_line(a[k], b[k], size));
        assert(grows_in_line(b[k], c[k], size));
    }
}

/// Two cells share a side.
pub open spec fn adjacent(a: int, b: int, c: int, d: int) -> bool {
    (a == c && (b - d == 1 || d - b == 1)) || (b == d && (a - c == 1 || c - a == 1))
}

/// The height occurs in a cell of the map next to a cell of tile `i`.
pub open spec fn is_beside<H: Heightmap + ?Sized>(
    tiles: Seq<TileModel>,
    heightmap: &H,
    i: int,
    height: u32,
) -> bool {
    exists|a: int, b: int, c: int, d: int|
        #[trigger] live_cover(tiles, i, a, b) && #[trigger] adjacent(a, b, c, d) && 0 <= c
            < heightmap.dims().0 && 0 <= d < heightmap.dims().1 && heightmap.height_at(c, d)
            == height
}

/// The heights noted with each unmerged tile are those of the map's cells next to the tile's cells.
pub open spec fn knows_neighbors<H: Heightmap + ?Sized>(tiles: Seq<TileModel>, heightmap: &H) -> bool {
    &&& forall|i: int, a: int, b: int, c: int, d: int|
        #[trigger] live_cover(tiles, i, a, b) && #[trigger] adjacent(a, b, c, d) && 0 <= c
            < heightmap.dims().0 && 0 <= d < heightmap.dims().1 ==> tiles[i].neighbors.contains(
            heightmap.height_at(c, d),
        )
    &&& forall|i: int, h: u32|
        0 <= i < tiles.len() && tiles[i].parent is None && #[trigger] tiles[i].neighbors.contains(h)
            ==> is_beside(tiles, heightmap, i, h)
}

/// The unmerged tile `owner[i]` of `next` took tile `i` over, or is tile `i`: it holds what the
/// tiles that it took over held, and looks like them.
spec fn regroups(tiles: Seq<TileModel>, next: Seq<TileModel>, owner: Seq<int>) -> bool {
    &&& owner.len() == tiles.len()
    &&& next.len() == tiles.len()
    &&& forall|i: int|
        0 <= i < tiles.len() && tiles[i].parent is None ==> {
            &&& 0 <= #[trigger] owner[i] < next.len()
            &&& next[owner[i]].height == tiles[i].height
            &&& next[owner[i]].color == tiles[i].color
            &&& tiles[i].neighbors.subset_of(next[owner[i]].neighbors)
        }
    &&& forall|k: int, h: u32|
        0 <= k < next.len() && next[k].parent is None && #[trigger] next[k].neighbors.contains(h)
            ==> is_inherited(tiles, owner, k, h)
    &&& forall|i: int, a: int, b: int|
        #[trigger] live_cover(tiles, i, a, b) ==> live_cover(next, owner[i], a, b)
    &&& forall|k: int, a: int, b: int|
        #[trigger] live_cover(next, k, a, b) ==> is_owned(tiles, owner, k, a, b)
}

/// A tile that `k` took over has the height next to it.
spec fn is_inherited(tiles: Seq<TileModel>, owner: Seq<int>, k: int, h: u32) -> bool {
    exists|i: int|
        0 <= i < tiles.len() && tiles[i].parent is None && owner[i] == k
            && #[trigger] tiles[i].neighbors.contains(h)
}

/// A tile that `k` took over holds the cell.
spec fn is_owned(tiles: Seq<TileModel>, owner: Seq<int>, k: int, a: int, b: int) -> bool {
    exists|i: int| #[trigger] live_cover(tiles, i, a, b) && owner[i] == k
}

proof fn lemma_regroup<H: Heightmap + ?Sized, C: Colormap + ?Sized>(
    tiles: Seq<TileModel>,
    next: Seq<TileModel>,
    owner: Seq<int>,
    width: int,
    height: int,
    heightmap: &H,
    colormap: &C,
)
    requires
        regroups(tiles, next, owner),
        tiled_once(tiles, width, height),
        faithful(tiles, heightmap, colormap),
    ensures
        tiled_once(next, width, height),
        faithful(next, heightmap, colormap),
        knows_neighbors(tiles, heightmap) ==> knows_neighbors(next, heightmap),
{
    if knows_neighbors(tiles, heightmap) {
        lemma_regroup_neighbors(tiles, next, owner, heightmap);
    }
    assert forall|a: int, b: int| 0 <= a < width && 0 <= b < height implies #[trigger] is_covered(
        next,
        a,
        b,
    ) by {
        assert(is_covered(tiles, a, b));
        let i = choose|i: int| #[trigger] live_cover(tiles, i, a, b);
        assert(live_cover(next, owner[i], a, b));
    }
    assert forall|i: int, j: int, a: int, b: int|
        #[trigger] live_cover(next, i, a, b) && #[trigger] live_cover(next, j, a, b) implies i
        == j by {
        assert(is_owned(tiles, owner, i, a, b) && is_owned(tiles, owner, j, a, b));
        let p = choose|p: int| #[trigger] live_cover(tiles, p, a, b) && owner[p] == i;
        let q = choose|q: int| #[trigger] live_cover(tiles, q, a, b) && owner[q] == j;
        assert(p == q);
    }
    assert forall|i: int, a: int, b: int| #[trigger] live_cover(next, i, a, b) implies next[i].height
        == heightmap.height_at(a, b) && next[i].color == colormap.color_at(a, b) by {
        assert(is_owned(tiles, owner, i, a, b));
        let p = choose|p: int| #[trigger] live_cover(tiles, p, a, b) && owner[p] == i;
        assert(owner[p] == i);
    }
}

proof fn lemma_regroup_neighbors<H: Heightmap + ?Sized>(
    tiles: Seq<TileModel>,
    next: Seq<TileModel>,
    owner: Seq<int>,
    heightmap: &H,
)
    requires
        regroups(tiles, next, owner),
        knows_neighbors(tiles, heightmap),
    ensures
        knows_neighbors(next, heightmap),
{
    assert forall|k: int, a: int, b: int, c: int, d: int|
        #[trigger] live_cover(next, k, a, b) && #[trigger] adjacent(a, b, c, d) && 0 <= c
            < heightmap.dims().0 && 0 <= d
            < heightmap.dims().1 implies next[k].neighbors.contains(heightmap.height_at(c, d)) by {
        assert(is_owned(tiles, owner, k, a, b));
        let p = choose|p: int| #[trigger] live_cover(tiles, p, a, b) && owner[p] == k;
        assert(tiles[p].neighbors.contains(heightmap.height_at(c, d)));
        assert(tiles[p].neighbors.subset_of(next[owner[p]].neighbors));
    }
    assert forall|k: int, h: u32|
        0 <= k < next.len() && next[k].parent is None
            && #[trigger] next[k].neighbors.contains(h) implies is_beside(
        next,
        heightmap,
        k,
        h,
    ) by {
        assert(is_inherited(tiles, owner, k, h));
        let p = choose|p: int|
            0 <= p < tiles.len() && tiles[p].parent is None && owner[p] == k
                && #[trigger] tiles[p].neighbors.contains(h);
        assert(is_beside(tiles, heightmap, p, h));
        let (a, b, c, d) = choose|a: int, b: int, c: int, d: int|
            #[trigger] live_cover(tiles, p, a, b) && #[trigger] adjacent(a, b, c, d) && 0 <= c
                < heightmap.dims().0 && 0 <= d < heightmap.dims().1 && heightmap.height_at(c, d)
                == h;
        assert(live_cover(next, owner[p], a, b));
    }
}

/// The block corner that the tile of cell `k` is merged into by a pass over squares, or `k`.
spec fn level_owner(
    tiles: Seq<TileModel>,
    width: int,
    height: int,
    space: int,
    k: int,
) -> int {
    let (x, y) = (k / height, k % height);
    let (bx, by) = (
        crate::opt::quad::block_base(x, space),
        crate::opt::quad::block_base(y, space),
    );
    if (x == bx || x == bx + space) && (y == by || y == by + space)
        && crate::opt::quad::block_merges(tiles, width, height, space, bx, by) {
        crate::opt::quad::cell(bx, by, height)
    } else {
        k
    }
}

/// A pass over squares regroups the tiles.
proof fn lemma_level_regroups(tiles: Seq<TileModel>, width: int, height: int, space: int)
    requires
        crate::opt::quad::well_formed(tiles, width, height),
        crate::opt::quadgen::all_square(tiles),
        space >= 1,
        0 <= width <= u32::MAX,
        0 <= height <= u32::MAX,
    ensures
        regroups(
            tiles,
            crate::opt::quad::quad_level(tiles, width, height, space),
            Seq::new(
                tiles.len(),
                |k: int| level_owner(tiles, width, height, space, k),
            ),
        ),
{
    let next = crate::opt::quad::quad_level(tiles, width, height, space);
    let owner = Seq::new(tiles.len(), |k: int| level_owner(tiles, width, height, space, k));
    assert forall|i: int| 0 <= i < tiles.len() && tiles[i].parent is None implies {
        &&& 0 <= #[trigger] owner[i] < next.len()
        &&& next[owner[i]].parent is None
        &&& next[owner[i]].height == tiles[i].height
        &&& next[owner[i]].color == tiles[i].color
        &&& tiles[i].neighbors.subset_of(next[owner[i]].neighbors)
    } by {
        lemma_level_tile(tiles, width, height, space, i);
    }
    assert forall|k: int, h: u32|
        0 <= k < next.len() && next[k].parent is None
            && #[trigger] next[k].neighbors.contains(h) implies is_inherited(
        tiles,
        owner,
        k,
        h,
    ) by {
        let i = lemma_level_heir(tiles, width, height, space, k, h);
        assert(owner[i] == k);
        assert(tiles[i].neighbors.contains(h));
    }
    assert forall|i: int, a: int, b: int| #[trigger] live_cover(tiles, i, a, b) implies live_cover(
        next,
        owner[i],
        a,
        b,
    ) by {
        lemma_level_tile(tiles, width, height, space, i);
        assert(owner[i] == level_owner(tiles, width, height, space, i));
    }
    assert forall|k: int, a: int, b: int| #[trigger] live_cover(next, k, a, b) implies is_owned(
        tiles,
        owner,
        k,
        a,
        b,
    ) by {
        let i = lemma_level_source(tiles, width, height, space, k, a, b);
        assert(owner[i] == k);
    }
}

/// The corner that took a tile over looks like it and holds its cells.
proof fn lemma_level_tile(tiles: Seq<TileModel>, width: int, height: int, space: int, i: int)
    requires
        crate::opt::quad::well_formed(tiles, width, height),
        crate::opt::quadgen::all_square(tiles),
        space >= 1,
        0 <= width <= u32::MAX,
        0 <= height <= u32::MAX,
        0 <= i < tiles.len(),
        tiles[i].parent is None,
    ensures
        ({
            let next = crate::opt::quad::quad_level(tiles, width, height, space);
            let k = level_owner(tiles, width, height, space, i);
            &&& 0 <= k < tiles.len()
            &&& next[k].parent is None
            &&& next[k].height == tiles[i].height
            &&& next[k].color == tiles[i].color
            &&& tiles[i].neighbors.subset_of(next[k].neighbors)
            &&& forall|a: int, b: int| tiles[i].covers(a, b) ==> #[trigger] next[k].covers(a, b)
        }),
{
    let next = crate::opt::quad::quad_level(tiles, width, height, space);
    crate::opt::quad::lemma_index(i, width, height);
    let (x, y) = (i / height, i % height);
    let (bx, by) = (
        crate::opt::quad::block_base(x, space),
        crate::opt::quad::block_base(y, space),
    );
    vstd::arithmetic::div_mod::lemma_mod_bound(x, 2 * space);
    vstd::arithmetic::div_mod::lemma_mod_bound(y, 2 * space);
    vstd::arithmetic::div_mod::lemma_mod_decreases(x as nat, (2 * space) as nat);
    vstd::arithmetic::div_mod::lemma_mod_decreases(y as nat, (2 * space) as nat);
    assert(tiles[crate::opt::quad::cell(x, y, height)] == tiles[i]);
    assert(crate::opt::quad::tile_in_grid(
        tiles[crate::opt::quad::cell(x, y, height)],
        width,
        height,
        x,
        y,
    ));
    let k = level_owner(tiles, width, height, space, i);
    if (x == bx || x == bx + space) && (y == by || y == by + space)
        && crate::opt::quad::block_merges(tiles, width, height, space, bx, by) {
        crate::opt::quad::lemma_cell(bx, by, width, height);
        let first = tiles[crate::opt::quad::cell(bx, by, height)];
        assert(crate::opt::quad::tile_in_grid(first, width, height, bx, by));
        lemma_block_base_fixed(bx, x, space);
        lemma_block_base_fixed(by, y, space);
        assert(first.size.0 == first.size.1);
        let far = tiles[crate::opt::quad::cell(bx + space, by + space, height)];
        assert(crate::opt::quad::tile_in_grid(far, width, height, bx + space, by + space));
    }
}

/// A block's first coordinate is its own block's first coordinate.
proof fn lemma_block_base_fixed(base: int, x: int, space: int)
    requires
        space > 0,
        x >= 0,
        base == crate::opt::quad::block_base(x, space),
    ensures
        crate::opt::quad::block_base(base, space) == base,
        0 <= base,
{
    let m = 2 * space;
    vstd::arithmetic::div_mod::lemma_fundamental_div_mod(x, m);
    vstd::arithmetic::div_mod::lemma_div_pos_is_pos(x, m);
    assert(m * (x / m) == (x / m) * m) by (nonlinear_arith);
    assert(0 <= m * (x / m)) by (nonlinear_arith)
        requires
            0 <= x / m,
            0 < m,
    ;
    vstd::arithmetic::div_mod::lemma_fundamental_div_mod_converse(base, m, x / m, 0);
}

/// The tile that a cell of a merged tile came from.
proof fn lemma_level_source(
    tiles: Seq<TileModel>,
    width: int,
    height: int,
    space: int,
    k: int,
    a: int,
    b: int,
) -> (i: int)
    requires
        crate::opt::quad::well_formed(tiles, width, height),
        crate::opt::quadgen::all_square(tiles),
        space >= 1,
        0 <= width <= u32::MAX,
        0 <= height <= u32::MAX,
        live_cover(crate::opt::quad::quad_level(tiles, width, height, space), k, a, b),
    ensures
        live_cover(tiles, i, a, b),
        level_owner(tiles, width, height, space, i) == k,
{
    let next = crate::opt::quad::quad_level(tiles, width, height, space);
    crate::opt::quad::lemma_index(k, width, height);
    let (x, y) = (k / height, k % height);
    let (bx, by) = (
        crate::opt::quad::block_base(x, space),
        crate::opt::quad::block_base(y, space),
    );
    assert(next[k] == crate::opt::quad::level_tile(tiles, width, height, space, x, y));
    assert(tiles[crate::opt::quad::cell(x, y, height)] == tiles[k]);
    assert(crate::opt::quad::tile_in_grid(
        tiles[crate::opt::quad::cell(x, y, height)],
        width,
        height,
        x,
        y,
    ));
    if (x == bx || x == bx + space) && (y == by || y == by + space)
        && crate::opt::quad::block_merges(tiles, width, height, space, bx, by) {
        assert(x == bx && y == by);
        assert(tiles[k].size.0 == tiles[k].size.1);
        let far = tiles[crate::opt::quad::cell(x + space, y + space, height)];
        assert(crate::opt::quad::tile_in_grid(far, width, height, x + space, y + space));
        let sx = if a < x + space {
            x
        } else {
            x + space
        };
        let sy = if b < y + space {
            y
        } else {
            y + space
        };
        let i = crate::opt::quad::cell(sx, sy, height);
        crate::opt::quad::lemma_cell(sx, sy, width, height);
        assert(crate::opt::quad::tile_in_grid(tiles[i], width, height, sx, sy));
        lemma_block_base_in(x, sx, space);
        lemma_block_base_in(y, sy, space);
        i
    } else {
        k
    }
}

/// The tile that a height next to a merged tile came from.
proof fn lemma_level_heir(
    tiles: Seq<TileModel>,
    width: int,
    height: int,
    space: int,
    k: int,
    h: u32,
) -> (i: int)
    requires
        crate::opt::quad::well_formed(tiles, width, height),
        crate::opt::quadgen::all_square(tiles),
        space >= 1,
        0 <= width <= u32::MAX,
        0 <= height <= u32::MAX,
        0 <= k < tiles.len(),
        crate::opt::quad::quad_level(tiles, width, height, space)[k].parent is None,
        crate::opt::quad::quad_level(tiles, width, height, space)[k].neighbors.contains(h),
    ensures
        0 <= i < tiles.len(),
        tiles[i].parent is None,
        tiles[i].neighbors.contains(h),
        level_owner(tiles, width, height, space, i) == k,
{
    let next = crate::opt::quad::quad_level(tiles, width, height, space);
    crate::opt::quad::lemma_index(k, width, height);
    let (x, y) = (k / height, k % height);
    let (bx, by) = (
        crate::opt::quad::block_base(x, space),
        crate::opt::quad::block_base(y, space),
    );
    assert(next[k] == crate::opt::quad::level_tile(tiles, width, height, space, x, y));
    assert(tiles[crate::opt::quad::cell(x, y, height)] == tiles[k]);
    if (x == bx || x == bx + space) && (y == by || y == by + space)
        && crate::opt::quad::block_merges(tiles, width, height, space, bx, by) {
        assert(x == bx && y == by);
        let sx = if tiles[crate::opt::quad::cell(x, y, height)].neighbors.contains(h)
            || tiles[crate::opt::quad::cell(x, y + space, height)].neighbors.contains(h) {
            x
        } else {
            x + space
        };
        let sy = if tiles[crate::opt::quad::cell(sx, y, height)].neighbors.contains(h) {
            y
        } else {
            y + space
        };
        let i = crate::opt::quad::cell(sx, sy, height);
        crate::opt::quad::lemma_cell(sx, sy, width, height);
        lemma_block_base_in(x, sx, space);
        lemma_block_base_in(y, sy, space);
        i
    } else {
        k
    }
}

/// The coordinates of a block have the block's first coordinate as their base.
proof fn lemma_block_base_in(base: int, x: int, space: int)
    requires
        space > 0,
        base >= 0,
        base == crate::opt::quad::block_base(base, space),
        x == base || x == base + space,
    ensures
        crate::opt::quad::block_base(x, space) == base,
{
    let m = 2 * space;
    vstd::arithmetic::div_mod::lemma_fundamental_div_mod(base, m);
    assert(m * (base / m) == (base / m) * m) by (nonlinear_arith);
    vstd::arithmetic::div_mod::lemma_fundamental_div_mod_converse(x, m, base / m, x - base);
}

/// Merging squares keeps the cover: a pass over unmerged squares neither uncovers a cell nor covers
/// one twice, shows the same heights and colors, and keeps to the brick unit cap where the merged
/// squares do.
pub proof fn merging_squares_keeps_the_cover<H: Heightmap + ?Sized, C: Colormap + ?Sized>(
    tiles: Seq<TileModel>,
    width: int,
    height: int,
    space: int,
    size: int,
    heightmap: &H,
    colormap: &C,
)
    requires
        crate::opt::quad::well_formed(tiles, width, height),
        crate::opt::quadgen::all_square(tiles),
        space >= 1,
        0 <= width <= u32::MAX,
        0 <= height <= u32::MAX,
        tiled_once(tiles, width, height),
        faithful(tiles, heightmap, colormap),
        all_capped(tiles, size),
        2 * space * size <= MAX_BRICK_UNITS,
    ensures
        tiled_once(
            crate::opt::quad::quad_level(tiles, width, height, space),
            width,
            height,
        ),
        faithful(
            crate::opt::quad::quad_level(tiles, width, height, space),
            heightmap,
            colormap,
        ),
        all_capped(crate::opt::quad::quad_level(tiles, width, height, space), size),
        knows_neighbors(tiles, heightmap) ==> knows_neighbors(
            crate::opt::quad::quad_level(tiles, width, height, space),
            heightmap,
        ),
{
    let next = crate::opt::quad::quad_level(tiles, width, height, space);
    let owner = Seq::new(tiles.len(), |k: int| level_owner(tiles, width, height, space, k));
    lemma_level_regroups(tiles, width, height, space);
    lemma_regroup(tiles, next, owner, width, height, heightmap, colormap);
    assert forall|k: int| 0 <= k < next.len() implies side_capped(
        (#[trigger] next[k]).size.0,
        size,
    ) && side_capped(next[k].size.1, size) by {
        crate::opt::quad::lemma_index(k, width, height);
        let (x, y) = (k / height, k % height);
        assert(tiles[crate::opt::quad::cell(x, y, height)] == tiles[k]);
        assert(side_capped(tiles[k].size.0, size) && side_capped(tiles[k].size.1, size));
        assert(tiles[k].size.0 == tiles[k].size.1);
        let far = tiles[crate::opt::quad::cell(x + space, y + space, height)];
        if crate::opt::quad::block_merges(tiles, width, height, space, x, y) {
            assert(crate::opt::quad::tile_in_grid(far, width, height, x + space, y + space));
        }
    }
}

/// The cells of the strip that a run from `(x, y)` spans: across as wide as the first tile, along
/// from `from` to `to` cells away.
pub open spec fn in_strip(
    first: TileModel,
    x: int,
    y: int,
    vertical: bool,
    from: int,
    to: int,
    a: int,
    b: int,
) -> bool {
    if vertical {
        x <= a < x + first.size.0 && y + from <= b < y + to
    } else {
        x + from <= a < x + to && y <= b < y + first.size.1
    }
}

/// A tile of the run holds the cell.
spec fn run_holds(tiles: Seq<TileModel>, run: Seq<usize>, a: int, b: int) -> bool {
    exists|k: int| 0 <= k < run.len() && tiles[(#[trigger] run[k]) as int].covers(a, b)
}

/// The tiles of a run hold exactly the cells of its strip.
proof fn lemma_run_strip(
    tiles: Seq<TileModel>,
    width: int,
    height: int,
    scale: int,
    x: int,
    y: int,
    vertical: bool,
    reach: int,
)
    requires
        crate::opt::quad::well_formed(tiles, width, height),
        width * height <= usize::MAX,
        scale >= 0,
        0 <= x < width,
        0 <= y < height,
        1 <= reach <= crate::opt::lines::room(width, height, x, y, vertical),
    ensures
        ({
            let run = crate::opt::lines::line_run(
                tiles,
                width,
                height,
                scale,
                x,
                y,
                vertical,
                reach,
            );
            let length = crate::opt::quad::line_length(tiles, run, vertical);
            forall|a: int, b: int|
                #[trigger] run_holds(tiles, run, a, b) <==> in_strip(
                    tiles[crate::opt::quad::cell(x, y, height)],
                    x,
                    y,
                    vertical,
                    reach,
                    reach + length,
                    a,
                    b,
                )
        }),
    decreases crate::opt::lines::room(width, height, x, y, vertical) - reach,
{
    let run = crate::opt::lines::line_run(tiles, width, height, scale, x, y, vertical, reach);
    let first = tiles[crate::opt::quad::cell(x, y, height)];
    assert(crate::opt::quad::tile_in_grid(first, width, height, x, y));
    if run.len() > 0 {
        let i = crate::opt::lines::step_cell(height, x, y, vertical, reach);
        let length = crate::opt::lines::along(tiles[i], vertical);
        let rest = crate::opt::lines::line_run(
            tiles,
            width,
            height,
            scale,
            x,
            y,
            vertical,
            reach + length,
        );
        let (tx, ty) = if vertical {
            (x, y + reach)
        } else {
            (x + reach, y)
        };
        crate::opt::quad::lemma_cell(tx, ty, width, height);
        assert(crate::opt::quad::tile_in_grid(
            tiles[crate::opt::quad::cell(tx, ty, height)],
            width,
            height,
            tx,
            ty,
        ));
        assert(run =~= seq![i as usize] + rest);
        lemma_run_strip(tiles, width, height, scale, x, y, vertical, reach + length);
        crate::opt::lines::lemma_run_shape(
            tiles,
            width,
            height,
            scale,
            x,
            y,
            vertical,
            reach + length,
        );
        crate::opt::lines::lemma_length_front(tiles, i as usize, rest, vertical);
        let total = crate::opt::quad::line_length(tiles, run, vertical);
        assert forall|a: int, b: int|
            #[trigger] run_holds(tiles, run, a, b) <==> in_strip(
                first,
                x,
                y,
                vertical,
                reach,
                reach + total,
                a,
                b,
            ) by {
            assert(tiles[i].covers(a, b) <==> in_strip(
                first,
                x,
                y,
                vertical,
                reach,
                reach + length,
                a,
                b,
            ));
            assert(run_holds(tiles, rest, a, b) <==> in_strip(
                first,
                x,
                y,
                vertical,
                reach + length,
                reach + total,
                a,
                b,
            ));
            if run_holds(tiles, run, a, b) {
                let k = choose|k: int|
                    0 <= k < run.len() && tiles[(#[trigger] run[k]) as int].covers(a, b);
                if k > 0 {
                    assert(tiles[rest[k - 1] as int].covers(a, b));
                }
            }
            if tiles[i].covers(a, b) {
                assert(tiles[run[0] as int].covers(a, b));
            }
            if run_holds(tiles, rest, a, b) {
                let k = choose|k: int|
                    0 <= k < rest.len() && tiles[(#[trigger] rest[k]) as int].covers(a, b);
                assert(run[k + 1] == rest[k]);
            }
        }
    } else {
        assert(crate::opt::quad::line_length(tiles, run, vertical) == 0);
    }
}

/// Taking over a run keeps the cover.
proof fn lemma_line_step_cover<H: Heightmap + ?Sized, C: Colormap + ?Sized>(
    tiles: Seq<TileModel>,
    width: int,
    height: int,
    scale: int,
    x: int,
    y: int,
    heightmap: &H,
    colormap: &C,
)
    requires
        crate::opt::quad::well_formed(tiles, width, height),
        width * height <= usize::MAX,
        width <= u32::MAX,
        height <= u32::MAX,
        scale >= 0,
        0 <= x < width,
        0 <= y < height,
        tiled_once(tiles, width, height),
        faithful(tiles, heightmap, colormap),
    ensures
        ({
            let next = crate::opt::lines::line_step(tiles, width, height, scale, x, y);
            &&& crate::opt::quad::well_formed(next, width, height)
            &&& tiled_once(next, width, height)
            &&& faithful(next, heightmap, colormap)
            &&& knows_neighbors(tiles, heightmap) ==> knows_neighbors(next, heightmap)
            &&& grows_between(
                tiles,
                next,
                scale,
                crate::opt::quad::cell(x, y, height),
                crate::opt::quad::cell(x, y, height) + 1,
            )
        }),
{
    let i = crate::opt::quad::cell(x, y, height);
    crate::opt::quad::lemma_cell(x, y, width, height);
    let next = crate::opt::lines::line_step(tiles, width, height, scale, x, y);
    let first = tiles[i];
    assert(crate::opt::quad::tile_in_grid(first, width, height, x, y));
    let run = crate::opt::lines::best_run(tiles, width, height, scale, x, y);
    if first.parent is None && run.len() > 0 {
        let right = crate::opt::lines::line_run(
            tiles,
            width,
            height,
            scale,
            x,
            y,
            false,
            first.size.0 as int,
        );
        let vertical = !(right.len() > crate::opt::lines::line_run(
            tiles,
            width,
            height,
            scale,
            x,
            y,
            true,
            first.size.1 as int,
        ).len());
        let reach = crate::opt::lines::along(first, vertical);
        crate::opt::lines::lemma_run_shape(tiles, width, height, scale, x, y, vertical, reach);
        crate::opt::lines::lemma_run_direction(
            tiles,
            width,
            height,
            scale,
            x,
            y,
            vertical,
            reach,
            run,
        );
        crate::opt::lines::lemma_line_step(tiles, width, height, scale, x, y);
        lemma_run_strip(tiles, width, height, scale, x, y, vertical, reach);
        let length = crate::opt::quad::line_length(tiles, run, vertical);
        assert forall|k: int| 0 <= k < run.len() implies {
            let r = #[trigger] run[k] as int;
            &&& 0 <= r < tiles.len()
            &&& r != i
            &&& tiles[r].parent is None
            &&& tiles[r].height == first.height
            &&& tiles[r].color == first.color
        } by {
            assert(crate::opt::lines::is_run_tile(
                tiles,
                width,
                height,
                x,
                y,
                vertical,
                reach,
                run[k],
            ));
        }
        assert(!crate::opt::quad::listed(run, i));
        let grown = next[i];
        assert forall|a: int, b: int|
            #[trigger] grown.covers(a, b) <==> first.covers(a, b) || run_holds(
                tiles,
                run,
                a,
                b,
            ) by {
            assert(run_holds(tiles, run, a, b) <==> in_strip(
                first,
                x,
                y,
                vertical,
                reach,
                reach + length,
                a,
                b,
            ));
        }
        let owner = Seq::new(
            tiles.len(),
            |k: int|
                if crate::opt::quad::listed(run, k) {
                    i
                } else {
                    k
                },
        );
        lemma_line_regroups(tiles, next, owner, run, i);
        lemma_regroup(tiles, next, owner, width, height, heightmap, colormap);
        assert(grows_in_line(first, grown, scale));
    }
}

proof fn lemma_line_regroups(
    tiles: Seq<TileModel>,
    next: Seq<TileModel>,
    owner: Seq<int>,
    run: Seq<usize>,
    i: int,
)
    requires
        0 <= i < tiles.len(),
        tiles[i].parent is None,
        next.len() == tiles.len(),
        !crate::opt::quad::listed(run, i),
        forall|k: int|
            0 <= k < run.len() ==> {
                let r = #[trigger] run[k] as int;
                &&& 0 <= r < tiles.len()
                &&& r != i
                &&& tiles[r].parent is None
                &&& tiles[r].height == tiles[i].height
                &&& tiles[r].color == tiles[i].color
            },
        forall|k: int|
            0 <= k < tiles.len() && k != i ==> #[trigger] next[k]
                == if crate::opt::quad::listed(run, k) {
                tiles[k].adopted(i as usize)
            } else {
                tiles[k]
            },
        next[i].parent is None,
        next[i].height == tiles[i].height,
        next[i].color == tiles[i].color,
        next[i].neighbors == tiles[i].neighbors.union(
            crate::opt::quad::line_neighbors(tiles, run),
        ),
        forall|a: int, b: int|
            #[trigger] next[i].covers(a, b) <==> tiles[i].covers(a, b) || run_holds(
                tiles,
                run,
                a,
                b,
            ),
        owner == Seq::new(
            tiles.len(),
            |k: int|
                if crate::opt::quad::listed(run, k) {
                    i
                } else {
                    k
                },
        ),
    ensures
        regroups(tiles, next, owner),
{
    assert forall|k: int| 0 <= k < tiles.len() && tiles[k].parent is None implies {
        &&& 0 <= #[trigger] owner[k] < next.len()
        &&& next[owner[k]].height == tiles[k].height
        &&& next[owner[k]].color == tiles[k].color
        &&& tiles[k].neighbors.subset_of(next[owner[k]].neighbors)
    } by {
        if crate::opt::quad::listed(run, k) {
            let n = choose|n: int| 0 <= n < run.len() && #[trigger] run[n] == k;
            assert(run[n] == k);
            lemma_line_neighbors_hold(tiles, run, n);
        }
    }
    assert forall|k: int, h: u32|
        0 <= k < next.len() && next[k].parent is None
            && #[trigger] next[k].neighbors.contains(h) implies is_inherited(
        tiles,
        owner,
        k,
        h,
    ) by {
        if k == i {
            if tiles[i].neighbors.contains(h) {
                assert(owner[i] == i);
            } else {
                let n = lemma_line_neighbor_of(tiles, run, h);
                let r = run[n] as int;
                assert(crate::opt::quad::listed(run, r));
                assert(owner[r] == i && tiles[r].neighbors.contains(h));
            }
        } else {
            assert(!crate::opt::quad::listed(run, k));
            assert(owner[k] == k && tiles[k].neighbors.contains(h));
        }
    }
    assert forall|k: int, a: int, b: int| #[trigger] live_cover(tiles, k, a, b) implies live_cover(
        next,
        owner[k],
        a,
        b,
    ) by {
        if crate::opt::quad::listed(run, k) {
            let n = choose|n: int| 0 <= n < run.len() && #[trigger] run[n] == k;
            assert(tiles[run[n] as int].covers(a, b));
            assert(run_holds(tiles, run, a, b));
            assert(next[i].covers(a, b));
        } else if k == i {
            assert(next[i].covers(a, b));
        }
    }
    assert forall|k: int, a: int, b: int| #[trigger] live_cover(next, k, a, b) implies is_owned(
        tiles,
        owner,
        k,
        a,
        b,
    ) by {
        if k == i {
            assert(next[i].covers(a, b));
            if tiles[i].covers(a, b) {
                assert(live_cover(tiles, i, a, b) && owner[i] == i);
            } else {
                let n = choose|n: int|
                    0 <= n < run.len() && tiles[(#[trigger] run[n]) as int].covers(a, b);
                let r = run[n] as int;
                assert(crate::opt::quad::listed(run, r));
                assert(live_cover(tiles, r, a, b) && owner[r] == i);
            }
        } else {
            assert(!crate::opt::quad::listed(run, k));
            assert(live_cover(tiles, k, a, b) && owner[k] == k);
        }
    }
}

/// What is next to a tile of a run is next to the run.
proof fn lemma_line_neighbors_hold(tiles: Seq<TileModel>, children: Seq<usize>, n: int)
    requires
        0 <= n < children.len(),
    ensures
        tiles[children[n] as int].neighbors.subset_of(
            crate::opt::quad::line_neighbors(tiles, children),
        ),
    decreases children.len(),
{
    if n < children.len() - 1 {
        lemma_line_neighbors_hold(tiles, children.drop_last(), n);
    }
}

/// What is next to a run is next to one of its tiles.
proof fn lemma_line_neighbor_of(tiles: Seq<TileModel>, children: Seq<usize>, h: u32) -> (n: int)
    requires
        crate::opt::quad::line_neighbors(tiles, children).contains(h),
    ensures
        0 <= n < children.len(),
        tiles[children[n] as int].neighbors.contains(h),
    decreases children.len(),
{
    if children.len() == 0 {
        0
    } else if tiles[children.last() as int].neighbors.contains(h) {
        children.len() - 1
    } else {
        lemma_line_neighbor_of(tiles, children.drop_last(), h)
    }
}

/// Every tile's height, and every height next to it, is at most `limit`.
pub open spec fn all_below(tiles: Seq<TileModel>, limit: u32) -> bool {
    forall|i: int| 0 <= i < tiles.len() ==> tile_below(#[trigger] tiles[i], limit)
}

pub open spec fn tile_below(tile: TileModel, limit: u32) -> bool {
    tile.height <= limit && forall|h: u32| #[trigger] tile.neighbors.contains(h) ==> h <= limit
}

proof fn lemma_line_neighbors_below(tiles: Seq<TileModel>, children: Seq<usize>, limit: u32)
    requires
        all_below(tiles, limit),
        forall|k: int| 0 <= k < children.len() ==> #[trigger] children[k] < tiles.len(),
    ensures
        forall|h: u32|
            #[trigger] crate::opt::quad::line_neighbors(tiles, children).contains(h) ==> h
                <= limit,
    decreases children.len(),
{
    if children.len() > 0 {
        let rest = children.drop_last();
        assert forall|k: int| 0 <= k < rest.len() implies #[trigger] rest[k] < tiles.len() by {
            assert(rest[k] == children[k]);
        }
        lemma_line_neighbors_below(tiles, rest, limit);
        assert(children[children.len() - 1] == children.last());
        let last = tiles[children.last() as int];
        assert(tile_below(last, limit));
        assert forall|h: u32|
            #[trigger] crate::opt::quad::line_neighbors(tiles, children).contains(h) implies h
            <= limit by {
            assert(crate::opt::quad::line_neighbors(tiles, rest).contains(h)
                || last.neighbors.contains(h));
        }
    }
}

proof fn lemma_line_step_below(
    tiles: Seq<TileModel>,
    width: int,
    height: int,
    scale: int,
    x: int,
    y: int,
    limit: u32,
)
    requires
        crate::opt::quad::well_formed(tiles, width, height),
        width * height <= usize::MAX,
        width <= u32::MAX,
        height <= u32::MAX,
        scale >= 0,
        0 <= x < width,
        0 <= y < height,
        all_below(tiles, limit),
    ensures
        all_below(crate::opt::lines::line_step(tiles, width, height, scale, x, y), limit),
{
    let i = crate::opt::quad::cell(x, y, height);
    crate::opt::quad::lemma_cell(x, y, width, height);
    crate::opt::lines::lemma_run_lengths(tiles, width, height, scale, x, y);
    let run = crate::opt::lines::best_run(tiles, width, height, scale, x, y);
    lemma_line_neighbors_below(tiles, run, limit);
    let next = crate::opt::lines::line_step(tiles, width, height, scale, x, y);
    assert forall|k: int| 0 <= k < next.len() implies tile_below(#[trigger] next[k], limit) by {
        assert(tile_below(tiles[k], limit));
    }
}

proof fn lemma_level_below(
    tiles: Seq<TileModel>,
    width: int,
    height: int,
    space: int,
    limit: u32,
)
    requires
        crate::opt::quad::well_formed(tiles, width, height),
        0 <= width,
        0 <= height,
        space >= 1,
        all_below(tiles, limit),
    ensures
        all_below(crate::opt::quad::quad_level(tiles, width, height, space), limit),
{
    let next = crate::opt::quad::quad_level(tiles, width, height, space);
    assert forall|k: int| 0 <= k < next.len() implies tile_below(#[trigger] next[k], limit) by {
        crate::opt::quad::lemma_index(k, width, height);
        let (x, y) = (k / height, k % height);
        assert(tiles[crate::opt::quad::cell(x, y, height)] == tiles[k]);
        assert(tile_below(tiles[k], limit));
        if x + space < width && y + space < height {
            crate::opt::quad::lemma_cell(x + space, y, width, height);
            crate::opt::quad::lemma_cell(x, y + space, width, height);
            crate::opt::quad::lemma_cell(x + space, y + space, width, height);
            assert(tile_below(tiles[crate::opt::quad::cell(x + space, y, height)], limit));
            assert(tile_below(tiles[crate::opt::quad::cell(x, y + space, height)], limit));
            assert(tile_below(
                tiles[crate::opt::quad::cell(x + space, y + space, height)],
                limit,
            ));
        }
    }
}

/// The unmerged tiles hold every cell of the map exactly once, each with the height and the color
/// that the map has in all its cells.
pub open spec fn is_tiling<H: Heightmap + ?Sized, C: Colormap + ?Sized>(
    tiles: Seq<TileModel>,
    heightmap: &H,
    colormap: &C,
) -> bool {
    let (width, height) = heightmap.dims();
    &&& crate::opt::quad::well_formed(tiles, width as int, height as int)
    &&& tiled_once(tiles, width as int, height as int)
    &&& faithful(tiles, heightmap, colormap)
}

/// What every merge pass keeps of the tiles of a map whose heights are at most `limit`, in cells of
/// `size` units.
pub open spec fn is_cover<H: Heightmap + ?Sized, C: Colormap + ?Sized>(
    tiles: Seq<TileModel>,
    heightmap: &H,
    colormap: &C,
    size: int,
    limit: u32,
) -> bool {
    &&& is_tiling(tiles, heightmap, colormap)
    &&& all_capped(tiles, size)
    &&& all_below(tiles, limit)
}

/// No height of the map is above `limit`.
pub open spec fn heights_below<H: Heightmap + ?Sized>(heightmap: &H, limit: u32) -> bool {
    forall|x: int, y: int|
        0 <= x < heightmap.dims().0 && 0 <= y < heightmap.dims().1
            ==> #[trigger] heightmap.height_at(x, y) <= limit
}

proof fn lemma_initial_cover<H: Heightmap + ?Sized, C: Colormap + ?Sized>(
    heightmap: &H,
    colormap: &C,
    size: int,
    limit: u32,
)
    requires
        heights_below(heightmap, limit),
    ensures
        is_cover(
            crate::opt::quadgen::initial_tiles(heightmap, colormap),
            heightmap,
            colormap,
            size,
            limit,
        ),
        crate::opt::quadgen::all_square(
            crate::opt::quadgen::initial_tiles(heightmap, colormap),
        ),
        knows_neighbors(crate::opt::quadgen::initial_tiles(heightmap, colormap), heightmap),
{
    lemma_initial_neighbors(heightmap, colormap);
    let tiles = crate::opt::quadgen::initial_tiles(heightmap, colormap);
    let (width, height) = (heightmap.dims().0 as int, heightmap.dims().1 as int);
    assert(0 <= width * height) by (nonlinear_arith)
        requires
            0 <= width,
            0 <= height,
    ;
    assert forall|x: int, y: int|
        0 <= x < width && 0 <= y < height implies crate::opt::quad::tile_in_grid(
        #[trigger] tiles[crate::opt::quad::cell(x, y, height)],
        width,
        height,
        x,
        y,
    ) by {
        crate::opt::quad::lemma_cell(x, y, width, height);
    }
    assert forall|a: int, b: int| 0 <= a < width && 0 <= b < height implies #[trigger] is_covered(
        tiles,
        a,
        b,
    ) by {
        crate::opt::quad::lemma_cell(a, b, width, height);
        assert(live_cover(tiles, crate::opt::quad::cell(a, b, height), a, b));
    }
    assert forall|i: int, a: int, b: int| #[trigger] live_cover(tiles, i, a, b) implies a == i
        / height && b == i % height && i == crate::opt::quad::cell(a, b, height)
        && tiles[i].height == heightmap.height_at(a, b) && tiles[i].color == colormap.color_at(
        a,
        b,
    ) by {
        crate::opt::quad::lemma_index(i, width, height);
    }
    assert forall|i: int| 0 <= i < tiles.len() implies tile_below(#[trigger] tiles[i], limit) by {
        crate::opt::quad::lemma_index(i, width, height);
        let (x, y) = (i / height, i % height);
        assert(heightmap.height_at(x, y) <= limit);
        if x > 0 {
            assert(heightmap.height_at(x - 1, y) <= limit);
        }
        if x + 1 < width {
            assert(heightmap.height_at(x + 1, y) <= limit);
        }
        if y > 0 {
            assert(heightmap.height_at(x, y - 1) <= limit);
        }
        if y + 1 < height {
            assert(heightmap.height_at(x, y + 1) <= limit);
        }
    }
}

/// A single cell knows the heights of the cells beside it.
proof fn lemma_initial_neighbors<H: Heightmap + ?Sized, C: Colormap + ?Sized>(
    heightmap: &H,
    colormap: &C,
)
    ensures
        knows_neighbors(crate::opt::quadgen::initial_tiles(heightmap, colormap), heightmap),
{
    let tiles = crate::opt::quadgen::initial_tiles(heightmap, colormap);
    let (width, height) = (heightmap.dims().0 as int, heightmap.dims().1 as int);
    assert(0 <= width * height) by (nonlinear_arith)
        requires
            0 <= width,
            0 <= height,
    ;
    assert forall|i: int, a: int, b: int, c: int, d: int|
        #[trigger] live_cover(tiles, i, a, b) && #[trigger] adjacent(a, b, c, d) && 0 <= c < width
            && 0 <= d < height implies tiles[i].neighbors.contains(heightmap.height_at(c, d)) by {
        crate::opt::quad::lemma_index(i, width, height);
    }
    assert forall|i: int, h: u32|
        0 <= i < tiles.len() && tiles[i].parent is None
            && #[trigger] tiles[i].neighbors.contains(h) implies is_beside(
        tiles,
        heightmap,
        i,
        h,
    ) by {
        crate::opt::quad::lemma_index(i, width, height);
        let (x, y) = (i / height, i % height);
        assert(live_cover(tiles, i, x, y));
        if x > 0 && h == heightmap.height_at(x - 1, y) {
            assert(adjacent(x, y, x - 1, y));
        } else if x + 1 < width && h == heightmap.height_at(x + 1, y) {
            assert(adjacent(x, y, x + 1, y));
        } else if y > 0 && h == heightmap.height_at(x, y - 1) {
            assert(adjacent(x, y, x, y - 1));
        } else {
            assert(adjacent(x, y, x, y + 1));
        }
    }
}

proof fn lemma_quad_passes_cover<H: Heightmap + ?Sized, C: Colormap + ?Sized>(
    tiles: Seq<TileModel>,
    heightmap: &H,
    colormap: &C,
    size: int,
    limit: u32,
    level: nat,
)
    requires
        is_cover(tiles, heightmap, colormap, size, limit),
        crate::opt::quadgen::all_square(tiles),
    ensures
        is_cover(
            crate::opt::quadgen::quad_passes(
                tiles,
                heightmap.dims().0 as int,
                heightmap.dims().1 as int,
                size,
                level,
            ),
            heightmap,
            colormap,
            size,
            limit,
        ),
        knows_neighbors(tiles, heightmap) ==> knows_neighbors(
            crate::opt::quadgen::quad_passes(
                tiles,
                heightmap.dims().0 as int,
                heightmap.dims().1 as int,
                size,
                level,
            ),
            heightmap,
        ),
    decreases crate::opt::quad::live(tiles),
{
    let (width, height) = (heightmap.dims().0 as int, heightmap.dims().1 as int);
    if vstd::arithmetic::power2::pow2(level + 1) * size < MAX_BRICK_UNITS {
        let space = vstd::arithmetic::power2::pow2(level) as int;
        vstd::arithmetic::power2::lemma_pow2_pos(level);
        vstd::arithmetic::power2::lemma_pow2_unfold(level + 1);
        let next = crate::opt::quad::quad_level(tiles, width, height, space);
        crate::opt::quadgen::lemma_quad_level(tiles, width, height, space);
        merging_squares_keeps_the_cover(tiles, width, height, space, size, heightmap, colormap);
        lemma_level_below(tiles, width, height, space, limit);
        crate::opt::quad::lemma_live_bounds(next);
        crate::opt::quad::lemma_live_bounds(tiles);
        if crate::opt::quad::live(next) < crate::opt::quad::live(tiles) && crate::opt::quad::live(
            tiles,
        ) > 0 {
            lemma_quad_passes_cover(next, heightmap, colormap, size, limit, level + 1);
        }
    }
}

proof fn lemma_line_rows_cover<H: Heightmap + ?Sized, C: Colormap + ?Sized>(
    tiles: Seq<TileModel>,
    heightmap: &H,
    colormap: &C,
    size: int,
    x: int,
    rows: nat,
)
    requires
        is_tiling(tiles, heightmap, colormap),
        heightmap.dims().0 * heightmap.dims().1 <= usize::MAX,
        size >= 0,
        0 <= x < heightmap.dims().0,
        rows <= heightmap.dims().1,
    ensures
        ({
            let (width, height) = (heightmap.dims().0 as int, heightmap.dims().1 as int);
            let next = crate::opt::lines::line_rows(tiles, width, height, size, x, rows);
            &&& is_tiling(next, heightmap, colormap)
            &&& knows_neighbors(tiles, heightmap) ==> knows_neighbors(next, heightmap)
            &&& grows_between(tiles, next, size, x * height, x * height + rows)
        }),
    decreases rows,
{
    let (width, height) = (heightmap.dims().0 as int, heightmap.dims().1 as int);
    if rows > 0 {
        let y = (rows - 1) as nat;
        lemma_line_rows_cover(tiles, heightmap, colormap, size, x, y);
        let before = crate::opt::lines::line_rows(tiles, width, height, size, x, y);
        lemma_line_step_cover(before, width, height, size, x, y as int, heightmap, colormap);
        let next = crate::opt::lines::line_step(before, width, height, size, x, y as int);
        let start = x * height;
        lemma_grows_on(tiles, before, next, size, start, start + y, start + rows);
    }
}

proof fn lemma_line_columns_cover<H: Heightmap + ?Sized, C: Colormap + ?Sized>(
    tiles: Seq<TileModel>,
    heightmap: &H,
    colormap: &C,
    size: int,
    columns: nat,
)
    requires
        is_tiling(tiles, heightmap, colormap),
        heightmap.dims().0 * heightmap.dims().1 <= usize::MAX,
        size >= 0,
        columns <= heightmap.dims().0,
    ensures
        ({
            let (width, height) = (heightmap.dims().0 as int, heightmap.dims().1 as nat);
            let next = crate::opt::lines::line_columns(tiles, width, height, size, columns);
            &&& is_tiling(next, heightmap, colormap)
            &&& knows_neighbors(tiles, heightmap) ==> knows_neighbors(next, heightmap)
            &&& grows_between(tiles, next, size, 0, (columns * height) as int)
        }),
    decreases columns,
{
    let (width, height) = (heightmap.dims().0 as int, heightmap.dims().1 as nat);
    if columns > 0 {
        let x = (columns - 1) as nat;
        lemma_line_columns_cover(tiles, heightmap, colormap, size, x);
        let before = crate::opt::lines::line_columns(tiles, width, height, size, x);
        lemma_line_rows_cover(before, heightmap, colormap, size, x as int, height);
        let next = crate::opt::lines::line_rows(
            before,
            width,
            height as int,
            size,
            x as int,
            height,
        );
        assert(0 <= x * height && x * height + height == columns * height) by (nonlinear_arith)
            requires
                columns == x + 1,
                0 <= x,
                0 <= height,
        ;
        lemma_grows_on(
            tiles,
            before,
            next,
            size,
            0,
            x * height as int,
            columns * height as int,
        );
    }
}

proof fn lemma_line_columns_below(
    tiles: Seq<TileModel>,
    width: int,
    height: nat,
    size: int,
    limit: u32,
    columns: nat,
    rows: nat,
)
    requires
        crate::opt::quad::well_formed(tiles, width, height as int),
        width * height <= usize::MAX,
        width <= u32::MAX,
        height <= u32::MAX,
        size >= 0,
        columns < width || (columns == width && rows == 0),
        rows <= height,
        all_below(tiles, limit),
    ensures
        ({
            let before = crate::opt::lines::line_columns(tiles, width, height, size, columns);
            let next = crate::opt::lines::line_rows(
                before,
                width,
                height as int,
                size,
                columns as int,
                rows,
            );
            crate::opt::quad::well_formed(next, width, height as int) && all_below(next, limit)
        }),
    decreases columns, rows,
{
    let before = crate::opt::lines::line_columns(tiles, width, height, size, columns);
    if rows > 0 {
        let y = (rows - 1) as nat;
        lemma_line_columns_below(tiles, width, height, size, limit, columns, y);
        let last = crate::opt::lines::line_rows(
            before,
            width,
            height as int,
            size,
            columns as int,
            y,
        );
        lemma_line_step_below(last, width, height as int, size, columns as int, y as int, limit);
        if last[crate::opt::quad::cell(columns as int, y as int, height as int)].parent is None {
            crate::opt::lines::lemma_line_step(
                last,
                width,
                height as int,
                size,
                columns as int,
                y as int,
            );
        }
    } else if columns > 0 {
        lemma_line_columns_below(tiles, width, height, size, limit, (columns - 1) as nat, height);
    }
}

/// Merging lines keeps the cover, whatever the tiles were merged from: a pass that merges tiles in
/// lines neither uncovers a cell nor covers one twice, and shows the same heights and colors; a tile
/// that grew did so along exactly one axis, on which it keeps to the brick unit cap.
pub proof fn merging_lines_keeps_the_cover<H: Heightmap + ?Sized, C: Colormap + ?Sized>(
    tiles: Seq<TileModel>,
    heightmap: &H,
    colormap: &C,
    size: int,
)
    requires
        is_tiling(tiles, heightmap, colormap),
        heightmap.dims().0 * heightmap.dims().1 <= usize::MAX,
        size >= 0,
    ensures
        ({
            let (width, height) = heightmap.dims();
            let next = crate::opt::lines::line_columns(
                tiles,
                width as int,
                height as nat,
                size,
                width as nat,
            );
            &&& is_tiling(next, heightmap, colormap)
            &&& all_grow_in_line(tiles, next, size)
            &&& all_capped(tiles, size) ==> all_capped(next, size)
            &&& knows_neighbors(tiles, heightmap) ==> knows_neighbors(next, heightmap)
        }),
{
    let (width, height) = heightmap.dims();
    lemma_line_columns_cover(tiles, heightmap, colormap, size, width as nat);
    let next = crate::opt::lines::line_columns(
        tiles,
        width as int,
        height as nat,
        size,
        width as nat,
    );
    if all_capped(tiles, size) {
        assert forall|k: int| 0 <= k < next.len() implies side_capped(
            (#[trigger] next[k]).size.0,
            size,
        ) && side_capped(next[k].size.1, size) by {
            assert(side_capped(tiles[k].size.0, size) && side_capped(tiles[k].size.1, size));
            assert(grows_in_line(tiles[k], next[k], size));
        }
    }
}

proof fn lemma_line_passes_cover<H: Heightmap + ?Sized, C: Colormap + ?Sized>(
    tiles: Seq<TileModel>,
    heightmap: &H,
    colormap: &C,
    size: int,
    limit: u32,
    left: nat,
)
    requires
        is_cover(tiles, heightmap, colormap, size, limit),
        heightmap.dims().0 * heightmap.dims().1 <= u32::MAX,
        size >= 0,
    ensures
        is_cover(
            crate::opt::quadgen::line_passes(
                tiles,
                heightmap.dims().0 as nat,
                heightmap.dims().1 as nat,
                size,
                left,
            ),
            heightmap,
            colormap,
            size,
            limit,
        ),
        knows_neighbors(tiles, heightmap) ==> knows_neighbors(
            crate::opt::quadgen::line_passes(
                tiles,
                heightmap.dims().0 as nat,
                heightmap.dims().1 as nat,
                size,
                left,
            ),
            heightmap,
        ),
    decreases left,
{
    let (width, height) = (heightmap.dims().0 as nat, heightmap.dims().1 as nat);
    if left > 0 {
        merging_lines_keeps_the_cover(tiles, heightmap, colormap, size);
        lemma_line_columns_below(tiles, width as int, height, size, limit, width, 0);
        let next = crate::opt::lines::line_columns(tiles, width as int, height, size, width);
        if crate::opt::quad::live(next) != crate::opt::quad::live(tiles) {
            lemma_line_passes_cover(next, heightmap, colormap, size, limit, (left - 1) as nat);
        }
    }
}

/// After all merge passes the unmerged tiles still cover every cell of the map exactly once, each
/// with the height and the color that the map has in all its cells, and no tile of more than one
/// cell exceeds the brick unit cap. The heights noted with a tile are those of the cells around it.
pub proof fn merged_tiles_cover_the_map_once<H: Heightmap + ?Sized, C: Colormap + ?Sized>(
    heightmap: &H,
    colormap: &C,
    options: crate::util::GenOptions,
    limit: u32,
)
    requires
        heights_below(heightmap, limit),
        heightmap.dims().0 * heightmap.dims().1 <= u32::MAX,
    ensures
        is_cover(
            crate::opt::quadgen::merged_tiles(heightmap, colormap, options),
            heightmap,
            colormap,
            options.size as int,
            limit,
        ),
        knows_neighbors(
            crate::opt::quadgen::merged_tiles(heightmap, colormap, options),
            heightmap,
        ),
{
    let (width, height) = (heightmap.dims().0 as int, heightmap.dims().1 as int);
    let size = options.size as int;
    let cells = crate::opt::quadgen::initial_tiles(heightmap, colormap);
    lemma_initial_cover(heightmap, colormap, size, limit);
    lemma_quad_passes_cover(cells, heightmap, colormap, size, limit, 0);
    let squares = if options.quadtree {
        crate::opt::quadgen::quad_passes(cells, width, height, size, 0)
    } else {
        cells
    };
    lemma_line_passes_cover(
        squares,
        heightmap,
        colormap,
        size,
        limit,
        crate::opt::quadgen::MAX_LINEAR_PASSES as nat,
    );
}

} // verus!
