//! Bricks of the unmerged tiles of a quadtree.
use crate::brick::Brick;
use crate::opt::column::{emit_column_bricks, BrickColumn};
use crate::opt::generate::reinterpret;
use crate::opt::quad::{QuadTree, Tile, TileModel};
use crate::util::GenOptions;
use vstd::prelude::*;

verus! {

/// The lowest height of a set, zero for the empty set.
pub open spec fn lowest(heights: Set<u32>) -> u32 {
    if heights == Set::<u32>::empty() {
        0
    } else {
        choose|m: u32| is_lowest(heights, m)
    }
}

/// `m` is the smallest element.
pub open spec fn is_lowest(heights: Set<u32>, m: u32) -> bool {
    heights.contains(m) && forall|h: u32| heights.contains(h) ==> m <= h
}

/// Remainder with the sign of the dividend.
pub open spec fn signed_rem(a: int, b: int) -> int {
    if a >= 0 {
        a % b
    } else {
        -((-a) % b)
    }
}

/// Height from a tile down to its lowest neighbor, at least two.
pub open spec fn drop_height(tile: TileModel) -> int {
    let raw = crate::opt::generate::wrap_i32(tile.height as int)
        - crate::opt::generate::wrap_i32(lowest(tile.neighbors) as int) + 1;
    if raw > 2 {
        raw
    } else {
        2
    }
}

/// Height to fill for a tile, before snapping.
pub open spec fn tile_fill(options: GenOptions, tile: TileModel) -> int {
    let filled = drop_height(tile) * crate::opt::generate::wrap_i32(options.scale as int) / 2;
    if filled > 2 {
        filled
    } else {
        2
    }
}

/// Grid Z of a tile's top: snapping moves it up to the next multiple of four.
pub open spec fn tile_z(options: GenOptions, tile: TileModel) -> int {
    let z = crate::opt::generate::wrap_i32(options.scale * tile.height);
    if options.snap {
        z + 4 - signed_rem(z, 4)
    } else {
        z
    }
}

/// Height to fill for a tile: snapping raises it to the next multiple of four.
pub open spec fn tile_height(options: GenOptions, tile: TileModel) -> int {
    let fill = tile_fill(options, tile);
    if options.snap {
        fill + 4 - fill % 4
    } else {
        fill
    }
}

/// Whether a tile emits bricks: merged tiles do not, nor culled ones.
pub open spec fn tile_emits(options: GenOptions, tile: TileModel) -> bool {
    tile.parent is None && !(options.cull && (tile.height == 0 || tile.color[3] == 0))
}

/// The column a tile stands for.
pub open spec fn tile_column(
    options: GenOptions,
    tile: TileModel,
    origin: (int, int),
) -> BrickColumn {
    BrickColumn {
        z: tile_z(options, tile) as i32,
        desired_height: tile_height(options, tile) as i32,
        size_x: (tile.size.0 * options.size) as u16,
        size_y: (tile.size.1 * options.size) as u16,
        pos_x: ((tile.center.0 * 2 + tile.size.0) * options.size + origin.0) as i32,
        pos_y: ((tile.center.1 * 2 + tile.size.1) * options.size + origin.1) as i32,
        color: tile.color,
    }
}

/// The bricks of one tile.
pub open spec fn tile_bricks(options: GenOptions, tile: TileModel, origin: (int, int)) -> Seq<
    Brick,
> {
    if tile_emits(options, tile) {
        crate::opt::column::column_bricks(options, tile_column(options, tile, origin))
    } else {
        Seq::empty()
    }
}

/// The bricks of all tiles, in storage order.
pub open spec fn all_tile_bricks(
    options: GenOptions,
    tiles: Seq<TileModel>,
    origin: (int, int),
) -> Seq<Brick>
    decreases tiles.len(),
{
    if tiles.len() == 0 {
        Seq::empty()
    } else {
        all_tile_bricks(options, tiles.drop_last(), origin) + tile_bricks(
            options,
            tiles.last(),
            origin,
        )
    }
}

/// The corner of a map of this size centered on the origin.
pub open spec fn centered(options: GenOptions, width: u32, height: u32) -> (int, int) {
    (-(width * options.size), -(height * options.size))
}

/// The arithmetic for the tile's column stays inside the machine integers.
pub open spec fn tile_fits(options: GenOptions, tile: TileModel, origin: (int, int)) -> bool {
    tile_emits(options, tile) ==> {
        let drop = crate::opt::generate::wrap_i32(tile.height as int)
            - crate::opt::generate::wrap_i32(lowest(tile.neighbors) as int);
        let product = drop_height(tile) * crate::opt::generate::wrap_i32(options.scale as int);
        &&& options.scale * tile.height <= u32::MAX
        &&& i32::MIN <= drop && drop + 1 <= i32::MAX
        &&& i32::MIN <= product <= i32::MAX
        &&& tile_z(options, tile) <= i32::MAX
        &&& tile_height(options, tile) <= i32::MAX
        &&& crate::opt::column::stack_fits(
            options,
            tile_z(options, tile),
            tile_height(options, tile),
        )
        &&& tile.size.0 <= u16::MAX && tile.size.0 * options.size <= u16::MAX
        &&& tile.size.1 <= u16::MAX && tile.size.1 * options.size <= u16::MAX
        &&& tile.center.0 * 2 + tile.size.0 <= i32::MAX
        &&& tile.center.1 * 2 + tile.size.1 <= i32::MAX
        &&& (tile.center.0 * 2 + tile.size.0) * options.size <= i32::MAX
        &&& (tile.center.1 * 2 + tile.size.1) * options.size <= i32::MAX
    }
}

proof fn lemma_lowest(heights: Set<u32>, m: u32)
    requires
        is_lowest(heights, m),
    ensures
        lowest(heights) == m,
{
    assert(heights != Set::<u32>::empty());
    let c = lowest(heights);
    assert(is_lowest(heights, c));
}

fn rem_four(z: i32) -> (r: i32)
    ensures
        r == signed_rem(z as int, 4),
{
    if z >= 0 {
        z % 4
    } else if z > -4 {
        z
    } else {
        let up: i32 = -(z + 4);
        -(up % 4)
    }
}

/// Append the bricks of one tile.
fn place_tile(out: &mut Vec<Brick>, options: &GenOptions, t: &Tile, origin: (i32, i32))
    requires
        tile_fits(*options, t@, (origin.0 as int, origin.1 as int)),
        origin.0 <= 0,
        origin.1 <= 0,
    ensures
        final(out)@ == old(out)@ + tile_bricks(
            *options,
            t@,
            (origin.0 as int, origin.1 as int),
        ),
{
    if t.parent.is_some() || options.cull && (t.height == 0 || t.color[3] == 0) {
        assert(out@ =~= old(out)@ + Seq::<Brick>::empty());
        return;
    }
    let floor: u32 = match t.neighbors.min() {
        Some(m) => {
            proof {
                lemma_lowest(t.neighbors@, m);
            }
            m
        },
        None => 0,
    };
    let z0: i32 = reinterpret(options.scale * t.height);
    let drop: i32 = reinterpret(t.height) - reinterpret(floor) + 1;
    let raw_height: i32 = if drop > 2 {
        drop
    } else {
        2
    };
    let product: i32 = raw_height * reinterpret(options.scale);
    let fill: i32 = if product > 5 {
        product / 2
    } else {
        2
    };
    assert(fill == tile_fill(*options, t@));
    let z: i32 = if options.snap {
        z0 + (4 - rem_four(z0))
    } else {
        z0
    };
    let desired_height: i32 = if options.snap {
        fill + (4 - fill % 4)
    } else {
        fill
    };
    let size: i32 = options.size as i32;
    proof {
        assert((t.center.0 * 2 + t.size.0) * options.size >= 0 && (t.center.1 * 2 + t.size.1)
            * options.size >= 0) by (nonlinear_arith)
            requires
                options.size >= 0,
                t.center.0 >= 0,
                t.center.1 >= 0,
                t.size.0 >= 0,
                t.size.1 >= 0,
        ;
    }
    let column: BrickColumn = BrickColumn {
        z,
        desired_height,
        size_x: t.size.0 as u16 * options.size,
        size_y: t.size.1 as u16 * options.size,
        pos_x: (t.center.0 as i32 * 2 + t.size.0 as i32) * size + origin.0,
        pos_y: (t.center.1 as i32 * 2 + t.size.1 as i32) * size + origin.1,
        color: t.color,
    };
    assert(column == tile_column(*options, t@, (origin.0 as int, origin.1 as int)));
    emit_column_bricks(out, options, column);
}

impl QuadTree {
    /// convert quadtree state into bricks
    pub fn into_bricks(&self, options: GenOptions, width: u32, height: u32) -> (bricks: Vec<Brick>)
        requires
            width <= i32::MAX,
            height <= i32::MAX,
            width * options.size <= i32::MAX,
            height * options.size <= i32::MAX,
            forall|i: int|
                0 <= i < self.tiles@.len() ==> tile_fits(
                    options,
                    #[trigger] self.model()[i],
                    centered(options, width, height),
                ),
        ensures
            bricks@ == all_tile_bricks(options, self.model(), centered(options, width, height)),
    {
        let origin: (i32, i32) = (
            -(width as i32 * options.size as i32),
            -(height as i32 * options.size as i32),
        );
        let ghost corner: (int, int) = centered(options, width, height);
        proof {
            assert(width * options.size >= 0 && height * options.size >= 0) by (nonlinear_arith);
        }
        let mut bricks: Vec<Brick> = Vec::new();
        let mut i: usize = 0;
        while i < self.tiles.len()
            invariant
                i <= self.tiles@.len(),
                origin.0 <= 0,
                origin.1 <= 0,
                corner == (origin.0 as int, origin.1 as int),
                forall|k: int|
                    0 <= k < self.tiles@.len() ==> tile_fits(
                        options,
                        #[trigger] self.model()[k],
                        corner,
                    ),
                bricks@ == all_tile_bricks(options, self.model().take(i as int), corner),
            decreases self.tiles@.len() - i,
        {
            assert(tile_fits(options, self.model()[i as int], corner));
            place_tile(&mut bricks, &options, &self.tiles[i], origin);
            proof {
                let next = self.model().take(i + 1);
                assert(next.drop_last() =~= self.model().take(i as int));
                assert(next.last() == self.tiles@[i as int]@);
            }
            i = i + 1;
        }
        assert(self.model().take(i as int) =~= self.model());
        bricks
    }
}

/// `m` is the lowest of the heights next to a tile, or 0 where there are none.
pub open spec fn is_floor_of(tile: TileModel, m: u32) -> bool {
    &&& forall|h: u32| #[trigger] tile.neighbors.contains(h) ==> m <= h
    &&& tile.neighbors.contains(m) || (m == 0 && forall|h: u32| !tile.neighbors.contains(h))
}

/// The tile's heights stay below the sign bit.
pub open spec fn tile_is_low(options: GenOptions, tile: TileModel) -> bool {
    &&& options.scale <= i32::MAX
    &&& tile.height <= i32::MAX
    &&& options.scale * tile.height <= i32::MAX
    &&& forall|h: u32| #[trigger] tile.neighbors.contains(h) ==> h <= i32::MAX
}

/// Height of the stack that stands for a fall from `h` down to `m`: half of the scaled fall, counting
/// both ends and at least two, and never less than two.
pub open spec fn depth_of(scale: int, h: int, m: int) -> int {
    let fall = if h > m {
        h - m + 1
    } else {
        2
    };
    if fall * scale / 2 > 2 {
        fall * scale / 2
    } else {
        2
    }
}

/// A tile's bricks reach from its top down to its lowest neighbor: their heights add up to the fall
/// down to it, and by less than one step of the parity to more. Snapping adds up to four.
pub proof fn tile_is_as_deep_as_its_fall(
    options: GenOptions,
    tile: TileModel,
    origin: (int, int),
    m: u32,
)
    requires
        tile.parent is None,
        !(options.cull && (tile.height == 0 || tile.color[3] == 0)),
        !(options.img && options.micro),
        is_floor_of(tile, m),
        tile_is_low(options, tile),
        tile_fits(options, tile, origin),
    ensures
        ({
            let total = crate::opt::column::total_height(tile_bricks(options, tile, origin));
            let depth = depth_of(options.scale as int, tile.height as int, m as int);
            let step = if options.stud {
                5int
            } else {
                2
            };
            &&& !options.snap ==> depth <= total < depth + step
            &&& options.snap ==> depth < total < depth + 4 + step
        }),
{
    lemma_floor(tile, m);
    let fill = tile_height(options, tile);
    assert(tile_fill(options, tile) == depth_of(
        options.scale as int,
        tile.height as int,
        m as int,
    ));
    assert(options.scale * tile.height >= 0) by (nonlinear_arith);
    crate::opt::column::column_keeps_its_height(
        options,
        tile_column(options, tile, origin),
        tile_z(options, tile),
        fill,
    );
    crate::opt::column::lemma_rounded_up(fill, crate::opt::column::height_parity(options));
}

proof fn lemma_floor(tile: TileModel, m: u32)
    requires
        is_floor_of(tile, m),
    ensures
        lowest(tile.neighbors) == m,
{
    if tile.neighbors.contains(m) {
        lemma_lowest(tile.neighbors, m);
    } else {
        assert(tile.neighbors =~= Set::<u32>::empty());
    }
}

/// The column of a terrain tile stands at the tile's own height: its first brick ends there, or at the
/// next grid line of four units above it when snapping, and its last one ends at or below the height
/// of the lowest neighbor, or the next grid line above that.
pub proof fn tile_reaches_its_lowest_neighbor(
    options: GenOptions,
    tile: TileModel,
    origin: (int, int),
    m: u32,
)
    requires
        tile.parent is None,
        !(options.cull && (tile.height == 0 || tile.color[3] == 0)),
        !options.img,
        is_floor_of(tile, m),
        tile_is_low(options, tile),
        tile_fits(options, tile, origin),
    ensures
        ({
            let bricks = tile_bricks(options, tile, origin);
            let shift = crate::opt::column::plane_shift(options);
            let top = crate::opt::column::top_of(bricks[0]) - shift;
            let bottom = crate::opt::column::bottom_of(bricks.last()) - shift;
            let depth = depth_of(options.scale as int, tile.height as int, m as int);
            &&& bricks.len() > 0
            &&& forall|i: int|
                #![trigger bricks[i]]
                0 <= i < bricks.len() - 1 ==> crate::opt::column::bottom_of(bricks[i])
                    == crate::opt::column::top_of(bricks[i + 1])
            &&& !options.snap ==> top == options.scale * tile.height
            &&& options.snap ==> top % 4 == 0 && options.scale * tile.height < top
                <= options.scale * tile.height + 4
            &&& top - bottom >= 2 * depth
            &&& !options.snap ==> top - bottom < 2 * depth + if options.stud {
                10int
            } else {
                4
            }
            &&& !options.snap ==> bottom <= options.scale * m
            &&& options.snap ==> forall|line: int|
                options.scale * m < line && #[trigger] (line % 4) == 0 ==> bottom <= line
        }),
{
    lemma_floor(tile, m);
    let col = tile_column(options, tile, origin);
    crate::opt::column::column_fills_without_gaps(
        options,
        col,
        tile_z(options, tile),
        tile_height(options, tile),
    );
    lemma_depth(options.scale as int, tile.height as int, m as int);
    assert(options.scale * tile.height >= 0) by (nonlinear_arith);
    if options.snap {
        let bricks = tile_bricks(options, tile, origin);
        let shift = crate::opt::column::plane_shift(options);
        let bottom = crate::opt::column::bottom_of(bricks.last()) - shift;
        assert forall|line: int|
            options.scale * m < line && #[trigger] (line % 4) == 0 implies bottom <= line by {
            lemma_snapped(
                options.scale * tile.height,
                tile_fill(options, tile),
                options.scale * m,
                line,
            );
        }
    }
}

proof fn lemma_snapped(top: int, fill: int, floor: int, line: int)
    requires
        top >= 0,
        fill >= 2,
        top - 2 * fill <= floor,
        floor < line,
        line % 4 == 0,
    ensures
        (top + 4 - top % 4) - 2 * (fill + 4 - fill % 4) <= line,
{
    let low = (top + 4 - top % 4) - 2 * (fill + 4 - fill % 4);
    assert(low % 4 == 0);
    assert(low <= top - 2 * fill + 2);
}

proof fn lemma_depth(scale: int, h: int, m: int)
    requires
        scale >= 0,
    ensures
        scale * h - 2 * depth_of(scale, h, m) <= scale * m,
{
    if h > m {
        assert((h - m + 1) * scale == scale * h - scale * m + scale) by (nonlinear_arith);
    } else {
        assert(scale * h <= scale * m) by (nonlinear_arith)
            requires
                scale >= 0,
                h <= m,
        ;
    }
    assert(scale == 0 ==> scale * h == 0 && scale * m == 0) by (nonlinear_arith);
}

/// There is no gap between a tile and one next to it: where the other tile's height is among those next
/// to the tile, the tile's bricks reach down to the top of the other tile's or below it.
pub proof fn neighboring_tiles_leave_no_gap(
    options: GenOptions,
    tile: TileModel,
    other: TileModel,
    origin: (int, int),
)
    requires
        tile.parent is None,
        other.parent is None,
        !(options.cull && (tile.height == 0 || tile.color[3] == 0)),
        !(options.cull && (other.height == 0 || other.color[3] == 0)),
        !options.img,
        tile.neighbors.contains(other.height),
        tile_is_low(options, tile),
        tile_is_low(options, other),
        tile_fits(options, tile, origin),
        tile_fits(options, other, origin),
    ensures
        tile_bricks(options, tile, origin).len() > 0,
        tile_bricks(options, other, origin).len() > 0,
        crate::opt::column::bottom_of(tile_bricks(options, tile, origin).last())
            <= crate::opt::column::top_of(tile_bricks(options, other, origin)[0]),
{
    let m = lemma_some_floor(tile, other.height);
    let n = lemma_some_floor_or_none(other);
    tile_reaches_its_lowest_neighbor(options, tile, origin, m);
    tile_reaches_its_lowest_neighbor(options, other, origin, n);
    let scale = options.scale as int;
    assert(scale * m <= scale * other.height) by (nonlinear_arith)
        requires
            scale >= 0,
            m <= other.height,
    ;
}

/// Some height next to a tile is the lowest, given that there is one.
pub(crate) proof fn lemma_some_floor(tile: TileModel, from: u32) -> (m: u32)
    requires
        tile.neighbors.contains(from),
    ensures
        is_floor_of(tile, m),
        m <= from,
    decreases from,
{
    if exists|h: u32| #[trigger] tile.neighbors.contains(h) && h < from {
        let h = choose|h: u32| #[trigger] tile.neighbors.contains(h) && h < from;
        lemma_some_floor(tile, h)
    } else {
        from
    }
}

pub(crate) proof fn lemma_some_floor_or_none(tile: TileModel) -> (m: u32)
    ensures
        is_floor_of(tile, m),
{
    if exists|h: u32| #[trigger] tile.neighbors.contains(h) {
        let h = choose|h: u32| #[trigger] tile.neighbors.contains(h);
        lemma_some_floor(tile, h)
    } else {
        0
    }
}

/// A tile's bricks stand over its cells: their sides lie on the lines between cells, which are twice
/// the size apart, and the map's first cell starts at the origin given.
pub proof fn tile_bricks_stand_over_their_cells(
    options: GenOptions,
    tile: TileModel,
    origin: (int, int),
    i: int,
)
    requires
        tile_fits(options, tile, origin),
        i32::MIN <= origin.0 <= 0,
        i32::MIN <= origin.1 <= 0,
        0 <= i < tile_bricks(options, tile, origin).len(),
    ensures
        ({
            let brick = tile_bricks(options, tile, origin)[i];
            let size = options.size as int;
            &&& brick.asset matches crate::brick::BrickType::Procedural { size: reach, .. } && {
                &&& brick.position.x - reach.x == 2 * tile.center.0 * size + origin.0
                &&& brick.position.x + reach.x == 2 * (tile.center.0 + tile.size.0) * size + origin.0
                &&& brick.position.y - reach.y == 2 * tile.center.1 * size + origin.1
                &&& brick.position.y + reach.y == 2 * (tile.center.1 + tile.size.1) * size + origin.1
            }
            &&& brick.color.r == tile.color[0]
            &&& brick.color.g == tile.color[1]
            &&& brick.color.b == tile.color[2]
            &&& tile.parent is None
            &&& options.cull ==> tile.height > 0 && tile.color[3] > 0
        }),
{
    let col = tile_column(options, tile, origin);
    crate::opt::column::column_bricks_look_as_asked(
        options,
        col,
        col.z as int,
        col.desired_height as int,
        i,
    );
    let size = options.size as int;
    lemma_side(tile.center.0 as int, tile.size.0 as int, size);
    lemma_side(tile.center.1 as int, tile.size.1 as int, size);
}

proof fn lemma_side(start: int, cells: int, size: int)
    requires
        start >= 0,
        cells >= 0,
        size >= 0,
    ensures
        (start * 2 + cells) * size - cells * size == 2 * start * size,
        (start * 2 + cells) * size + cells * size == 2 * (start + cells) * size,
        (start * 2 + cells) * size >= 0,
        cells * size >= 0,
{
    assert((start * 2 + cells) * size - cells * size == 2 * start * size && (start * 2 + cells) * size
        + cells * size == 2 * (start + cells) * size) by (nonlinear_arith);
    assert((start * 2 + cells) * size >= 0 && cells * size >= 0) by (nonlinear_arith)
        requires
            start >= 0,
            cells >= 0,
            size >= 0,
    ;
}

} // verus!
