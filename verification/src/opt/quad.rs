//! Quadtree and line merging of equal tiles.
use crate::map::{Colormap, Heightmap};
use crate::opt::generate::DIMENSIONS_MSG;
use crate::opt::heightset::HeightSet;
use crate::opt::MAX_BRICK_UNITS;
use vstd::prelude::*;

verus! {

/// A rectangle of equal cells, stored at its first cell.
#[derive(Debug)]
pub struct Tile {
    pub index: usize,
    /// First cell of the rectangle.
    pub center: (u32, u32),
    /// Columns and rows of the rectangle.
    pub size: (u32, u32),
    pub color: [u8; 4],
    pub height: u32,
    /// Heights of the cells next to the merged cells.
    pub neighbors: HeightSet,
    /// Set once the tile is merged into another one.
    pub parent: Option<usize>,
}

/// The contents of a tile.
pub struct TileModel {
    pub index: usize,
    pub center: (u32, u32),
    pub size: (u32, u32),
    pub color: [u8; 4],
    pub height: u32,
    pub neighbors: Set<u32>,
    pub parent: Option<usize>,
}

impl View for Tile {
    type V = TileModel;

    open spec fn view(&self) -> TileModel {
        TileModel {
            index: self.index,
            center: self.center,
            size: self.size,
            color: self.color,
            height: self.height,
            neighbors: self.neighbors@,
            parent: self.parent,
        }
    }
}

impl TileModel {
    /// Whether another tile equals this one in size, color and height, both unmerged.
    pub open spec fn similar_quad(self, other: TileModel) -> bool {
        &&& self.size == other.size
        &&& self.color == other.color
        &&& self.height == other.height
        &&& self.parent is None
        &&& other.parent is None
    }

    /// Whether another tile lies in a line with this one and equals it but for its length.
    pub open spec fn similar_line(self, other: TileModel) -> bool {
        &&& (self.center.0 == other.center.0 && self.size.0 == other.size.0) || (self.center.1
            == other.center.1 && self.size.1 == other.size.1)
        &&& self.color == other.color
        &&& self.height == other.height
        &&& self.parent is None
        &&& other.parent is None
    }

    /// This tile, merged into the tile `parent`.
    pub open spec fn adopted(self, parent: usize) -> TileModel {
        TileModel { parent: Some(parent), ..self }
    }

    /// Whether the rectangle holds a cell.
    pub open spec fn covers(self, x: int, y: int) -> bool {
        self.center.0 <= x < self.center.0 + self.size.0 && self.center.1 <= y < self.center.1
            + self.size.1
    }
}

fn same_color(a: &[u8; 4], b: &[u8; 4]) -> (same: bool)
    ensures
        same == (*a == *b),
{
    let same: bool = a[0] == b[0] && a[1] == b[1] && a[2] == b[2] && a[3] == b[3];
    proof {
        if same {
            assert(a@ =~= b@);
            assert(*a == *b);
        }
    }
    same
}

impl Tile {
    /// determine if another tile is similar in all properties
    pub fn similar_quad(&self, other: &Self) -> (similar: bool)
        ensures
            similar == self@.similar_quad(other@),
    {
        self.size.0 == other.size.0 && self.size.1 == other.size.1 && same_color(
            &self.color,
            &other.color,
        ) && self.height == other.height && self.parent.is_none() && other.parent.is_none()
    }

    /// determine if another tile is similar in all properties except potentially width or height
    /// as long as they are in a line
    pub fn similar_line(&self, other: &Self) -> (similar: bool)
        ensures
            similar == self@.similar_line(other@),
    {
        let is_vertical: bool = self.center.0 == other.center.0;
        let is_horizontal: bool = self.center.1 == other.center.1;
        (is_vertical && self.size.0 == other.size.0 || is_horizontal && self.size.1
            == other.size.1) && same_color(&self.color, &other.color) && self.height
            == other.height && self.parent.is_none() && other.parent.is_none()
    }

    /// merge a few tiles with this one
    pub fn merge_quad(
        &mut self,
        top_right: &mut Self,
        bottom_left: &mut Self,
        bottom_right: &mut Self,
    )
        requires
            old(self).size.0 * 2 <= u32::MAX,
            old(self).size.1 * 2 <= u32::MAX,
        ensures
            final(self)@ == merged_quad(
                old(self)@,
                old(top_right)@,
                old(bottom_left)@,
                old(bottom_right)@,
            ),
            final(top_right)@ == old(top_right)@.adopted(old(self).index),
            final(bottom_left)@ == old(bottom_left)@.adopted(old(self).index),
            final(bottom_right)@ == old(bottom_right)@.adopted(old(self).index),
    {
        self.size = (self.size.0 * 2, self.size.1 * 2);
        self.neighbors.extend(&top_right.neighbors);
        self.neighbors.extend(&bottom_left.neighbors);
        self.neighbors.extend(&bottom_right.neighbors);
        top_right.parent = Some(self.index);
        bottom_left.parent = Some(self.index);
        bottom_right.parent = Some(self.index);
    }
}

/// A tile of twice the size that took over the neighbors of the other three.
pub open spec fn merged_quad(
    tile: TileModel,
    top_right: TileModel,
    bottom_left: TileModel,
    bottom_right: TileModel,
) -> TileModel {
    TileModel {
        size: ((tile.size.0 * 2) as u32, (tile.size.1 * 2) as u32),
        neighbors: tile.neighbors.union(top_right.neighbors).union(bottom_left.neighbors).union(
            bottom_right.neighbors,
        ),
        ..tile
    }
}

/// The grid of tiles of a map.
pub struct QuadTree {
    pub tiles: Vec<Tile>,
    pub width: u32,
    pub height: u32,
}

/// Storage position of the tile of cell `(x, y)` in a grid of `height` rows.
pub open spec fn cell(x: int, y: int, height: int) -> int {
    y + x * height
}

/// The contents of a list of tiles.
pub open spec fn models(tiles: Seq<Tile>) -> Seq<TileModel> {
    Seq::new(tiles.len(), |i: int| tiles[i]@)
}

/// Every cell has a tile that starts there and stays inside the grid.
pub open spec fn well_formed(tiles: Seq<TileModel>, width: int, height: int) -> bool {
    &&& tiles.len() == width * height
    &&& forall|x: int, y: int|
        0 <= x < width && 0 <= y < height ==> tile_in_grid(
            #[trigger] tiles[cell(x, y, height)],
            width,
            height,
            x,
            y,
        )
}

pub open spec fn tile_in_grid(tile: TileModel, width: int, height: int, x: int, y: int) -> bool {
    &&& tile.center.0 == x
    &&& tile.center.1 == y
    &&& 1 <= tile.size.0 <= width - x
    &&& 1 <= tile.size.1 <= height - y
}

/// Distinct cells have distinct storage positions, all inside the grid.
pub proof fn lemma_cell(x: int, y: int, width: int, height: int)
    requires
        0 <= x < width,
        0 <= y < height,
    ensures
        0 <= cell(x, y, height) < width * height,
        cell(x, y, height) / height == x,
        cell(x, y, height) % height == y,
{
    assert(0 <= y + x * height < width * height) by (nonlinear_arith)
        requires
            0 <= x < width,
            0 <= y < height,
    ;
    vstd::arithmetic::div_mod::lemma_fundamental_div_mod_converse(
        cell(x, y, height),
        height,
        x,
        y,
    );
}

/// The grid's cell numbers stay inside the machine integers.
pub open spec fn grid_fits(dims: (u32, u32)) -> bool {
    let (width, height) = dims;
    &&& width <= i32::MAX && height <= i32::MAX
    &&& width * height <= u32::MAX
    &&& (height - 1) * height + width - 1 <= i32::MAX
}

/// The heights of the cells next to `(x, y)`.
pub open spec fn neighbor_heights<H: Heightmap + ?Sized>(heightmap: &H, x: int, y: int) -> Set<
    u32,
> {
    let (width, height) = heightmap.dims();
    Set::new(
        |h: u32|
            {
                ||| x > 0 && h == heightmap.height_at(x - 1, y)
                ||| x + 1 < width && h == heightmap.height_at(x + 1, y)
                ||| y > 0 && h == heightmap.height_at(x, y - 1)
                ||| y + 1 < height && h == heightmap.height_at(x, y + 1)
            },
    )
}

/// The tile of a single cell.
pub open spec fn cell_tile<H: Heightmap + ?Sized, C: Colormap + ?Sized>(
    heightmap: &H,
    colormap: &C,
    x: int,
    y: int,
) -> TileModel {
    TileModel {
        index: (x + y * heightmap.dims().1) as usize,
        center: (x as u32, y as u32),
        size: (1, 1),
        color: colormap.color_at(x, y),
        height: heightmap.height_at(x, y),
        neighbors: neighbor_heights(heightmap, x, y),
        parent: None,
    }
}

impl QuadTree {
    /// The contents of the tiles.
    pub open spec fn model(&self) -> Seq<TileModel> {
        models(self.tiles@)
    }

    /// Every cell has a tile that starts there and stays inside the grid.
    pub open spec fn wf(&self) -> bool {
        well_formed(self.model(), self.width as int, self.height as int)
    }

    /// create a heightmap grid from two images
    pub fn new<H: Heightmap + ?Sized, C: Colormap + ?Sized>(heightmap: &H, colormap: &C) -> (tree:
        Result<Self, String>)
        requires
            heightmap.dims() == colormap.dims() ==> grid_fits(heightmap.dims()),
        ensures
            match tree {
                Ok(t) => {
                    &&& heightmap.dims() == colormap.dims()
                    &&& (t.width, t.height) == heightmap.dims()
                    &&& t.wf()
                    &&& forall|x: int, y: int|
                        0 <= x < t.width && 0 <= y < t.height ==> #[trigger] t.model()[cell(
                            x,
                            y,
                            t.height as int,
                        )] == cell_tile(heightmap, colormap, x, y)
                },
                Err(e) => e@ == DIMENSIONS_MSG@ && heightmap.dims() != colormap.dims(),
            },
    {
        let (width, height) = heightmap.size();
        let (color_width, color_height) = colormap.size();
        if color_width != width || color_height != height {
            return Err(DIMENSIONS_MSG.to_owned());
        }
        let mut tiles: Vec<Tile> = Vec::new();
        let mut x: u32 = 0;
        while x < width
            invariant
                x <= width,
                (width, height) == heightmap.dims(),
                heightmap.dims() == colormap.dims(),
                grid_fits((width, height)),
                tiles@.len() == x * height,
                forall|i: int, j: int|
                    0 <= i < x && 0 <= j < height ==> #[trigger] models(tiles@)[cell(
                        i,
                        j,
                        height as int,
                    )] == cell_tile(heightmap, colormap, i, j),
            decreases width - x,
        {
            let mut y: u32 = 0;
            while y < height
                invariant
                    x < width,
                    y <= height,
                    (width, height) == heightmap.dims(),
                    heightmap.dims() == colormap.dims(),
                    grid_fits((width, height)),
                    tiles@.len() == cell(x as int, y as int, height as int),
                    forall|i: int, j: int|
                        0 <= j < height && (0 <= i < x || (i == x && j < y))
                            ==> #[trigger] models(tiles@)[cell(i, j, height as int)] == cell_tile(
                            heightmap,
                            colormap,
                            i,
                            j,
                        ),
                decreases height - y,
            {
                let mut neighbors: HeightSet = HeightSet::new();
                if x > 0 {
                    neighbors.insert(heightmap.at(x - 1, y));
                }
                if x + 1 < width {
                    neighbors.insert(heightmap.at(x + 1, y));
                }
                if y > 0 {
                    neighbors.insert(heightmap.at(x, y - 1));
                }
                if y + 1 < height {
                    neighbors.insert(heightmap.at(x, y + 1));
                }
                proof {
                    assert(neighbors@ =~= neighbor_heights(heightmap, x as int, y as int));
                    assert(0 <= y * height <= (height - 1) * height) by (nonlinear_arith)
                        requires
                            0 <= y < height,
                    ;
                }
                let ghost before: Seq<Tile> = tiles@;
                tiles.push(
                    Tile {
                        index: x as usize + y as usize * height as usize,
                        center: (x, y),
                        size: (1, 1),
                        color: colormap.at(x, y),
                        height: heightmap.at(x, y),
                        neighbors,
                        parent: None,
                    },
                );
                proof {
                    assert forall|i: int, j: int|
                        0 <= j < height && (0 <= i < x || (i == x && j < y
                            + 1)) implies #[trigger] models(tiles@)[cell(i, j, height as int)]
                        == cell_tile(heightmap, colormap, i, j) by {
                        if i < x || j < y {
                            assert(cell(i, j, height as int) < before.len()) by (nonlinear_arith)
                                requires
                                    0 <= j < height,
                                    0 <= i < x || (i == x && j < y),
                                    before.len() == y + x * height,
                                    cell(i, j, height as int) == j + i * height,
                                    y >= 0,
                            ;
                            assert(0 <= cell(i, j, height as int)) by (nonlinear_arith)
                                requires
                                    0 <= j,
                                    0 <= i,
                                    0 <= height,
                                    cell(i, j, height as int) == j + i * height,
                            ;
                            assert(models(before)[cell(i, j, height as int)] == cell_tile(
                                heightmap,
                                colormap,
                                i,
                                j,
                            ));
                        }
                    }
                }
                y = y + 1;
            }
            proof {
                assert(height + x * height == (x + 1) * height) by (nonlinear_arith);
            }
            x = x + 1;
        }
        let tree: QuadTree = QuadTree { tiles, width, height };
        proof {
            assert forall|i: int, j: int| 0 <= i < width && 0 <= j < height implies tile_in_grid(
                #[trigger] tree.model()[cell(i, j, height as int)],
                width as int,
                height as int,
                i,
                j,
            ) by {
                assert(tree.model()[cell(i, j, height as int)] == cell_tile(
                    heightmap,
                    colormap,
                    i,
                    j,
                ));
            }
        }
        Ok(tree)
    }
}

/// Merge the tiles at four increasing positions into the first.
pub open spec fn merged_block(
    tiles: Seq<TileModel>,
    top_left: int,
    bottom_left: int,
    top_right: int,
    bottom_right: int,
) -> Seq<TileModel> {
    let parent = tiles[top_left].index;
    tiles.update(
        top_left,
        merged_quad(
            tiles[top_left],
            tiles[top_right],
            tiles[bottom_left],
            tiles[bottom_right],
        ),
    ).update(bottom_left, tiles[bottom_left].adopted(parent)).update(
        top_right,
        tiles[top_right].adopted(parent),
    ).update(bottom_right, tiles[bottom_right].adopted(parent))
}

fn merge_block(
    tiles: &mut Vec<Tile>,
    top_left: usize,
    bottom_left: usize,
    top_right: usize,
    bottom_right: usize,
)
    requires
        top_left < bottom_left < top_right < bottom_right < old(tiles)@.len(),
        old(tiles)@[top_left as int].size.0 * 2 <= u32::MAX,
        old(tiles)@[top_left as int].size.1 * 2 <= u32::MAX,
    ensures
        models(final(tiles)@) == merged_block(
            models(old(tiles)@),
            top_left as int,
            bottom_left as int,
            top_right as int,
            bottom_right as int,
        ),
{
    let (left, right) = tiles.as_mut_slice().split_at_mut(top_right);
    let (left_top, left_bottom) = left.split_at_mut(bottom_left);
    let (right_top, right_bottom) = right.split_at_mut(bottom_right - top_right);
    left_top[top_left].merge_quad(
        &mut right_top[0],
        &mut left_bottom[0],
        &mut right_bottom[0],
    );
    assert(models(tiles@) =~= merged_block(
        models(old(tiles)@),
        top_left as int,
        bottom_left as int,
        top_right as int,
        bottom_right as int,
    ));
}

/// Number of tiles that are not merged into another one.
pub open spec fn live(tiles: Seq<TileModel>) -> int
    decreases tiles.len(),
{
    if tiles.len() == 0 {
        0
    } else {
        live(tiles.drop_last()) + if tiles.last().parent is None {
            1int
        } else {
            0
        }
    }
}

pub(crate) proof fn lemma_live_bounds(tiles: Seq<TileModel>)
    ensures
        0 <= live(tiles) <= tiles.len(),
    decreases tiles.len(),
{
    if tiles.len() > 0 {
        lemma_live_bounds(tiles.drop_last());
    }
}

/// Changing one tile changes the number of unmerged tiles by that tile alone.
pub(crate) proof fn lemma_live_update(tiles: Seq<TileModel>, i: int, tile: TileModel)
    requires
        0 <= i < tiles.len(),
    ensures
        live(tiles.update(i, tile)) == live(tiles) - (if tiles[i].parent is None {
            1int
        } else {
            0
        }) + (if tile.parent is None {
            1int
        } else {
            0
        }),
    decreases tiles.len(),
{
    let changed = tiles.update(i, tile);
    if i == tiles.len() - 1 {
        assert(changed.drop_last() =~= tiles.drop_last());
    } else {
        lemma_live_update(tiles.drop_last(), i, tile);
        assert(changed.drop_last() =~= tiles.drop_last().update(i, tile));
    }
}

/// The four tiles that start `space` cells apart at `(x, y)` are equal squares of that side.
pub open spec fn block_merges(
    tiles: Seq<TileModel>,
    width: int,
    height: int,
    space: int,
    x: int,
    y: int,
) -> bool {
    let first = tiles[cell(x, y, height)];
    &&& x + space < width
    &&& y + space < height
    &&& first.size.0 == space
    &&& first.similar_quad(tiles[cell(x + space, y, height)])
    &&& first.similar_quad(tiles[cell(x, y + space, height)])
    &&& first.similar_quad(tiles[cell(x + space, y + space, height)])
}

/// Start of the block of `2 * space` cells that holds coordinate `i`.
pub open spec fn block_base(i: int, space: int) -> int {
    i - i % (2 * space)
}

/// The tile of `(x, y)` after the merge pass for squares of side `space`: the first tile of a
/// block that merges grows, the other three are merged into it, and all others stay.
pub open spec fn level_tile(
    tiles: Seq<TileModel>,
    width: int,
    height: int,
    space: int,
    x: int,
    y: int,
) -> TileModel {
    let (bx, by) = (block_base(x, space), block_base(y, space));
    let tile = tiles[cell(x, y, height)];
    if (x == bx || x == bx + space) && (y == by || y == by + space) && block_merges(
        tiles,
        width,
        height,
        space,
        bx,
        by,
    ) {
        if x == bx && y == by {
            merged_quad(
                tile,
                tiles[cell(x + space, y, height)],
                tiles[cell(x, y + space, height)],
                tiles[cell(x + space, y + space, height)],
            )
        } else {
            tile.adopted(tiles[cell(bx, by, height)].index)
        }
    } else {
        tile
    }
}

/// All tiles after the merge pass for squares of side `space`.
pub open spec fn quad_level(tiles: Seq<TileModel>, width: int, height: int, space: int) -> Seq<
    TileModel,
> {
    Seq::new(
        tiles.len(),
        |i: int| level_tile(tiles, width, height, space, i / height, i % height),
    )
}

/// Blocks before `(x, y)` are merged, the others are untouched.
spec fn level_walked(
    was: Seq<TileModel>,
    now: Seq<TileModel>,
    width: int,
    height: int,
    space: int,
    x: int,
    y: int,
) -> bool {
    &&& now.len() == was.len()
    &&& forall|i: int, j: int|
        0 <= i < width && 0 <= j < height ==> #[trigger] now[cell(i, j, height)] == if block_base(
            i,
            space,
        ) < x || (block_base(i, space) == x && block_base(j, space) < y) {
            level_tile(was, width, height, space, i, j)
        } else {
            was[cell(i, j, height)]
        }
}

/// Where the cells of the block that starts at a multiple of `2 * space` lie.
proof fn lemma_block_base(x: int, i: int, space: int)
    requires
        space > 0,
        x >= 0,
        i >= 0,
        x % (2 * space) == 0,
    ensures
        block_base(x, space) == x,
        block_base(x + space, space) == x,
        (x + 2 * space) % (2 * space) == 0,
        0 <= block_base(i, space) <= i < block_base(i, space) + 2 * space,
        block_base(i, space) < x || block_base(i, space) == x || block_base(i, space) >= x + 2
            * space,
{
    let m = 2 * space;
    vstd::arithmetic::div_mod::lemma_fundamental_div_mod(x, m);
    vstd::arithmetic::div_mod::lemma_fundamental_div_mod(i, m);
    vstd::arithmetic::div_mod::lemma_mod_bound(i, m);
    let (p, q) = (x / m, i / m);
    assert(m * p == p * m && m * (p + 1) == (p + 1) * m) by (nonlinear_arith);
    vstd::arithmetic::div_mod::lemma_fundamental_div_mod_converse(x + space, m, p, space);
    assert(m * p + m == m * (p + 1)) by (nonlinear_arith);
    vstd::arithmetic::div_mod::lemma_fundamental_div_mod_converse(x + m, m, p + 1, 0);
    assert(q < p ==> m * q <= m * p - m) by (nonlinear_arith)
        requires
            m > 0,
    ;
    assert(q > p ==> m * q >= m * p + m) by (nonlinear_arith)
        requires
            m > 0,
    ;
    assert(m * q >= 0) by (nonlinear_arith)
        requires
            m > 0,
            q >= 0,
    ;
}

/// One block of the pass.
proof fn lemma_level_step(
    was: Seq<TileModel>,
    now: Seq<TileModel>,
    next: Seq<TileModel>,
    width: int,
    height: int,
    space: int,
    x: int,
    y: int,
)
    requires
        space > 0,
        was.len() == width * height,
        0 <= x,
        0 <= y,
        x + space < width,
        y + space < height,
        x % (2 * space) == 0,
        y % (2 * space) == 0,
        level_walked(was, now, width, height, space, x, y),
        next == if block_merges(was, width, height, space, x, y) {
            merged_block(
                now,
                cell(x, y, height),
                cell(x, y + space, height),
                cell(x + space, y, height),
                cell(x + space, y + space, height),
            )
        } else {
            now
        },
    ensures
        level_walked(was, next, width, height, space, x, y + 2 * space),
        live(next) == live(now) - if block_merges(was, width, height, space, x, y) {
            3int
        } else {
            0
        },
{
    lemma_block_base(x, 0, space);
    lemma_block_base(y, 0, space);
    lemma_cell(x, y, width, height);
    lemma_cell(x, y + space, width, height);
    lemma_cell(x + space, y, width, height);
    lemma_cell(x + space, y + space, width, height);
    let a = cell(x, y, height);
    let b = cell(x, y + space, height);
    let c = cell(x + space, y, height);
    let d = cell(x + space, y + space, height);
    assert(now[a] == was[a] && now[b] == was[b] && now[c] == was[c] && now[d] == was[d]);
    if block_merges(was, width, height, space, x, y) {
        let parent = now[a].index;
        let m1 = now.update(a, merged_quad(now[a], now[c], now[b], now[d]));
        let m2 = m1.update(b, now[b].adopted(parent));
        let m3 = m2.update(c, now[c].adopted(parent));
        lemma_live_update(now, a, merged_quad(now[a], now[c], now[b], now[d]));
        lemma_live_update(m1, b, now[b].adopted(parent));
        lemma_live_update(m2, c, now[c].adopted(parent));
        lemma_live_update(m3, d, now[d].adopted(parent));
    }
    assert forall|i: int, j: int| 0 <= i < width && 0 <= j < height implies #[trigger] next[cell(
        i,
        j,
        height,
    )] == if block_base(i, space) < x || (block_base(i, space) == x && block_base(j, space) < y + 2
        * space) {
        level_tile(was, width, height, space, i, j)
    } else {
        was[cell(i, j, height)]
    } by {
        lemma_block_base(x, i, space);
        lemma_block_base(y, j, space);
        lemma_cell(i, j, width, height);
        assert(now[cell(i, j, height)] == now[cell(i, j, height)]);
    }
}

/// Two to the power `level`.
fn power_of_two(level: u32, limit: u32) -> (n: u32)
    requires
        vstd::arithmetic::power2::pow2(level as nat) <= limit,
    ensures
        n == vstd::arithmetic::power2::pow2(level as nat),
{
    let mut n: u32 = 1;
    let mut i: u32 = 0;
    proof {
        vstd::arithmetic::power2::lemma2_to64();
    }
    while i < level
        invariant
            i <= level,
            n == vstd::arithmetic::power2::pow2(i as nat),
            vstd::arithmetic::power2::pow2(level as nat) <= limit,
        decreases level - i,
    {
        proof {
            vstd::arithmetic::power2::lemma_pow2_unfold((i + 1) as nat);
            if i + 1 < level {
                vstd::arithmetic::power2::lemma_pow2_strictly_increases(
                    (i + 1) as nat,
                    level as nat,
                );
            }
        }
        n = n * 2;
        i = i + 1;
    }
    n
}

impl QuadTree {
    /// Storage position of the tile of a cell.
    pub fn index(&self, x: u32, y: u32) -> (i: usize)
        requires
            y + x * self.height <= usize::MAX,
        ensures
            i == cell(x as int, y as int, self.height as int),
    {
        assert(0 <= x * self.height) by (nonlinear_arith)
            requires
                0 <= x,
                0 <= self.height,
        ;
        y as usize + x as usize * self.height as usize
    }

    /// optimize bricks with size (level+1); a tree of squares stays one
    pub fn quad_optimize_level(&mut self, level: u32) -> (count: usize)
        requires
            old(self).wf(),
            old(self).height <= i32::MAX,
            vstd::arithmetic::power2::pow2(level as nat) <= old(self).width,
            vstd::arithmetic::power2::pow2(level as nat) <= old(self).height,
        ensures
            final(self).width == old(self).width,
            final(self).height == old(self).height,
            crate::opt::quadgen::all_square(old(self).model()) ==> final(self).wf()
                && crate::opt::quadgen::all_square(final(self).model()),
            final(self).model() == quad_level(
                old(self).model(),
                old(self).width as int,
                old(self).height as int,
                vstd::arithmetic::power2::pow2(level as nat) as int,
            ),
            count == live(old(self).model()) - live(final(self).model()),
    {
        let space: u32 = power_of_two(level, self.width);
        let ghost was: Seq<TileModel> = self.model();
        let ghost (w, h, s): (int, int, int) = (self.width as int, self.height as int, space as int);
        proof {
            vstd::arithmetic::power2::lemma_pow2_pos(level as nat);
            lemma_live_bounds(was);
            assert(0int % (2 * s) == 0);
            assert forall|i: int, j: int| 0 <= i < w && 0 <= j < h implies !(block_base(i, s) < 0
                || (block_base(i, s) == 0 && block_base(j, s) < 0)) by {
                lemma_block_base(0, i, s);
                lemma_block_base(0, j, s);
            }
        }
        let step: u64 = space as u64 * 2;
        let last_x: u64 = (self.width - space) as u64;
        let last_y: u64 = (self.height - space) as u64;
        let mut count: usize = 0;
        let mut x: u64 = 0;
        while x < last_x
            invariant
                s == space,
                s > 0,
                step == 2 * s,
                w == self.width,
                h == self.height,
                self.width == old(self).width,
                self.height == old(self).height,
                h <= i32::MAX,
                last_x == w - s,
                last_y == h - s,
                x % step == 0,
                was == old(self).model(),
                well_formed(was, w, h),
                level_walked(was, self.model(), w, h, s, x as int, 0),
                count == live(was) - live(self.model()),
                live(was) <= was.len(),
                was.len() == self.tiles@.len(),
                x <= u32::MAX + step,
            decreases last_x + step - x,
        {
            let mut y: u64 = 0;
            while y < last_y
                invariant
                    s == space,
                    s > 0,
                    step == 2 * s,
                    w == self.width,
                    h == self.height,
                    self.width == old(self).width,
                    self.height == old(self).height,
                    h <= i32::MAX,
                    last_x == w - s,
                    last_y == h - s,
                    x < last_x,
                    x % step == 0,
                    y % step == 0,
                    was == old(self).model(),
                    well_formed(was, w, h),
                    level_walked(was, self.model(), w, h, s, x as int, y as int),
                    count == live(was) - live(self.model()),
                    live(was) <= was.len(),
                    was.len() == self.tiles@.len(),
                    y <= u32::MAX + step,
                decreases last_y + step - y,
            {
                let (x0, y0): (u32, u32) = (x as u32, y as u32);
                let ghost now: Seq<TileModel> = self.model();
                proof {
                    lemma_cell(x as int, y as int, w, h);
                    lemma_cell(x as int, y + s, w, h);
                    lemma_cell(x + s, y as int, w, h);
                    lemma_cell(x + s, y + s, w, h);
                    lemma_block_base(x as int, 0, s);
                    lemma_block_base(y as int, 0, s);
                    lemma_block_order(x as int, y as int, s, h);
                }
                let total: usize = self.tiles.len();
                let top_left: usize = self.index(x0, y0);
                let bottom_left: usize = self.index(x0, y0 + space);
                let top_right: usize = self.index(x0 + space, y0);
                let bottom_right: usize = self.index(x0 + space, y0 + space);
                let merges: bool = self.tiles[top_left].size.0 == space
                    && self.tiles[top_left].similar_quad(&self.tiles[top_right])
                    && self.tiles[top_left].similar_quad(&self.tiles[bottom_left])
                    && self.tiles[top_left].similar_quad(&self.tiles[bottom_right]);
                proof {
                    assert(now[top_left as int] == was[cell(x as int, y as int, h)]);
                    assert(now[bottom_left as int] == was[cell(x as int, y + s, h)]);
                    assert(now[top_right as int] == was[cell(x + s, y as int, h)]);
                    assert(now[bottom_right as int] == was[cell(x + s, y + s, h)]);
                    assert(merges == block_merges(was, w, h, s, x as int, y as int));
                }
                if merges {
                    merge_block(
                        &mut self.tiles,
                        top_left,
                        bottom_left,
                        top_right,
                        bottom_right,
                    );
                }
                proof {
                    lemma_level_step(was, now, self.model(), w, h, s, x as int, y as int);
                    lemma_live_bounds(self.model());
                }
                if merges {
                    count = count + 3;
                }
                y = y + step;
            }
            proof {
                assert(level_walked(was, self.model(), w, h, s, x + step, 0)) by {
                    assert forall|i: int, j: int|
                        0 <= i < w && 0 <= j < h implies #[trigger] self.model()[cell(i, j, h)]
                        == if block_base(i, s) < x + step || (block_base(i, s) == x + step
                        && block_base(j, s) < 0) {
                        level_tile(was, w, h, s, i, j)
                    } else {
                        was[cell(i, j, h)]
                    } by {
                        lemma_block_base(x as int, i, s);
                        lemma_block_base(y as int, j, s);
                    }
                }
                lemma_block_base(x as int, 0, s);
            }
            x = x + step;
        }
        proof {
            let end = quad_level(was, w, h, s);
            assert forall|k: int| 0 <= k < was.len() implies self.model()[k] == end[k] by {
                let (i, j) = (k / h, k % h);
                lemma_index(k, w, h);
                lemma_block_base(x as int, i, s);
                assert(self.model()[cell(i, j, h)] == level_tile(was, w, h, s, i, j));
            }
            assert(self.model() =~= end);
            if crate::opt::quadgen::all_square(was) {
                crate::opt::quadgen::lemma_quad_level(was, w, h, s);
            }
        }
        count
    }
}

/// A storage position belongs to a cell of the grid.
pub proof fn lemma_index(k: int, width: int, height: int)
    requires
        0 <= k < width * height,
        0 <= width,
        0 <= height,
    ensures
        0 <= k / height < width,
        0 <= k % height < height,
        cell(k / height, k % height, height) == k,
{
    assert(height > 0) by (nonlinear_arith)
        requires
            0 <= k < width * height,
            0 <= height,
    ;
    vstd::arithmetic::div_mod::lemma_fundamental_div_mod(k, height);
    vstd::arithmetic::div_mod::lemma_mod_bound(k, height);
    let q = k / height;
    assert(height * q == q * height) by (nonlinear_arith);
    assert(0 <= q < width) by (nonlinear_arith)
        requires
            0 <= k < width * height,
            k == height * q + k % height,
            0 <= k % height < height,
    ;
}

/// The tiles of a block are stored in the order first, below, right, below right.
proof fn lemma_block_order(x: int, y: int, space: int, height: int)
    requires
        0 < space,
        0 <= y,
        y + space < height,
    ensures
        cell(x, y, height) < cell(x, y + space, height) < cell(x + space, y, height) < cell(
            x + space,
            y + space,
            height,
        ),
{
    assert(y + space + x * height < y + (x + space) * height) by (nonlinear_arith)
        requires
            0 < space,
            0 <= y,
            y + space < height,
    ;
}

/// Summed length of tiles along a line.
pub open spec fn line_length(tiles: Seq<TileModel>, children: Seq<usize>, vertical: bool) -> int
    decreases children.len(),
{
    if children.len() == 0 {
        0
    } else {
        let size = tiles[children.last() as int].size;
        line_length(tiles, children.drop_last(), vertical) + if vertical {
            size.1 as int
        } else {
            size.0 as int
        }
    }
}

/// All neighbor heights of some tiles.
pub open spec fn line_neighbors(tiles: Seq<TileModel>, children: Seq<usize>) -> Set<u32>
    decreases children.len(),
{
    if children.len() == 0 {
        Set::empty()
    } else {
        line_neighbors(tiles, children.drop_last()).union(
            tiles[children.last() as int].neighbors,
        )
    }
}

/// Whether a storage position is listed.
pub open spec fn listed(children: Seq<usize>, i: int) -> bool {
    exists|k: int| 0 <= k < children.len() && #[trigger] children[k] == i
}

/// The tiles with the listed ones merged into the tile `parent`.
pub open spec fn adopt_all(
    tiles: Seq<TileModel>,
    children: Seq<usize>,
    parent: usize,
) -> Seq<TileModel> {
    Seq::new(
        tiles.len(),
        |i: int|
            if listed(children, i) {
                tiles[i].adopted(parent)
            } else {
                tiles[i]
            },
    )
}

/// The tiles with a line of them merged into the tile `start`, which grows by their length.
pub open spec fn merged_line(
    tiles: Seq<TileModel>,
    start: usize,
    children: Seq<usize>,
) -> Seq<TileModel> {
    if children.len() == 0 {
        tiles
    } else {
        let tile = tiles[start as int];
        let vertical = tiles[children[0] as int].center.0 == tile.center.0;
        let length = line_length(tiles, children, vertical);
        adopt_all(tiles, children, start).update(
            start as int,
            TileModel {
                size: if vertical {
                    (tile.size.0, (tile.size.1 + length) as u32)
                } else {
                    ((tile.size.0 + length) as u32, tile.size.1)
                },
                neighbors: tile.neighbors.union(line_neighbors(tiles, children)),
                ..tile
            },
        )
    }
}

/// The grown tile's size fits its type.
pub open spec fn line_fits(tiles: Seq<TileModel>, start: usize, children: Seq<usize>) -> bool {
    let tile = tiles[start as int];
    if tiles[children[0] as int].center.0 == tile.center.0 {
        tile.size.1 + line_length(tiles, children, true) <= u32::MAX
    } else {
        tile.size.0 + line_length(tiles, children, false) <= u32::MAX
    }
}

/// Listing one more tile merges that tile.
pub(crate) proof fn lemma_adopt_next(
    tiles: Seq<TileModel>,
    children: Seq<usize>,
    parent: usize,
    k: int,
)
    requires
        0 <= k < children.len(),
        children[k] < tiles.len(),
    ensures
        adopt_all(tiles, children.take(k + 1), parent) == adopt_all(
            tiles,
            children.take(k),
            parent,
        ).update(children[k] as int, tiles[children[k] as int].adopted(parent)),
{
    let (now, was) = (children.take(k + 1), children.take(k));
    assert forall|i: int| listed(now, i) <==> (listed(was, i) || i == children[k]) by {
        if listed(was, i) {
            let j = choose|j: int| 0 <= j < was.len() && #[trigger] was[j] == i;
            assert(now[j] == i);
        }
        assert(now[k] == children[k]);
        if listed(now, i) && i != children[k] {
            let j = choose|j: int| 0 <= j < now.len() && #[trigger] now[j] == i;
            assert(was[j] == i);
        }
    }
    assert(adopt_all(tiles, now, parent) =~= adopt_all(tiles, was, parent).update(
        children[k] as int,
        tiles[children[k] as int].adopted(parent),
    ));
}

impl QuadTree {
    /// merge tiles that are arranged in a line
    pub fn merge_line(&mut self, start_i: usize, children: Vec<usize>)
        requires
            start_i < old(self).tiles@.len(),
            forall|k: int|
                0 <= k < children@.len() ==> #[trigger] children@[k] < old(self).tiles@.len()
                    && children@[k] != start_i,
            children@.len() > 0 ==> line_fits(old(self).model(), start_i, children@),
        ensures
            final(self).width == old(self).width,
            final(self).height == old(self).height,
            final(self).model() == merged_line(old(self).model(), start_i, children@),
    {
        if children.len() == 0 {
            return;
        }
        let ghost was: Seq<TileModel> = self.model();
        let is_vertical: bool = self.tiles[children[0]].center.0 == self.tiles[start_i].center.0;
        let mut new_neighbors: HeightSet = HeightSet::new();
        let mut new_size: u32 = 0;
        let mut k: usize = 0;
        while k < children.len()
            invariant
                k <= children@.len(),
                self.width == old(self).width,
                self.height == old(self).height,
                was == old(self).model(),
                start_i < was.len(),
                self.model() == adopt_all(was, children@.take(k as int), start_i),
                self.tiles@.len() == was.len(),
                new_neighbors@ == line_neighbors(was, children@.take(k as int)),
                new_size == line_length(was, children@.take(k as int), is_vertical),
                line_length(was, children@, is_vertical) <= u32::MAX,
                forall|j: int|
                    0 <= j < children@.len() ==> #[trigger] children@[j] < was.len() && children@[j]
                        != start_i,
            decreases children@.len() - k,
        {
            let i: usize = children[k];
            let ghost done: Seq<usize> = children@.take(k as int);
            let ghost next: Seq<usize> = children@.take(k + 1);
            proof {
                assert(next.drop_last() =~= done);
                assert(next.last() == i);
                lemma_adopt_next(was, children@, start_i, k as int);
                lemma_line_length_grows(was, children@, k + 1, is_vertical);
                assert(self.model()[i as int] == self.tiles@[i as int]@);
            }
            let ghost before: Seq<TileModel> = self.model();
            new_neighbors.extend(&self.tiles[i].neighbors);
            let length: u32 = if is_vertical {
                self.tiles[i].size.1
            } else {
                self.tiles[i].size.0
            };
            self.tiles[i].parent = Some(start_i);
            proof {
                assert(self.model() =~= before.update(i as int, before[i as int].adopted(start_i)));
                assert(before[i as int].adopted(start_i) == was[i as int].adopted(start_i));
            }
            new_size = new_size + length;
            k = k + 1;
        }
        let ghost adopted: Seq<TileModel> = self.model();
        proof {
            assert(children@.take(k as int) =~= children@);
            assert(!listed(children@, start_i as int));
            assert(adopted[start_i as int] == self.tiles@[start_i as int]@);
        }
        self.tiles[start_i].neighbors.extend(&new_neighbors);
        if is_vertical {
            self.tiles[start_i].size.1 = self.tiles[start_i].size.1 + new_size;
        } else {
            self.tiles[start_i].size.0 = self.tiles[start_i].size.0 + new_size;
        }
        proof {
            assert(self.model() =~= merged_line(was, start_i, children@));
        }
    }
}

pub(crate) proof fn lemma_line_length_grows(
    tiles: Seq<TileModel>,
    children: Seq<usize>,
    k: int,
    vertical: bool,
)
    requires
        0 <= k <= children.len(),
    ensures
        0 <= line_length(tiles, children.take(k), vertical) <= line_length(
            tiles,
            children,
            vertical,
        ),
    decreases children.len(),
{
    if k == children.len() {
        assert(children.take(k) =~= children);
        if k > 0 {
            lemma_line_length_grows(tiles, children.drop_last(), k - 1, vertical);
        }
    } else {
        lemma_line_length_grows(tiles, children.drop_last(), k, vertical);
        assert(children.drop_last().take(k) =~= children.take(k));
    }
}

/// Four equal squares merge: where unmerged squares of the pass's side, of one height and color, meet at a
/// multiple of twice that side, the first one becomes a square of twice the side and the others are merged
/// into it.
pub proof fn four_equal_squares_merge(
    tiles: Seq<TileModel>,
    width: int,
    height: int,
    space: int,
    x: int,
    y: int,
)
    requires
        well_formed(tiles, width, height),
        0 < space,
        width <= u32::MAX,
        height <= u32::MAX,
        0 <= x,
        0 <= y,
        x % (2 * space) == 0,
        y % (2 * space) == 0,
        x + space < width,
        y + space < height,
        ({
            let first = tiles[cell(x, y, height)];
            forall|a: int, b: int|
                (a == x || a == x + space) && (b == y || b == y + space) ==> {
                    let tile = #[trigger] tiles[cell(a, b, height)];
                    &&& tile.size == (space as u32, space as u32)
                    &&& tile.height == first.height
                    &&& tile.color == first.color
                    &&& tile.parent is None
                }
        }),
    ensures
        ({
            let next = quad_level(tiles, width, height, space);
            &&& next[cell(x, y, height)].size.0 == 2 * space
            &&& next[cell(x, y, height)].size.1 == 2 * space
            &&& next[cell(x, y, height)].parent is None
            &&& next[cell(x + space, y, height)].parent is Some
            &&& next[cell(x, y + space, height)].parent is Some
            &&& next[cell(x + space, y + space, height)].parent is Some
        }),
{
    lemma_cell(x, y, width, height);
    lemma_cell(x + space, y, width, height);
    lemma_cell(x, y + space, width, height);
    lemma_cell(x + space, y + space, width, height);
    assert(tiles[cell(x, y, height)].parent is None);
    assert(tiles[cell(x + space, y, height)].parent is None);
    assert(tiles[cell(x, y + space, height)].parent is None);
    assert(tiles[cell(x + space, y + space, height)].parent is None);
    assert(tile_in_grid(tiles[cell(x + space, y + space, height)], width, height, x + space, y + space));
    assert(block_base(x, space) == x && block_base(y, space) == y);
    let m = 2 * space;
    vstd::arithmetic::div_mod::lemma_fundamental_div_mod(x, m);
    vstd::arithmetic::div_mod::lemma_fundamental_div_mod(y, m);
    vstd::arithmetic::mul::lemma_mul_is_commutative(m, x / m);
    vstd::arithmetic::mul::lemma_mul_is_commutative(m, y / m);
    vstd::arithmetic::div_mod::lemma_fundamental_div_mod_converse(x + space, m, x / m, space);
    vstd::arithmetic::div_mod::lemma_fundamental_div_mod_converse(y + space, m, y / m, space);
    assert(block_base(x + space, space) == x && block_base(y + space, space) == y);
    assert(block_merges(tiles, width, height, space, x, y));
}

} // verus!
