//! Merging of tiles that lie in a line.
use crate::opt::quad::{QuadTree, TileModel};
use crate::opt::MAX_BRICK_UNITS;
use vstd::prelude::*;

verus! {

/// Length of a tile along a direction.
pub open spec fn along(tile: TileModel, vertical: bool) -> int {
    if vertical {
        tile.size.1 as int
    } else {
        tile.size.0 as int
    }
}

/// Cells from `(x, y)` to the edge of the grid along a direction.
pub open spec fn room(width: int, height: int, x: int, y: int, vertical: bool) -> int {
    if vertical {
        height - y
    } else {
        width - x
    }
}

/// Storage position of the cell `reach` steps from `(x, y)` along a direction.
pub open spec fn step_cell(height: int, x: int, y: int, vertical: bool, reach: int) -> int {
    if vertical {
        crate::opt::quad::cell(x, y + reach, height)
    } else {
        crate::opt::quad::cell(x + reach, y, height)
    }
}

/// The tiles that can be appended one after the other to the tile at `(x, y)`, from `reach` cells
/// on: each starts where the one before ends, is similar to the first tile, and keeps the whole
/// within the brick unit cap.
pub open spec fn line_run(
    tiles: Seq<TileModel>,
    width: int,
    height: int,
    scale: int,
    x: int,
    y: int,
    vertical: bool,
    reach: int,
) -> Seq<usize>
    decreases
        if reach < room(width, height, x, y, vertical) {
            room(width, height, x, y, vertical) - reach
        } else {
            0
        },
{
    let i = step_cell(height, x, y, vertical, reach);
    let length = along(tiles[i], vertical);
    if reach >= room(width, height, x, y, vertical) || length <= 0 || (reach + length) * scale
        > MAX_BRICK_UNITS || !tiles[crate::opt::quad::cell(x, y, height)].similar_line(tiles[i]) {
        Seq::empty()
    } else {
        seq![i as usize] + line_run(
            tiles,
            width,
            height,
            scale,
            x,
            y,
            vertical,
            reach + length,
        )
    }
}

/// The longest run from the tile at `(x, y)`; of two equally long ones the vertical run.
pub open spec fn best_run(
    tiles: Seq<TileModel>,
    width: int,
    height: int,
    scale: int,
    x: int,
    y: int,
) -> Seq<usize> {
    let start = tiles[crate::opt::quad::cell(x, y, height)];
    let right = line_run(tiles, width, height, scale, x, y, false, start.size.0 as int);
    let down = line_run(tiles, width, height, scale, x, y, true, start.size.1 as int);
    if right.len() > down.len() {
        right
    } else {
        down
    }
}

/// The tiles after the tile at `(x, y)`, if it is unmerged, took over its longest run.
pub open spec fn line_step(
    tiles: Seq<TileModel>,
    width: int,
    height: int,
    scale: int,
    x: int,
    y: int,
) -> Seq<TileModel> {
    let i = crate::opt::quad::cell(x, y, height);
    if tiles[i].parent is Some {
        tiles
    } else {
        crate::opt::quad::merged_line(
            tiles,
            i as usize,
            best_run(tiles, width, height, scale, x, y),
        )
    }
}

/// The tiles after the first `rows` tiles of column `x` took over their runs.
pub open spec fn line_rows(
    tiles: Seq<TileModel>,
    width: int,
    height: int,
    scale: int,
    x: int,
    rows: nat,
) -> Seq<TileModel>
    decreases rows,
{
    if rows == 0 {
        tiles
    } else {
        let y = (rows - 1) as nat;
        line_step(
            line_rows(tiles, width, height, scale, x, y),
            width,
            height,
            scale,
            x,
            y as int,
        )
    }
}

/// The tiles after the tiles of the first `columns` columns took over their runs.
pub open spec fn line_columns(
    tiles: Seq<TileModel>,
    width: int,
    height: nat,
    scale: int,
    columns: nat,
) -> Seq<TileModel>
    decreases columns,
{
    if columns == 0 {
        tiles
    } else {
        let x = (columns - 1) as nat;
        line_rows(
            line_columns(tiles, width, height, scale, x),
            width,
            height as int,
            scale,
            x as int,
            height,
        )
    }
}

pub(crate) proof fn lemma_length_front(
    tiles: Seq<TileModel>,
    first: usize,
    rest: Seq<usize>,
    vertical: bool,
)
    ensures
        crate::opt::quad::line_length(tiles, seq![first] + rest, vertical) == along(
            tiles[first as int],
            vertical,
        ) + crate::opt::quad::line_length(tiles, rest, vertical),
    decreases rest.len(),
{
    let all = seq![first] + rest;
    if rest.len() == 0 {
        assert(all.drop_last() =~= rest);
        assert(all.last() == first);
        assert(crate::opt::quad::line_length(tiles, rest, vertical) == 0);
    } else {
        assert(all.drop_last() =~= seq![first] + rest.drop_last());
        assert(all.last() == rest.last());
        lemma_length_front(tiles, first, rest.drop_last(), vertical);
    }
}

/// What holds of a run that starts `reach` cells from `(x, y)`.
pub open spec fn run_shape(
    tiles: Seq<TileModel>,
    width: int,
    height: int,
    scale: int,
    x: int,
    y: int,
    vertical: bool,
    reach: int,
    run: Seq<usize>,
) -> bool {
    let length = crate::opt::quad::line_length(tiles, run, vertical);
    &&& 0 <= length
    &&& reach + length <= room(width, height, x, y, vertical)
    &&& run.len() > 0 ==> 0 < length && (reach + length) * scale <= MAX_BRICK_UNITS
    &&& forall|k: int|
        0 <= k < run.len() ==> is_run_tile(
            tiles,
            width,
            height,
            x,
            y,
            vertical,
            reach,
            #[trigger] run[k],
        )
    &&& forall|j: int, k: int| 0 <= j < k < run.len() ==> run[j] < run[k]
}

/// A tile of a run: it lies at least `reach` cells along the line and is similar to the first.
pub open spec fn is_run_tile(
    tiles: Seq<TileModel>,
    width: int,
    height: int,
    x: int,
    y: int,
    vertical: bool,
    reach: int,
    i: usize,
) -> bool {
    let at = if vertical {
        tiles[i as int].center.1 - y
    } else {
        tiles[i as int].center.0 - x
    };
    &&& i < tiles.len()
    &&& reach <= at < room(width, height, x, y, vertical)
    &&& i == step_cell(height, x, y, vertical, at)
    &&& tiles[crate::opt::quad::cell(x, y, height)].similar_line(tiles[i as int])
}

proof fn lemma_step_cell(width: int, height: int, x: int, y: int, vertical: bool, reach: int)
    requires
        0 <= x < width,
        0 <= y < height,
        0 <= reach < room(width, height, x, y, vertical),
    ensures
        0 <= step_cell(height, x, y, vertical, reach) < width * height,
{
    if vertical {
        crate::opt::quad::lemma_cell(x, y + reach, width, height);
    } else {
        crate::opt::quad::lemma_cell(x + reach, y, width, height);
    }
}

proof fn lemma_step_increases(height: int, x: int, y: int, vertical: bool, a: int, b: int)
    requires
        0 < height,
        a < b,
    ensures
        step_cell(height, x, y, vertical, a) < step_cell(height, x, y, vertical, b),
{
    assert(x * height + a * height < x * height + b * height && (x + a) * height == x * height + a
        * height && (x + b) * height == x * height + b * height) by (nonlinear_arith)
        requires
            0 < height,
            a < b,
    ;
}

pub(crate) proof fn lemma_run_shape(
    tiles: Seq<TileModel>,
    width: int,
    height: int,
    scale: int,
    x: int,
    y: int,
    vertical: bool,
    reach: int,
)
    requires
        crate::opt::quad::well_formed(tiles, width, height),
        width * height <= usize::MAX,
        scale >= 0,
        0 <= x < width,
        0 <= y < height,
        0 <= reach <= room(width, height, x, y, vertical),
    ensures
        run_shape(
            tiles,
            width,
            height,
            scale,
            x,
            y,
            vertical,
            reach,
            line_run(tiles, width, height, scale, x, y, vertical, reach),
        ),
    decreases room(width, height, x, y, vertical) - reach,
{
    let run = line_run(tiles, width, height, scale, x, y, vertical, reach);
    if run.len() > 0 {
        let i = step_cell(height, x, y, vertical, reach);
        let length = along(tiles[i], vertical);
        let rest = line_run(tiles, width, height, scale, x, y, vertical, reach + length);
        lemma_step_cell(width, height, x, y, vertical, reach);
        assert(crate::opt::quad::tile_in_grid(
            tiles[i],
            width,
            height,
            if vertical {
                x
            } else {
                x + reach
            },
            if vertical {
                y + reach
            } else {
                y
            },
        ));
        assert(run =~= seq![i as usize] + rest);
        lemma_run_shape(tiles, width, height, scale, x, y, vertical, reach + length);
        lemma_length_front(tiles, i as usize, rest, vertical);
        if rest.len() == 0 {
            assert(crate::opt::quad::line_length(tiles, rest, vertical) == 0);
        }
        assert forall|k: int| 0 <= k < run.len() implies is_run_tile(
            tiles,
            width,
            height,
            x,
            y,
            vertical,
            reach,
            #[trigger] run[k],
        ) by {
            if k > 0 {
                assert(run[k] == rest[k - 1]);
                assert(is_run_tile(
                    tiles,
                    width,
                    height,
                    x,
                    y,
                    vertical,
                    reach + length,
                    rest[k - 1],
                ));
            }
        }
        assert forall|j: int, k: int| 0 <= j < k < run.len() implies run[j] < run[k] by {
            assert(run[k] == rest[k - 1]);
            assert(is_run_tile(
                tiles,
                width,
                height,
                x,
                y,
                vertical,
                reach + length,
                rest[k - 1],
            ));
            if j == 0 {
                let at = if vertical {
                    tiles[rest[k - 1] as int].center.1 - y
                } else {
                    tiles[rest[k - 1] as int].center.0 - x
                };
                lemma_step_increases(height, x, y, vertical, reach, at);
            } else {
                assert(run[j] == rest[j - 1]);
            }
        }
    } else {
        assert(crate::opt::quad::line_length(tiles, run, vertical) == 0);
    }
}

/// The number of unmerged tiles drops by one for each tile that is merged.
proof fn lemma_live_adopt(tiles: Seq<TileModel>, children: Seq<usize>, parent: usize, n: int)
    requires
        0 <= n <= children.len(),
        forall|k: int|
            0 <= k < children.len() ==> #[trigger] children[k] < tiles.len()
                && tiles[children[k] as int].parent is None,
        forall|j: int, k: int| 0 <= j < k < children.len() ==> children[j] < children[k],
    ensures
        crate::opt::quad::live(crate::opt::quad::adopt_all(tiles, children.take(n), parent))
            == crate::opt::quad::live(tiles) - n,
    decreases n,
{
    if n == 0 {
        assert(crate::opt::quad::adopt_all(tiles, children.take(0), parent) =~= tiles);
    } else {
        lemma_live_adopt(tiles, children, parent, n - 1);
        crate::opt::quad::lemma_adopt_next(tiles, children, parent, n - 1);
        let before = crate::opt::quad::adopt_all(tiles, children.take(n - 1), parent);
        let i = children[n - 1] as int;
        assert(!crate::opt::quad::listed(children.take(n - 1), i));
        crate::opt::quad::lemma_live_update(before, i, tiles[i].adopted(parent));
    }
}

/// The best run of a tile, and the tiles after it was taken over.
pub(crate) proof fn lemma_line_step(
    tiles: Seq<TileModel>,
    width: int,
    height: int,
    scale: int,
    x: int,
    y: int,
)
    requires
        crate::opt::quad::well_formed(tiles, width, height),
        width * height <= usize::MAX,
        width <= u32::MAX,
        height <= u32::MAX,
        scale >= 0,
        0 <= x < width,
        0 <= y < height,
        tiles[crate::opt::quad::cell(x, y, height)].parent is None,
    ensures
        crate::opt::quad::well_formed(
            line_step(tiles, width, height, scale, x, y),
            width,
            height,
        ),
        crate::opt::quad::live(line_step(tiles, width, height, scale, x, y))
            == crate::opt::quad::live(tiles) - best_run(tiles, width, height, scale, x, y).len(),
{
    let i = crate::opt::quad::cell(x, y, height);
    crate::opt::quad::lemma_cell(x, y, width, height);
    let start = tiles[i];
    let run = best_run(tiles, width, height, scale, x, y);
    let right = line_run(tiles, width, height, scale, x, y, false, start.size.0 as int);
    let vertical = !(right.len() > line_run(
        tiles,
        width,
        height,
        scale,
        x,
        y,
        true,
        start.size.1 as int,
    ).len());
    let reach = along(start, vertical);
    lemma_run_shape(tiles, width, height, scale, x, y, vertical, reach);
    let after = line_step(tiles, width, height, scale, x, y);
    if run.len() > 0 {
        lemma_run_direction(tiles, width, height, scale, x, y, vertical, reach, run);
        let adopted = crate::opt::quad::adopt_all(tiles, run, i as usize);
        assert(!crate::opt::quad::listed(run, i)) by {
            if crate::opt::quad::listed(run, i) {
                let k = choose|k: int| 0 <= k < run.len() && #[trigger] run[k] == i;
                assert(is_run_tile(tiles, width, height, x, y, vertical, reach, run[k]));
            }
        }
        assert forall|a: int, b: int|
            0 <= a < width && 0 <= b < height implies crate::opt::quad::tile_in_grid(
            #[trigger] after[crate::opt::quad::cell(a, b, height)],
            width,
            height,
            a,
            b,
        ) by {
            crate::opt::quad::lemma_cell(a, b, width, height);
            assert(crate::opt::quad::tile_in_grid(
                tiles[crate::opt::quad::cell(a, b, height)],
                width,
                height,
                a,
                b,
            ));
        }
        assert forall|k: int| 0 <= k < run.len() implies #[trigger] run[k] < tiles.len()
            && tiles[run[k] as int].parent is None by {
            assert(is_run_tile(tiles, width, height, x, y, vertical, reach, run[k]));
        }
        assert(run.take(run.len() as int) =~= run);
        lemma_live_adopt(tiles, run, i as usize, run.len() as int);
        crate::opt::quad::lemma_live_update(adopted, i, after[i]);
        assert(after =~= adopted.update(i, after[i]));
    }
}

/// A run's direction shows in its first tile.
pub(crate) proof fn lemma_run_direction(
    tiles: Seq<TileModel>,
    width: int,
    height: int,
    scale: int,
    x: int,
    y: int,
    vertical: bool,
    reach: int,
    run: Seq<usize>,
)
    requires
        crate::opt::quad::well_formed(tiles, width, height),
        0 <= x < width,
        0 <= y < height,
        1 <= reach,
        run.len() > 0,
        run_shape(tiles, width, height, scale, x, y, vertical, reach, run),
    ensures
        (tiles[run[0] as int].center.0 == tiles[crate::opt::quad::cell(x, y, height)].center.0)
            == vertical,
{
    assert(is_run_tile(tiles, width, height, x, y, vertical, reach, run[0]));
    assert(crate::opt::quad::tile_in_grid(
        tiles[crate::opt::quad::cell(x, y, height)],
        width,
        height,
        x,
        y,
    ));
    let at = if vertical {
        tiles[run[0] as int].center.1 - y
    } else {
        tiles[run[0] as int].center.0 - x
    };
    if vertical {
        assert(crate::opt::quad::tile_in_grid(
            tiles[crate::opt::quad::cell(x, y + at, height)],
            width,
            height,
            x,
            y + at,
        ));
    }
}

impl QuadTree {
    /// The run of tiles that the tile at `(x, y)` can take over along a direction.
    fn find_run(&self, x: u32, y: u32, tile_scale: u32, vertical: bool) -> (run: Vec<usize>)
        requires
            self.wf(),
            x < self.width,
            y < self.height,
            self.width * tile_scale <= u32::MAX,
            self.height * tile_scale <= u32::MAX,
        ensures
            run@ == line_run(
                self.model(),
                self.width as int,
                self.height as int,
                tile_scale as int,
                x as int,
                y as int,
                vertical,
                along(
                    self.model()[crate::opt::quad::cell(x as int, y as int, self.height as int)],
                    vertical,
                ),
            ),
    {
        let ghost tiles: Seq<TileModel> = self.model();
        let ghost (w, h): (int, int) = (self.width as int, self.height as int);
        let total: usize = self.tiles.len();
        proof {
            crate::opt::quad::lemma_cell(x as int, y as int, w, h);
            assert(crate::opt::quad::tile_in_grid(
                tiles[crate::opt::quad::cell(x as int, y as int, h)],
                w,
                h,
                x as int,
                y as int,
            ));
        }
        let start_i: usize = self.index(x, y);
        let limit: u32 = if vertical {
            self.height - y
        } else {
            self.width - x
        };
        let mut run: Vec<usize> = Vec::new();
        let mut reach: u32 = if vertical {
            self.tiles[start_i].size.1
        } else {
            self.tiles[start_i].size.0
        };
        let ghost full: Seq<usize> = line_run(
            tiles,
            w,
            h,
            tile_scale as int,
            x as int,
            y as int,
            vertical,
            reach as int,
        );
        assert(run@ + full =~= full);
        let mut open: bool = true;
        while open && reach < limit
            invariant
                tiles == self.model(),
                w == self.width,
                h == self.height,
                self.wf(),
                x < self.width,
                y < self.height,
                self.width * tile_scale <= u32::MAX,
                self.height * tile_scale <= u32::MAX,
                total == self.tiles@.len(),
                start_i == crate::opt::quad::cell(x as int, y as int, h),
                start_i < tiles.len(),
                limit == room(w, h, x as int, y as int, vertical),
                1 <= reach <= limit,
                open ==> run@ + line_run(
                    tiles,
                    w,
                    h,
                    tile_scale as int,
                    x as int,
                    y as int,
                    vertical,
                    reach as int,
                ) == full,
                !open ==> run@ == full,
            decreases
                limit - reach,
                if open {
                    1int
                } else {
                    0
                },
        {
            proof {
                lemma_step_cell(w, h, x as int, y as int, vertical, reach as int);
            }
            let i: usize = if vertical {
                self.index(x, y + reach)
            } else {
                self.index(x + reach, y)
            };
            let length: u32 = if vertical {
                self.tiles[i].size.1
            } else {
                self.tiles[i].size.0
            };
            proof {
                let (a, b): (int, int) = if vertical {
                    (x as int, y + reach)
                } else {
                    (x + reach, y as int)
                };
                assert(crate::opt::quad::tile_in_grid(
                    tiles[crate::opt::quad::cell(a, b, h)],
                    w,
                    h,
                    a,
                    b,
                ));
                assert((reach + length) * tile_scale <= (if vertical {
                    h
                } else {
                    w
                }) * tile_scale) by (nonlinear_arith)
                    requires
                        reach + length <= if vertical {
                            h
                        } else {
                            w
                        },
                        tile_scale >= 0,
                ;
                assert(0 <= (reach + length) * tile_scale) by (nonlinear_arith);
            }
            if (reach + length) * tile_scale > MAX_BRICK_UNITS as u32
                || !self.tiles[start_i].similar_line(&self.tiles[i]) {
                open = false;
                assert(run@ + Seq::<usize>::empty() =~= run@);
            } else {
                let ghost before: Seq<usize> = run@;
                run.push(i);
                proof {
                    let rest = line_run(
                        tiles,
                        w,
                        h,
                        tile_scale as int,
                        x as int,
                        y as int,
                        vertical,
                        reach + length,
                    );
                    assert(run@ + rest =~= before + (seq![i] + rest));
                }
                reach = reach + length;
            }
        }
        assert(run@ + Seq::<usize>::empty() =~= run@);
        run
    }

    /// optimize by nearby bricks in line
    pub fn line_optimize(&mut self, tile_scale: u32) -> (count: usize)
        requires
            old(self).wf(),
            old(self).width * tile_scale <= u32::MAX,
            old(self).height * tile_scale <= u32::MAX,
        ensures
            final(self).wf(),
            final(self).width == old(self).width,
            final(self).height == old(self).height,
            final(self).model() == line_columns(
                old(self).model(),
                old(self).width as int,
                old(self).height as nat,
                tile_scale as int,
                old(self).width as nat,
            ),
            count == crate::opt::quad::live(old(self).model()) - crate::opt::quad::live(
                final(self).model(),
            ),
    {
        let ghost was: Seq<TileModel> = self.model();
        let ghost (w, h, scale): (int, int, int) = (
            self.width as int,
            self.height as int,
            tile_scale as int,
        );
        let total: usize = self.tiles.len();
        proof {
            crate::opt::quad::lemma_live_bounds(was);
        }
        let mut count: usize = 0;
        let mut x: u32 = 0;
        while x < self.width
            invariant
                x <= self.width,
                self.wf(),
                w == self.width,
                h == self.height,
                scale == tile_scale,
                self.width == old(self).width,
                self.height == old(self).height,
                self.width * tile_scale <= u32::MAX,
                self.height * tile_scale <= u32::MAX,
                was == old(self).model(),
                total == was.len(),
                w * h == total,
                self.model() == line_columns(was, w, h as nat, scale, x as nat),
                count == crate::opt::quad::live(was) - crate::opt::quad::live(self.model()),
                crate::opt::quad::live(was) <= total,
            decreases self.width - x,
        {
            let ghost column: Seq<TileModel> = self.model();
            let mut y: u32 = 0;
            while y < self.height
                invariant
                    x < self.width,
                    y <= self.height,
                    self.wf(),
                    w == self.width,
                    h == self.height,
                    scale == tile_scale,
                    self.width == old(self).width,
                    self.height == old(self).height,
                    self.width * tile_scale <= u32::MAX,
                    self.height * tile_scale <= u32::MAX,
                    total == was.len(),
                    w * h == total,
                    self.model() == line_rows(column, w, h, scale, x as int, y as nat),
                    count == crate::opt::quad::live(was) - crate::opt::quad::live(self.model()),
                    crate::opt::quad::live(was) <= total,
                decreases self.height - y,
            {
                let ghost tiles: Seq<TileModel> = self.model();
                proof {
                    crate::opt::quad::lemma_cell(x as int, y as int, w, h);
                }
                let start_i: usize = self.index(x, y);
                if self.tiles[start_i].parent.is_none() {
                    let horiz_tiles: Vec<usize> = self.find_run(x, y, tile_scale, false);
                    let vert_tiles: Vec<usize> = self.find_run(x, y, tile_scale, true);
                    let children: Vec<usize> = if horiz_tiles.len() > vert_tiles.len() {
                        horiz_tiles
                    } else {
                        vert_tiles
                    };
                    let merged: usize = children.len();
                    proof {
                        assert(children@ == best_run(tiles, w, h, scale, x as int, y as int));
                        lemma_line_step(tiles, w, h, scale, x as int, y as int);
                        lemma_run_lengths(tiles, w, h, scale, x as int, y as int);
                        crate::opt::quad::lemma_live_bounds(
                            line_step(tiles, w, h, scale, x as int, y as int),
                        );
                    }
                    self.merge_line(start_i, children);
                    count = count + merged;
                }
                y = y + 1;
            }
            x = x + 1;
        }
        count
    }
}

/// The sizes of a best run stay inside the machine integers.
pub(crate) proof fn lemma_run_lengths(
    tiles: Seq<TileModel>,
    width: int,
    height: int,
    scale: int,
    x: int,
    y: int,
)
    requires
        crate::opt::quad::well_formed(tiles, width, height),
        width * height <= usize::MAX,
        width <= u32::MAX,
        height <= u32::MAX,
        scale >= 0,
        0 <= x < width,
        0 <= y < height,
    ensures
        forall|k: int|
            0 <= k < best_run(tiles, width, height, scale, x, y).len() ==> #[trigger] best_run(
                tiles,
                width,
                height,
                scale,
                x,
                y,
            )[k] < tiles.len() && best_run(tiles, width, height, scale, x, y)[k]
                != crate::opt::quad::cell(x, y, height),
        best_run(tiles, width, height, scale, x, y).len() > 0 ==> crate::opt::quad::line_fits(
            tiles,
            crate::opt::quad::cell(x, y, height) as usize,
            best_run(tiles, width, height, scale, x, y),
        ),
{
    let i = crate::opt::quad::cell(x, y, height);
    crate::opt::quad::lemma_cell(x, y, width, height);
    let start = tiles[i];
    let run = best_run(tiles, width, height, scale, x, y);
    let right = line_run(tiles, width, height, scale, x, y, false, start.size.0 as int);
    let vertical = !(right.len() > line_run(
        tiles,
        width,
        height,
        scale,
        x,
        y,
        true,
        start.size.1 as int,
    ).len());
    let reach = along(start, vertical);
    assert(crate::opt::quad::tile_in_grid(start, width, height, x, y));
    lemma_run_shape(tiles, width, height, scale, x, y, vertical, reach);
    if run.len() > 0 {
        lemma_run_direction(tiles, width, height, scale, x, y, vertical, reach, run);
    }
    assert forall|k: int| 0 <= k < run.len() implies #[trigger] run[k] < tiles.len() && run[k]
        != i by {
        assert(is_run_tile(tiles, width, height, x, y, vertical, reach, run[k]));
    }
}

/// A run is as long as can be: where the grid has another tile after it that lies in line with the first
/// one and is as wide across, of the same height and color, and unmerged as the first, taking it over would
/// exceed the brick unit cap.
pub proof fn runs_cannot_be_longer(
    tiles: Seq<TileModel>,
    width: int,
    height: int,
    scale: int,
    x: int,
    y: int,
    vertical: bool,
    reach: int,
)
    requires
        crate::opt::quad::well_formed(tiles, width, height),
        width * height <= usize::MAX,
        0 <= x < width,
        0 <= y < height,
        1 <= reach,
    ensures
        ({
            let run = line_run(tiles, width, height, scale, x, y, vertical, reach);
            let first = tiles[crate::opt::quad::cell(x, y, height)];
            let end = reach + crate::opt::quad::line_length(tiles, run, vertical);
            let next = if vertical {
                tiles[crate::opt::quad::cell(x, y + end, height)]
            } else {
                tiles[crate::opt::quad::cell(x + end, y, height)]
            };
            let in_line = if vertical {
                y + end < height && next.center.0 == first.center.0 && next.size.0 == first.size.0
                    && next.size.1 > 0
            } else {
                x + end < width && next.center.1 == first.center.1 && next.size.1 == first.size.1
                    && next.size.0 > 0
            };
            in_line && next.height == first.height && next.color == first.color && first.parent is None
                && next.parent is None ==> (end + if vertical {
                next.size.1
            } else {
                next.size.0
            }) * scale > 500
        }),
    decreases
            if reach < room(width, height, x, y, vertical) {
                room(width, height, x, y, vertical) - reach
            } else {
                0
            },
{
    let i = step_cell(height, x, y, vertical, reach);
    let length = along(tiles[i], vertical);
    let run = line_run(tiles, width, height, scale, x, y, vertical, reach);
    if run.len() > 0 {
        let rest = line_run(tiles, width, height, scale, x, y, vertical, reach + length);
        assert(run =~= seq![i as usize] + rest);
        runs_cannot_be_longer(tiles, width, height, scale, x, y, vertical, reach + length);
        lemma_step_cell(width, height, x, y, vertical, reach);
        lemma_length_front(tiles, i as usize, rest, vertical);
        assert(run[0] == i as usize);
    } else {
        assert(crate::opt::quad::line_length(tiles, run, vertical) == 0);
    }
}

/// A tile takes over the longer of its two runs, to the right and down.
pub proof fn the_longer_run_is_taken(
    tiles: Seq<TileModel>,
    width: int,
    height: int,
    scale: int,
    x: int,
    y: int,
)
    ensures
        ({
            let start = tiles[crate::opt::quad::cell(x, y, height)];
            let right = line_run(tiles, width, height, scale, x, y, false, start.size.0 as int);
            let down = line_run(tiles, width, height, scale, x, y, true, start.size.1 as int);
            let best = best_run(tiles, width, height, scale, x, y);
            &&& best == right || best == down
            &&& best.len() >= right.len()
            &&& best.len() >= down.len()
        }),
{
}

} // verus!
