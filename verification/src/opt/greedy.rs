//! Greedy meshing of a binary plane into rectangles.
use crate::opt::bitmask::BitMask;
use vstd::prelude::*;

verus! {

/// A rectangle of cells: columns `x .. x + w`, rows `y .. y + h`.
#[derive(Debug, Clone, Copy, PartialEq, Eq, Structural)]
pub struct GreedyQuad {
    pub x: u32,
    pub y: u32,
    pub w: u32,
    pub h: u32,
}

impl GreedyQuad {
    /// Whether the rectangle holds the cell `(x, y)`.
    pub open spec fn covers(self, x: int, y: int) -> bool {
        self.x <= x < self.x + self.w && self.y <= y < self.y + self.h
    }
}

/// The cells `(x, y)` set in a plane given as one mask per column.
pub open spec fn plane_cells(plane: Seq<BitMask>) -> Set<(int, int)> {
    Set::new(|c: (int, int)| 0 <= c.0 < plane.len() && plane[c.0].has(c.1))
}

/// No quad covers the cell `(x, y)`.
pub open spec fn uncovered(quads: Seq<GreedyQuad>, x: int, y: int) -> bool {
    forall|j: int| 0 <= j < quads.len() ==> !#[trigger] quads[j].covers(x, y)
}

/// The cells that none of the quads covers.
pub open spec fn remaining(cells: Set<(int, int)>, quads: Seq<GreedyQuad>) -> Set<(int, int)> {
    Set::new(|c: (int, int)| cells.contains(c) && uncovered(quads, c.0, c.1))
}

/// The region a mesh is asked to cover, and how far a quad may reach.
pub struct MeshBounds {
    /// Columns the plane has.
    pub columns: int,
    /// Columns in which quads may start.
    pub max_x: int,
    /// Rows that are meshed.
    pub max_y: int,
    /// Longest side of a quad.
    pub max_size: int,
}

impl MeshBounds {
    /// The columns in which quads start.
    pub open spec fn starts(self) -> int {
        if self.columns < self.max_x {
            self.columns
        } else {
            self.max_x
        }
    }
}

/// No set cell comes before `(x, y)` in column order.
pub open spec fn none_before(cells: Set<(int, int)>, bounds: MeshBounds, x: int, y: int) -> bool {
    forall|i: int, j: int|
        0 <= i < bounds.starts() && 0 <= j < bounds.max_y && (i < x || (i == x && j < y))
            ==> !#[trigger] cells.contains((i, j))
}

/// Every cell of the piece `y .. y + h` of column `x` is set.
pub open spec fn column_set(cells: Set<(int, int)>, x: int, y: int, h: int) -> bool {
    forall|j: int| y <= j < y + h ==> #[trigger] cells.contains((x, j))
}

/// `quad` is the greedy choice for `cells`: it starts at the first set cell, is as tall as the
/// run of set cells there allows, and then as wide as columns with that whole run set allow.
pub open spec fn is_greedy_quad(
    cells: Set<(int, int)>,
    bounds: MeshBounds,
    quad: GreedyQuad,
) -> bool {
    let (x, y) = (quad.x as int, quad.y as int);
    let (w, h) = (quad.w as int, quad.h as int);
    &&& x < bounds.starts()
    &&& y < bounds.max_y
    &&& none_before(cells, bounds, x, y)
    &&& 1 <= h <= bounds.max_size
    &&& y + h <= bounds.max_y
    &&& h == bounds.max_size || y + h == bounds.max_y || !cells.contains((x, y + h))
    &&& 1 <= w <= bounds.max_size
    &&& x + w <= bounds.columns
    &&& forall|i: int| x <= i < x + w ==> #[trigger] column_set(cells, i, y, h)
    &&& w == bounds.max_size || x + w == bounds.columns || !column_set(cells, x + w, y, h)
}

/// Each quad is the greedy choice for what the quads before it left.
pub open spec fn is_greedy_prefix(
    cells: Set<(int, int)>,
    bounds: MeshBounds,
    quads: Seq<GreedyQuad>,
) -> bool {
    forall|k: int|
        0 <= k < quads.len() ==> is_greedy_quad(
            remaining(cells, quads.take(k)),
            bounds,
            #[trigger] quads[k],
        )
}

/// The quads are the greedy mesh of the cells: each is the greedy choice for what the quads
/// before it left, and no cell is left. With a zero size limit there are no quads.
pub open spec fn is_greedy_mesh(
    cells: Set<(int, int)>,
    bounds: MeshBounds,
    quads: Seq<GreedyQuad>,
) -> bool {
    if bounds.max_size == 0 {
        quads.len() == 0
    } else {
        &&& is_greedy_prefix(cells, bounds, quads)
        &&& none_before(remaining(cells, quads), bounds, bounds.starts(), 0)
    }
}

/// Every mask's stored blocks span at most `u32::MAX` bits, so that bit counts fit.
pub open spec fn masks_fit(plane: Seq<BitMask>) -> bool {
    forall|x: int| 0 <= x < plane.len() ==> (#[trigger] plane[x]).capacity() <= u32::MAX
}

/// Adding a quad takes exactly its cells out of what remains.
proof fn lemma_remaining_push(cells: Set<(int, int)>, quads: Seq<GreedyQuad>, quad: GreedyQuad)
    ensures
        forall|x: int, y: int|
            #[trigger] remaining(cells, quads.push(quad)).contains((x, y)) <==> (remaining(
                cells,
                quads,
            ).contains((x, y)) && !quad.covers(x, y)),
{
    let more = quads.push(quad);
    assert forall|x: int, y: int|
        #[trigger] remaining(cells, more).contains((x, y)) <==> (remaining(cells, quads).contains(
            (x, y),
        ) && !quad.covers(x, y)) by {
        if uncovered(more, x, y) {
            assert(!more[quads.len() as int].covers(x, y));
            assert forall|j: int| 0 <= j < quads.len() implies !#[trigger] quads[j].covers(
                x,
                y,
            ) by {
                assert(!more[j].covers(x, y));
            }
        }
    }
}

/// A mask of the bits `y .. y + h` needs no more blocks than a row that holds those bits.
proof fn lemma_mask_blocks(row: BitMask, mask: BitMask, y: u32, h: u32)
    requires
        h > 0,
        forall|i: int| #[trigger] mask.has(i) <==> y <= i < y + h,
        forall|i: int| y <= i < y + h ==> row.has(i),
        y % 128 == 0 ==> mask@.len() == (h + 127) / 128 + y / 128,
        y % 128 != 0 ==> crate::opt::bitmask::trimmed(mask@),
    ensures
        mask@.len() <= row@.len(),
{
    assert(row.has(y + h - 1));
    if y % 128 != 0 && mask@.len() > 1 {
        let i: int = crate::opt::bitmask::lemma_last_block_has_bit(mask@);
        assert(mask.has(i));
        assert(row.has(i));
    }
}

/// The masks of a plane agree with a set of cells.
spec fn plane_is(plane: Seq<BitMask>, cells: Set<(int, int)>) -> bool {
    forall|x: int, y: int|
        0 <= x < plane.len() ==> #[trigger] plane[x].has(y) == cells.contains((x, y))
}

/// Whether the bits `y .. y + h` of `row` are all set; `low` holds the `h` lowest bits.
fn spans(row: &BitMask, low: &BitMask, y: u32, h: u32) -> (all: bool)
    requires
        h > 0,
        crate::opt::bitmask::trimmed(low@),
        forall|i: int| low.has(i) <==> 0 <= i < h,
    ensures
        all == (forall|j: int| y <= j < y + h ==> row.has(j)),
{
    let next: BitMask = row.shr(y).and(low);
    let all: bool = next == *low;
    proof {
        if all {
            assert forall|j: int| y <= j < y + h implies row.has(j) by {
                assert(low.has(j - y));
                assert(next.has(j - y));
            }
        } else if forall|j: int| y <= j < y + h ==> row.has(j) {
            assert forall|i: int|
                crate::opt::bitmask::bit_at(next@, i) == crate::opt::bitmask::bit_at(low@, i) by {
                assert(next.has(i) == low.has(i)) by {
                    if 0 <= i < h {
                        assert(row.has(i + y));
                    }
                }
            }
            crate::opt::bitmask::lemma_trimmed_unique(next@, low@);
        }
    }
    all
}

/// Clear the bits `y .. y + h` of `row`, all of which are set; `mask` holds exactly those bits.
fn clear_span(row: &mut BitMask, mask: &BitMask, y: u32, h: u32)
    requires
        h > 0,
        forall|i: int| mask.has(i) <==> y <= i < y + h,
        forall|i: int| y <= i < y + h ==> old(row).has(i),
        mask@.len() <= old(row)@.len(),
    ensures
        forall|i: int| final(row).has(i) <==> (old(row).has(i) && !(y <= i < y + h)),
        final(row)@.len() <= old(row)@.len(),
{
    row.xor_assign(mask);
}

/// Cut the greedy quad that starts at `(row, y)` with height `h` out of the plane.
fn cut_quad(
    data: &mut Vec<BitMask>,
    row: usize,
    y: u32,
    h: u32,
    max_size: u32,
    Ghost(left): Ghost<Set<(int, int)>>,
    Ghost(bounds): Ghost<MeshBounds>,
) -> (quad: GreedyQuad)
    requires
        row < old(data)@.len(),
        row < bounds.starts(),
        row < u32::MAX,
        bounds.columns == old(data)@.len(),
        bounds.max_size == max_size,
        y + h <= bounds.max_y,
        bounds.max_y <= u32::MAX,
        1 <= h <= max_size,
        masks_fit(old(data)@),
        plane_is(old(data)@, left),
        none_before(left, bounds, row as int, y as int),
        column_set(left, row as int, y as int, h as int),
        h == max_size || y + h == bounds.max_y || !left.contains((row as int, y + h)),
    ensures
        is_greedy_quad(left, bounds, quad),
        quad.x == row,
        quad.y == y,
        quad.h == h,
        final(data)@.len() == old(data)@.len(),
        masks_fit(final(data)@),
        forall|x: int, j: int|
            0 <= x < old(data)@.len() ==> (#[trigger] final(data)@[x].has(j) <==> (left.contains(
                (x, j),
            ) && !quad.covers(x, j))),
{
    let low: BitMask = BitMask::ones(h);
    let mask: BitMask = low.shl(y);
    let columns: usize = data.len();
    let mut w: usize = 1;
    while w < max_size as usize && w < columns - row && spans(&data[row + w], &low, y, h)
        invariant
            columns == data@.len(),
            row < columns,
            h > 0,
            1 <= w <= max_size,
            w <= columns - row,
            crate::opt::bitmask::trimmed(low@),
            forall|i: int| #[trigger] low.has(i) <==> 0 <= i < h,
            plane_is(data@, left),
            forall|i: int|
                row <= i < row + w ==> #[trigger] column_set(left, i, y as int, h as int),
        ensures
            1 <= w <= max_size,
            w <= columns - row,
            forall|i: int|
                row <= i < row + w ==> #[trigger] column_set(left, i, y as int, h as int),
            w == max_size || w == columns - row || !column_set(
                left,
                row + w,
                y as int,
                h as int,
            ),
        decreases columns - w,
    {
        proof {
            assert forall|j: int| y <= j < y + h implies #[trigger] left.contains(
                (row + w, j),
            ) by {
                assert(data@[row + w].has(j));
            }
        }
        w = w + 1;
    }
    let quad: GreedyQuad = GreedyQuad { x: row as u32, y, w: w as u32, h };
    let mut i: usize = 0;
    while i < w
        invariant
            columns == data@.len(),
            h > 0,
            i <= w <= columns - row,
            row < columns,
            quad == (GreedyQuad { x: row as u32, y, w: w as u32, h }),
            row == quad.x,
            w == quad.w,
            masks_fit(data@),
            forall|k: int| #[trigger] mask.has(k) <==> y <= k < y + h,
            y % 128 == 0 ==> mask@.len() == (h + 127) / 128 + y / 128,
            y % 128 != 0 ==> crate::opt::bitmask::trimmed(mask@),
            forall|k: int|
                row <= k < row + w ==> #[trigger] column_set(left, k, y as int, h as int),
            forall|x: int, j: int|
                0 <= x < columns ==> (#[trigger] data@[x].has(j) <==> (left.contains((x, j))
                    && !(quad.covers(x, j) && x < row + i))),
        decreases w - i,
    {
        let k: usize = row + i;
        proof {
            assert(column_set(left, k as int, y as int, h as int));
            assert forall|j: int| y <= j < y + h implies data@[k as int].has(j) by {
                assert(left.contains((k as int, j)));
            }
            lemma_mask_blocks(data@[k as int], mask, y, h);
        }
        clear_span(&mut data[k], &mask, y, h);
        i = i + 1;
    }
    quad
}

/// Generate quads from a binary plane represented as BitMask bitmasks
/// Each BitMask in the vector represents a row, with each bit representing a column
/// max_size limits the maximum width/height of quads (in pixels before scaling)
pub fn greedy_mesh_binary_plane(
    data: Vec<BitMask>,
    max_x: u32,
    max_y: u32,
    max_size: u32,
) -> (quads: Vec<GreedyQuad>)
    requires
        masks_fit(data@),
    ensures
        is_greedy_mesh(
            plane_cells(data@),
            (MeshBounds {
                columns: data@.len() as int,
                max_x: max_x as int,
                max_y: max_y as int,
                max_size: max_size as int,
            }),
            quads@,
        ),
{
    let ghost cells: Set<(int, int)> = plane_cells(data@);
    let ghost bounds: MeshBounds = MeshBounds {
        columns: data@.len() as int,
        max_x: max_x as int,
        max_y: max_y as int,
        max_size: max_size as int,
    };
    let mut data: Vec<BitMask> = data;
    let mut greedy_quads: Vec<GreedyQuad> = Vec::new();
    let columns: usize = data.len();
    let starts: usize = if columns < max_x as usize {
        columns
    } else {
        max_x as usize
    };
    let mut row: usize = 0;
    while row < starts
        invariant
            columns == data@.len(),
            columns == bounds.columns,
            bounds.max_x == max_x,
            bounds.max_y == max_y,
            bounds.max_size == max_size,
            starts == bounds.starts(),
            row <= starts <= columns,
            starts <= max_x,
            masks_fit(data@),
            max_size == 0 ==> greedy_quads@.len() == 0,
            max_size > 0 ==> is_greedy_prefix(cells, bounds, greedy_quads@),
            plane_is(data@, remaining(cells, greedy_quads@)),
            none_before(remaining(cells, greedy_quads@), bounds, row as int, 0) || max_size == 0,
        decreases starts - row,
    {
        let mut y: u32 = 0;
        while y < max_y
            invariant
                columns == data@.len(),
                columns == bounds.columns,
                bounds.max_x == max_x,
                bounds.max_y == max_y,
                bounds.max_size == max_size,
                starts == bounds.starts(),
                row < starts <= columns,
                starts <= max_x,
                y <= max_y,
                masks_fit(data@),
                max_size == 0 ==> greedy_quads@.len() == 0,
                max_size > 0 ==> is_greedy_prefix(cells, bounds, greedy_quads@),
                plane_is(data@, remaining(cells, greedy_quads@)),
                none_before(remaining(cells, greedy_quads@), bounds, row as int, y as int)
                    || max_size == 0,
            decreases max_y - y,
        {
            let ghost left: Set<(int, int)> = remaining(cells, greedy_quads@);
            let zeros: u32 = data[row].trailing_zeros_from(y);
            let skip: u32 = if zeros < max_y - y {
                zeros
            } else {
                max_y - y
            };
            let ghost before: int = y as int;
            y = y + skip;
            proof {
                assert forall|j: int| before <= j < y implies !#[trigger] left.contains(
                    (row as int, j),
                ) by {
                    assert(!data@[row as int].has(j));
                }
            }
            if y < max_y {
                let run: u32 = data[row].trailing_ones_from(y);
                let room: u32 = max_y - y;
                let clipped: u32 = if run < room {
                    run
                } else {
                    room
                };
                let h: u32 = if clipped < max_size {
                    clipped
                } else {
                    max_size
                };
                if h == 0 {
                    proof {
                        assert(max_size > 0 ==> !data@[row as int].has(y as int));
                    }
                    y = y + 1;
                } else {
                    proof {
                        assert forall|j: int| y <= j < y + h implies #[trigger] left.contains(
                            (row as int, j),
                        ) by {
                            assert(data@[row as int].has(j));
                        }
                        assert(run == h ==> !data@[row as int].has(y + h));
                    }
                    let quad: GreedyQuad = cut_quad(
                        &mut data,
                        row,
                        y,
                        h,
                        max_size,
                        Ghost(left),
                        Ghost(bounds),
                    );
                    let ghost done: Seq<GreedyQuad> = greedy_quads@;
                    greedy_quads.push(quad);
                    proof {
                        lemma_remaining_push(cells, done, quad);
                        assert forall|k: int| 0 <= k < greedy_quads@.len() implies is_greedy_quad(
                            remaining(cells, greedy_quads@.take(k)),
                            bounds,
                            #[trigger] greedy_quads@[k],
                        ) by {
                            assert(greedy_quads@.take(k) =~= done.take(k));
                            if k == done.len() {
                                assert(done.take(k) =~= done);
                            }
                        }
                    }
                    y = y + h;
                }
            }
        }
        row = row + 1;
    }
    greedy_quads
}

/// A greedy mesh tiles its plane: a cell of the meshed region is set exactly when some quad
/// covers it, quads cover set cells only, no cell is covered twice, and no side of a quad is
/// longer than the limit.
pub proof fn mesh_tiles_set_cells_once(
    cells: Set<(int, int)>,
    bounds: MeshBounds,
    quads: Seq<GreedyQuad>,
)
    requires
        is_greedy_mesh(cells, bounds, quads),
        bounds.max_size > 0,
    ensures
        forall|x: int, y: int|
            0 <= x < bounds.starts() && 0 <= y < bounds.max_y ==> (#[trigger] cells.contains((x, y))
                <==> !uncovered(quads, x, y)),
        forall|k: int, x: int, y: int|
            0 <= k < quads.len() && #[trigger] quads[k].covers(x, y) ==> cells.contains((x, y)),
        forall|j: int, k: int, x: int, y: int|
            0 <= j < k < quads.len() && #[trigger] quads[j].covers(x, y)
                ==> !#[trigger] quads[k].covers(x, y),
        forall|k: int|
            0 <= k < quads.len() ==> (#[trigger] quads[k]).w <= bounds.max_size && quads[k].h
                <= bounds.max_size,
{
    assert forall|k: int, x: int, y: int|
        0 <= k < quads.len() && #[trigger] quads[k].covers(x, y) implies remaining(
        cells,
        quads.take(k),
    ).contains((x, y)) by {
        let q = quads[k];
        assert(is_greedy_quad(remaining(cells, quads.take(k)), bounds, q));
        assert(column_set(remaining(cells, quads.take(k)), x, q.y as int, q.h as int));
    }
    assert forall|j: int, k: int, x: int, y: int|
        0 <= j < k < quads.len() && #[trigger] quads[j].covers(
            x,
            y,
        ) implies !#[trigger] quads[k].covers(x, y) by {
        if quads[k].covers(x, y) {
            assert(uncovered(quads.take(k), x, y));
            assert(!quads.take(k)[j].covers(x, y));
        }
    }
    assert forall|x: int, y: int|
        0 <= x < bounds.starts() && 0 <= y < bounds.max_y implies (#[trigger] cells.contains((x, y))
        <==> !uncovered(quads, x, y)) by {
        assert(!remaining(cells, quads).contains((x, y)));
    }
}

/// Quads are as large as can be: below a quad whose height is not at its limit there is no cell that could
/// have joined it, since that one is not set or an earlier quad holds it, and right of a quad whose width
/// is not at its limit there is such a cell in some row of the quad.
pub proof fn quads_cannot_grow(
    cells: Set<(int, int)>,
    bounds: MeshBounds,
    quads: Seq<GreedyQuad>,
    k: int,
) -> (row: int)
    requires
        is_greedy_mesh(cells, bounds, quads),
        bounds.max_size > 0,
        0 <= k < quads.len(),
    ensures
        ({
            let q = quads[k];
            &&& 1 <= q.w <= bounds.max_size
            &&& 1 <= q.h <= bounds.max_size
            &&& q.h < bounds.max_size && q.y + q.h < bounds.max_y ==> !cells.contains(
                (q.x as int, q.y + q.h),
            ) || exists|j: int|
                0 <= j < k && #[trigger] quads[j].covers(q.x as int, q.y + q.h)
            &&& q.w < bounds.max_size && q.x + q.w < bounds.columns ==> {
                &&& q.y <= row < q.y + q.h
                &&& !cells.contains((q.x + q.w, row)) || exists|j: int|
                    0 <= j < k && #[trigger] quads[j].covers(q.x + q.w, row)
            }
        }),
{
    let q = quads[k];
    let left = remaining(cells, quads.take(k));
    assert(is_greedy_quad(left, bounds, q));
    if q.h < bounds.max_size && q.y + q.h < bounds.max_y && cells.contains((q.x as int, q.y + q.h)) {
        assert(!uncovered(quads.take(k), q.x as int, q.y + q.h));
        let j = choose|j: int|
            0 <= j < quads.take(k).len() && #[trigger] quads.take(k)[j].covers(
                q.x as int,
                q.y + q.h,
            );
        assert(quads[j].covers(q.x as int, q.y + q.h));
    }
    if q.w < bounds.max_size && q.x + q.w < bounds.columns {
        let (x, y, h) = (q.x + q.w, q.y as int, q.h as int);
        assert(!column_set(left, x, y, h));
        let row = choose|row: int| y <= row < y + h && !#[trigger] left.contains((x, row));
        if cells.contains((x, row)) {
            assert(!uncovered(quads.take(k), x, row));
            let j = choose|j: int|
                0 <= j < quads.take(k).len() && #[trigger] quads.take(k)[j].covers(x, row);
            assert(quads[j].covers(x, row));
        }
        row
    } else {
        0
    }
}

} // verus!
