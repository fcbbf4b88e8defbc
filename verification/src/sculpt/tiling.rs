//! Tiling: a field cut into abutting ranges that keep one shared world lattice.
use vstd::prelude::*;

verus! {

/// World units along the side of a chunk.
pub const CHUNK_SIZE: i64 = 2048;

/// A count that is at least one.
pub open spec fn positive(n: u32) -> int {
    if n == 0 {
        1
    } else {
        n as int
    }
}

/// Range `i` of an axis of `extent` cells that is cut every `step` cells.
pub open spec fn tile_range(i: int, extent: int, step: int) -> (int, int) {
    (
        i * step,
        if (i + 1) * step < extent {
            (i + 1) * step
        } else {
            extent
        },
    )
}

/// Number of ranges on an axis: the quotient, rounded up.
pub open spec fn tile_total(extent: int, step: int) -> int {
    (extent + step - 1) / step
}

/// Tiles along one axis: `extent` cells in tiles of `tile_cells`, rounded up; both count as at
/// least one.
pub fn tiles_on_axis(extent: u32, tile_cells: u32) -> (n: u32)
    ensures
        n == tile_total(positive(extent), positive(tile_cells)),
        n >= 1,
{
    let extent: u64 = if extent == 0 {
        1
    } else {
        extent as u64
    };
    let step: u64 = if tile_cells == 0 {
        1
    } else {
        tile_cells as u64
    };
    let n: u64 = (extent + step - 1) / step;
    assert(1 <= n <= extent) by (nonlinear_arith)
        requires
            1 <= extent,
            1 <= step,
            n == (extent + step - 1) / step as int,
    ;
    n as u32
}

proof fn lemma_tile_total(n: int, extent: int, step: int)
    requires
        0 < step,
        0 < n,
        (n - 1) * step < extent <= n * step,
    ensures
        tile_total(extent, step) == n,
{
    let e = extent + step - 1;
    assert(n * step == (n - 1) * step + step) by (nonlinear_arith);
    vstd::arithmetic::div_mod::lemma_fundamental_div_mod_converse(e, step, n, e - n * step);
}

/// Non-overlapping tile boundaries along ONE axis: `extent` cells split into
/// `ceil(extent / tile_cells)` half-open ranges `[start, end)` that PARTITION
/// the axis — adjacent ranges abut (`end_i == start_{i+1}`) with NO shared cell.
///
/// Each returned range's WIDTH is `<= tile_cells`, so a tile never exceeds the
/// per-tile cell budget the caller checks. `extent`/`tile_cells` clamp to `>= 1`.
pub fn tile_bounds(extent: u32, tile_cells: u32) -> (bounds: Vec<(u32, u32)>)
    ensures
        bounds@.len() == tile_total(positive(extent), positive(tile_cells)),
        forall|i: int|
            0 <= i < bounds@.len() ==> ({
                let (start, end) = #[trigger] bounds@[i];
                (start as int, end as int) == tile_range(
                    i,
                    positive(extent),
                    positive(tile_cells),
                )
            }),
{
    let extent: u32 = if extent == 0 {
        1
    } else {
        extent
    };
    let step: u32 = if tile_cells == 0 {
        1
    } else {
        tile_cells
    };
    let mut bounds: Vec<(u32, u32)> = Vec::new();
    let mut start: u32 = 0;
    assert(0 * step == 0) by (nonlinear_arith);
    while start < extent
        invariant
            0 < extent,
            0 < step,
            start <= extent,
            start < extent ==> start == bounds@.len() * step,
            start == extent ==> bounds@.len() > 0 && (bounds@.len() - 1) * step < extent
                <= bounds@.len() * step,
            forall|i: int|
                0 <= i < bounds@.len() ==> ({
                    let (s, e) = #[trigger] bounds@[i];
                    (s as int, e as int) == tile_range(i, extent as int, step as int)
                }),
        decreases extent - start,
    {
        let ghost n: int = bounds@.len() as int;
        proof {
            assert((n + 1) * step == n * step + step) by (nonlinear_arith);
        }
        let end: u32 = if extent - start > step {
            start + step
        } else {
            extent
        };
        bounds.push((start, end));
        start = end;
    }
    proof {
        lemma_tile_total(bounds@.len() as int, extent as int, step as int);
    }
    bounds
}

/// The ranges partition the axis: they start at zero, each begins where the one before it ends, the
/// last ends at the extent, none is empty, and none is wider than the step.
pub proof fn tile_ranges_partition(extent: int, step: int)
    requires
        0 < extent,
        0 < step,
    ensures
        tile_total(extent, step) > 0,
        tile_range(0, extent, step).0 == 0,
        tile_range(tile_total(extent, step) - 1, extent, step).1 == extent,
        forall|i: int|
            0 <= i < tile_total(extent, step) ==> {
                let (start, end) = #[trigger] tile_range(i, extent, step);
                0 <= start < end <= extent && end - start <= step
            },
        forall|i: int, j: int|
            0 <= i && j == i + 1 && j < tile_total(extent, step) ==> (#[trigger] tile_range(
                i,
                extent,
                step,
            )).1 == (#[trigger] tile_range(j, extent, step)).0,
        forall|x: int| 0 <= x < extent ==> #[trigger] in_one_range(x, extent, step),
{
    let n = tile_total(extent, step);
    let e = extent + step - 1;
    vstd::arithmetic::div_mod::lemma_fundamental_div_mod(e, step);
    vstd::arithmetic::div_mod::lemma_mod_bound(e, step);
    vstd::arithmetic::mul::lemma_mul_is_commutative(step, n);
    assert(n > 0) by (nonlinear_arith)
        requires
            n * step > 0,
            step > 0,
    ;
    assert((n - 1) * step == n * step - step) by (nonlinear_arith);
    assert((n - 1) * step < extent <= n * step);
    assert(tile_range(0, extent, step).0 == 0) by (nonlinear_arith);
    assert forall|i: int| 0 <= i < n implies ({
        let (start, end) = #[trigger] tile_range(i, extent, step);
        0 <= start < end <= extent && end - start <= step
    }) by {
        assert((i + 1) * step == i * step + step) by (nonlinear_arith);
        assert(0 <= i * step <= (n - 1) * step) by (nonlinear_arith)
            requires
                0 <= i <= n - 1,
                0 < step,
        ;
    }
    assert forall|i: int, j: int| 0 <= i && j == i + 1 && j < n implies (#[trigger] tile_range(
        i,
        extent,
        step,
    )).1 == (#[trigger] tile_range(j, extent, step)).0 by {
        assert(j * step <= (n - 1) * step) by (nonlinear_arith)
            requires
                0 <= j <= n - 1,
                0 < step,
        ;
    }
    assert forall|x: int| 0 <= x < extent implies #[trigger] in_one_range(x, extent, step) by {
        let i = x / step;
        vstd::arithmetic::div_mod::lemma_fundamental_div_mod(x, step);
        vstd::arithmetic::div_mod::lemma_mod_bound(x, step);
        vstd::arithmetic::div_mod::lemma_div_pos_is_pos(x, step);
        vstd::arithmetic::mul::lemma_mul_is_commutative(step, i);
        assert((i + 1) * step == i * step + step) by (nonlinear_arith);
        assert(i < n) by (nonlinear_arith)
            requires
                i * step <= x,
                x < n * step,
                0 < step,
        ;
        assert(range_holds(i, x, extent, step));
        assert forall|j: int, k: int|
            #[trigger] range_holds(j, x, extent, step) && #[trigger] range_holds(
                k,
                x,
                extent,
                step,
            ) implies j == k by {
            lemma_ranges_disjoint(j, k, x, extent, step);
            lemma_ranges_disjoint(k, j, x, extent, step);
        }
    }
}

proof fn lemma_ranges_disjoint(j: int, k: int, x: int, extent: int, step: int)
    requires
        range_holds(j, x, extent, step),
        range_holds(k, x, extent, step),
        0 < step,
    ensures
        j >= k,
{
    if j < k {
        assert((j + 1) * step <= k * step) by (nonlinear_arith)
            requires
                j + 1 <= k,
                0 < step,
        ;
    }
}

/// Range `i` holds the cell.
pub open spec fn range_holds(i: int, x: int, extent: int, step: int) -> bool {
    &&& 0 <= i < tile_total(extent, step)
    &&& tile_range(i, extent, step).0 <= x < tile_range(i, extent, step).1
}

/// One range and no other holds the cell.
pub open spec fn in_one_range(x: int, extent: int, step: int) -> bool {
    &&& exists|i: int| #[trigger] range_holds(i, x, extent, step)
    &&& forall|i: int, j: int|
        #[trigger] range_holds(i, x, extent, step) && #[trigger] range_holds(j, x, extent, step)
            ==> i == j
}

/// World offset of a tile on one axis: its first cell's place on the lattice of the whole field,
/// which is centered on the origin. Cells are `2 * size` units apart.
pub open spec fn axis_offset(nw_cells: int, global_cells: int, size: int) -> int {
    2 * (nw_cells * size) - global_cells * size
}

/// A number kept within the 32-bit range.
pub open spec fn saturated_i32(n: int) -> int {
    if n < i32::MIN {
        i32::MIN as int
    } else if n > i32::MAX {
        i32::MAX as int
    } else {
        n
    }
}

/// The per-axis world offset of a part whose NW cell index is `nw_cells`, on a
/// field `global_cells` wide at pitch `size`, saturated to `i32`.
pub fn part_axis_offset(nw_cells: u32, global_cells: u32, size: u16) -> (offset: i32)
    ensures
        offset == saturated_i32(axis_offset(nw_cells as int, global_cells as int, size as int)),
{
    proof {
        lemma_product(nw_cells, size);
        lemma_product(global_cells, size);
    }
    let off: i64 = 2 * (nw_cells as i64 * size as i64) - global_cells as i64 * size as i64;
    if off < i32::MIN as i64 {
        i32::MIN
    } else if off > i32::MAX as i64 {
        i32::MAX
    } else {
        off as i32
    }
}

proof fn lemma_product(cells: u32, size: u16)
    ensures
        0 <= cells * size <= 0xFFFF_FFFF * 0xFFFF,
{
    assert(0 <= cells * size <= 0xFFFF_FFFF * 0xFFFF) by (nonlinear_arith)
        requires
            0 <= cells <= 0xFFFF_FFFF,
            0 <= size <= 0xFFFF,
    ;
}

/// World offset of the tile whose north-west cell is `(x0, y0)`.
pub fn tile_world_offset(x0: u32, y0: u32, cells_w: u32, cells_h: u32, size: u16) -> (offset: (
    i32,
    i32,
))
    ensures
        offset.0 == saturated_i32(axis_offset(x0 as int, cells_w as int, size as int)),
        offset.1 == saturated_i32(axis_offset(y0 as int, cells_h as int, size as int)),
{
    (part_axis_offset(x0, cells_w, size), part_axis_offset(y0, cells_h, size))
}

/// First world coordinate that a chunk index reaches.
pub open spec fn world_start() -> int {
    -32768 * CHUNK_SIZE
}

/// End of the world coordinates that a chunk index reaches.
pub open spec fn world_end() -> int {
    32768 * CHUNK_SIZE
}

/// An axis of `cells` cells that starts at `offset` lies in the world: chunk indices are 16-bit.
pub open spec fn fits_world(offset: int, cells: int, size: int) -> bool {
    world_start() <= offset && offset + 2 * (cells * size) < world_end()
}

pub fn offset_fits_chunk_index(offset: i32, cells: u32, size: u16) -> (fits: bool)
    ensures
        fits == fits_world(offset as int, cells as int, size as int),
{
    proof {
        lemma_product(cells, size);
    }
    let end: i64 = offset as i64 + 2 * (cells as i64 * size as i64);
    -32768 * CHUNK_SIZE <= offset as i64 && end < 32768 * CHUNK_SIZE
}

/// Every cell has the same world slot whichever tile it is meshed in: the slot of local cell `x` of
/// a tile that starts at cell `nw` is the slot of cell `nw + x` of the whole field.
pub proof fn cell_slot_is_shared(nw: int, x: int, cells: int, size: int)
    ensures
        axis_offset(nw, cells, size) + 2 * (x * size) == axis_offset(0, cells, size) + 2 * ((nw
            + x) * size),
{
    assert(axis_offset(nw, cells, size) + 2 * (x * size) == axis_offset(0, cells, size) + 2 * ((nw
        + x) * size)) by (nonlinear_arith);
}

/// A part that the world-extent gate accepts keeps its lattice place: its offset is not saturated,
/// and every coordinate on it has a 16-bit chunk index.
pub proof fn accepted_offset_stays_in_the_world(nw: int, cells: int, size: int, at: int)
    requires
        0 <= cells,
        0 <= size,
        fits_world(saturated_i32(axis_offset(nw, cells, size)), cells, size),
        saturated_i32(axis_offset(nw, cells, size)) <= at <= saturated_i32(
            axis_offset(nw, cells, size),
        ) + 2 * (cells * size),
    ensures
        saturated_i32(axis_offset(nw, cells, size)) == axis_offset(nw, cells, size),
        -32768 <= at / CHUNK_SIZE as int <= 32767,
{
    assert(0 <= cells * size) by (nonlinear_arith)
        requires
            0 <= cells,
            0 <= size,
    ;
}

/// The world reaches 67 108 864 units to either side: an axis of cells lies in it where it starts no further
/// out and ends before that. A field that lies in the world has its middle on the origin.
pub proof fn the_world_reaches_as_far_as_chunks(offset: int, cells: int, size: int)
    ensures
        fits_world(offset, cells, size) <==> -67_108_864 <= offset && offset + 2 * (cells * size)
            < 67_108_864,
        axis_offset(0, cells, size) == -(cells * size),
{
    assert(0 * size == 0) by (nonlinear_arith);
}

} // verus!
