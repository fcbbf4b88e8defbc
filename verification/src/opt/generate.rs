//! Brick generation from height and color maps.
use crate::brick::Brick;
use crate::map::{Colormap, Heightmap};
use crate::opt::bitmask::BitMask;
use crate::opt::column::{emit_column_bricks, BrickColumn};
use crate::opt::greedy::{greedy_mesh_binary_plane, GreedyQuad, MeshBounds};
use crate::opt::pairs::{collect_height_color_pairs, HeightColor};
use crate::opt::planes::build_planes;
use crate::text::decimal;
use crate::util::GenOptions;
use rayon::iter::{IntoParallelIterator, ParallelIterator};
use vstd::prelude::*;
use vstd::string::StringExecFns;

verus! {

/// Error string returned when the progress callback requests cancellation.
pub const CANCELLED_MSG: &'static str = "Stopped by user";

/// Error string for maps of different sizes.
pub const DIMENSIONS_MSG: &'static str = "Heightmap and colormap must have same dimensions";

/// Quads converted between two progress reports.
pub const QUADS_PER_REPORT: usize = 1000;

/// How far a generation run has come, as told to the progress callback.
#[derive(Debug, Clone, Copy, PartialEq, Eq, Structural)]
pub enum Progress {
    /// Nothing is done yet.
    Start,
    /// Greedy path: the binary planes are built.
    PlanesBuilt,
    /// Greedy path: the planes are meshed.
    PlanesMeshed,
    /// Greedy path: `done` of `total` quads are converted.
    QuadsPlaced { done: usize, total: usize },
    /// Quadtree path: the tiles are built.
    TilesBuilt,
    /// Quadtree path: the merge pass for this level is next.
    QuadLevel { level: u32 },
    /// Quadtree path: the square merges are done.
    QuadsMerged,
    /// Quadtree path: this many line passes have run.
    LinePass { pass: u32, after_quads: bool },
    /// Quadtree path: the line merges are done.
    LinesMerged,
    /// All bricks are there.
    Finished,
}

/// A meshed quad tagged with its plane's (height, color).
pub type TaggedQuad = (GreedyQuad, u32, [u8; 4]);

/// The value of a `u32` read as an `i32` with the same bits.
pub open spec fn wrap_i32(n: int) -> int {
    if n <= i32::MAX {
        n
    } else {
        n - 0x1_0000_0000
    }
}

pub(crate) fn reinterpret(n: u32) -> (r: i32)
    ensures
        r == wrap_i32(n as int),
{
    let r: i32 = n as i32;
    assert(r == if n <= 0x7fff_ffffu32 {
        n as int
    } else {
        n - 0x1_0000_0000
    }) by (bit_vector)
        requires
            r == n as i32,
    ;
    r
}

/// The progress callback takes every report.
pub open spec fn takes_reports<F: Fn(Progress) -> bool>(progress: F) -> bool {
    forall|p: Progress| #[trigger] call_requires(progress, (p,))
}

/// Whether a column of height `h` is left out so that the native floor shows.
pub open spec fn skipped(options: GenOptions, h: u32) -> bool {
    options.skip_floor && options.fill_to_base && !options.img && h <= options.omit_below_h
}

/// Height to fill for a column of height `h` over the base plane `min_height`: down to the base
/// plane when filling, a fixed surface tile otherwise.
pub open spec fn fill_height(options: GenOptions, h: u32, min_height: u32) -> int {
    if options.fill_to_base && !options.img {
        let above = wrap_i32(h as int) - wrap_i32(min_height as int);
        let filled = (if above > 0 {
            above
        } else {
            0
        }) * wrap_i32(options.scale as int) / 2;
        if filled > 2 {
            filled
        } else {
            2
        }
    } else {
        wrap_i32(options.scale * 2)
    }
}

/// The column arithmetic for height `h` stays inside the machine integers.
pub open spec fn height_fits(options: GenOptions, h: u32, min_height: u32) -> bool {
    skipped(options, h) || {
        &&& options.scale * h <= u32::MAX
        &&& if options.fill_to_base && !options.img {
            let above = wrap_i32(h as int) - wrap_i32(min_height as int);
            &&& i32::MIN <= above <= i32::MAX
            &&& above > 0 ==> i32::MIN <= above * wrap_i32(options.scale as int) <= i32::MAX
        } else {
            options.scale * 2 <= u32::MAX
        }
        &&& crate::opt::column::stack_fits(
            options,
            wrap_i32(options.scale * h),
            fill_height(options, h, min_height),
        )
    }
}

/// The quad's footprint and position stay inside the machine integers.
pub open spec fn quad_fits(options: GenOptions, quad: GreedyQuad, offset: (i32, i32)) -> bool {
    &&& quad.x <= i32::MAX && quad.y <= i32::MAX
    &&& quad.w <= u16::MAX && quad.w * options.size <= u16::MAX
    &&& quad.h <= u16::MAX && quad.h * options.size <= u16::MAX
    &&& quad.x * options.size * 2 + quad.w * options.size <= i32::MAX
    &&& quad.y * options.size * 2 + quad.h * options.size <= i32::MAX
    &&& quad.x * options.size * 2 + quad.w * options.size + offset.0 <= i32::MAX
    &&& quad.y * options.size * 2 + quad.h * options.size + offset.1 <= i32::MAX
}

/// The column a quad stands for: cells are `2 * size` world units apart, and a quad is placed by
/// its center.
pub open spec fn quad_column(
    options: GenOptions,
    tagged: TaggedQuad,
    min_height: u32,
    offset: (i32, i32),
) -> BrickColumn {
    let (quad, h, color) = tagged;
    BrickColumn {
        z: wrap_i32(options.scale * h) as i32,
        desired_height: fill_height(options, h, min_height) as i32,
        size_x: (quad.w * options.size) as u16,
        size_y: (quad.h * options.size) as u16,
        pos_x: (quad.x * options.size * 2 + quad.w * options.size + offset.0) as i32,
        pos_y: (quad.y * options.size * 2 + quad.h * options.size + offset.1) as i32,
        color,
    }
}

/// The bricks of one quad.
pub open spec fn quad_bricks(
    options: GenOptions,
    tagged: TaggedQuad,
    min_height: u32,
    offset: (i32, i32),
) -> Seq<Brick> {
    if skipped(options, tagged.1) {
        Seq::empty()
    } else {
        crate::opt::column::column_bricks(options, quad_column(options, tagged, min_height, offset))
    }
}

/// The bricks of all quads, in order.
pub open spec fn all_quad_bricks(
    options: GenOptions,
    quads: Seq<TaggedQuad>,
    min_height: u32,
    offset: (i32, i32),
) -> Seq<Brick>
    decreases quads.len(),
{
    if quads.len() == 0 {
        Seq::empty()
    } else {
        all_quad_bricks(options, quads.drop_last(), min_height, offset) + quad_bricks(
            options,
            quads.last(),
            min_height,
            offset,
        )
    }
}

/// Where the map goes: the given offset, or centered on the origin.
pub open spec fn placement(
    offset: Option<(i32, i32)>,
    options: GenOptions,
    width: u32,
    height: u32,
) -> (i32, i32) {
    match offset {
        Some(o) => o,
        None => (-(width * options.size) as i32, -(height * options.size) as i32),
    }
}

/// Convert one quad, appending its bricks.
fn place_quad(
    out: &mut Vec<Brick>,
    options: &GenOptions,
    tagged: &TaggedQuad,
    min_height: u32,
    offset: (i32, i32),
)
    requires
        height_fits(*options, tagged.1, min_height),
        quad_fits(*options, tagged.0, offset),
    ensures
        final(out)@ == old(out)@ + quad_bricks(*options, *tagged, min_height, offset),
{
    let quad: GreedyQuad = tagged.0;
    let h: u32 = tagged.1;
    if options.skip_floor && options.fill_to_base && !options.img && h <= options.omit_below_h {
        assert(out@ =~= old(out)@ + Seq::<Brick>::empty());
        return;
    }
    let desired_height: i32 = if options.fill_to_base && !options.img {
        let above: i32 = reinterpret(h) - reinterpret(min_height);
        let scale: i32 = reinterpret(options.scale);
        if above > 0 {
            let filled: i32 = above * scale;
            if filled > 5 {
                filled / 2
            } else {
                2
            }
        } else {
            2
        }
    } else {
        reinterpret(options.scale * 2)
    };
    proof {
        if options.fill_to_base && !options.img {
            let above = wrap_i32(h as int) - wrap_i32(min_height as int);
            if above <= 0 {
                assert(0 * wrap_i32(options.scale as int) / 2 == 0);
            }
        }
        assert(desired_height == fill_height(*options, h, min_height));
        lemma_quad_products(quad, options.size as int);
    }
    let size: i32 = options.size as i32;
    let column: BrickColumn = BrickColumn {
        z: reinterpret(options.scale * h),
        desired_height,
        size_x: quad.w as u16 * options.size,
        size_y: quad.h as u16 * options.size,
        pos_x: quad.x as i32 * size * 2 + quad.w as i32 * size + offset.0,
        pos_y: quad.y as i32 * size * 2 + quad.h as i32 * size + offset.1,
        color: tagged.2,
    };
    assert(column == quad_column(*options, *tagged, min_height, offset));
    emit_column_bricks(out, options, column);
}

/// Products of a quad's fields with the cell size are not negative.
proof fn lemma_quad_products(quad: GreedyQuad, size: int)
    requires
        size >= 0,
    ensures
        quad.x * size >= 0,
        quad.y * size >= 0,
        quad.w * size >= 0,
        quad.h * size >= 0,
        quad.x * size * 2 == (quad.x * size) * 2,
        quad.y * size * 2 == (quad.y * size) * 2,
{
    assert(quad.x * size >= 0 && quad.y * size >= 0 && quad.w * size >= 0 && quad.h * size >= 0)
        by (nonlinear_arith)
        requires
            size >= 0,
    ;
}

/// Convert greedy quads into bricks, reporting progress every 1000 quads and
/// returning `CANCELLED_MSG` if the callback requests cancellation.
pub fn quads_to_bricks<F: Fn(Progress) -> bool>(
    all_quads: Vec<TaggedQuad>,
    options: &GenOptions,
    width: u32,
    height: u32,
    min_height: u32,
    offset: Option<(i32, i32)>,
    progress_f: &F,
) -> (result: Result<Vec<Brick>, String>)
    requires
        takes_reports(*progress_f),
        offset is None ==> width <= i32::MAX && height <= i32::MAX && width * options.size
            <= i32::MAX && height * options.size <= i32::MAX,
        forall|i: int|
            0 <= i < all_quads@.len() ==> height_fits(
                *options,
                (#[trigger] all_quads@[i]).1,
                min_height,
            ) && quad_fits(*options, all_quads@[i].0, placement(offset, *options, width, height)),
    ensures
        match result {
            Ok(bricks) => {
                &&& bricks@ == all_quad_bricks(
                    *options,
                    all_quads@,
                    min_height,
                    placement(offset, *options, width, height),
                )
                &&& crate::opt::reports::all_accepted(
                    *progress_f,
                    crate::opt::reports::quad_reports(all_quads@.len() as int),
                )
            },
            Err(e) => {
                &&& e@ == CANCELLED_MSG@
                &&& crate::opt::reports::is_stopped(
                    *progress_f,
                    crate::opt::reports::quad_reports(all_quads@.len() as int),
                )
            },
        },
{
    let (offset_x, offset_y): (i32, i32) = match offset {
        Some(o) => o,
        None => (-(width as i32 * options.size as i32), -(height as i32 * options.size as i32)),
    };
    let ghost origin: (i32, i32) = placement(offset, *options, width, height);
    let total: usize = all_quads.len();
    let ghost reports: Seq<Progress> = crate::opt::reports::quad_reports(total as int);
    let mut all_bricks: Vec<Brick> = Vec::new();
    let mut idx: usize = 0;
    while idx < total
        invariant
            idx <= total,
            total == all_quads@.len(),
            (offset_x, offset_y) == origin,
            takes_reports(*progress_f),
            forall|i: int|
                0 <= i < all_quads@.len() ==> height_fits(
                    *options,
                    (#[trigger] all_quads@[i]).1,
                    min_height,
                ) && quad_fits(*options, all_quads@[i].0, origin),
            all_bricks@ == all_quad_bricks(
                *options,
                all_quads@.take(idx as int),
                min_height,
                origin,
            ),
            reports == crate::opt::reports::quad_reports(total as int),
            crate::opt::reports::all_accepted(
                *progress_f,
                reports.take(crate::opt::reports::reports_before(idx as int)),
            ),
        decreases total - idx,
    {
        let ghost k: int = crate::opt::reports::reports_before(idx as int);
        if idx % QUADS_PER_REPORT == 0 {
            let report: Progress = Progress::QuadsPlaced { done: idx, total };
            let go: bool = progress_f(report);
            assert(crate::opt::reports::answered(*progress_f, report, go));
            assert(reports[k] == report);
            if !go {
                assert(crate::opt::reports::stops_at(*progress_f, reports, k));
                return Err(CANCELLED_MSG.to_owned());
            }
            assert(reports.take(k + 1) =~= reports.take(k).push(report));
        }
        place_quad(&mut all_bricks, options, &all_quads[idx], min_height, (offset_x, offset_y));
        proof {
            let next = all_quads@.take(idx + 1);
            assert(next.drop_last() =~= all_quads@.take(idx as int));
            assert(next.last() == all_quads@[idx as int]);
        }
        idx = idx + 1;
    }
    assert(all_quads@.take(total as int) =~= all_quads@);
    assert(reports.take(crate::opt::reports::reports_before(idx as int)) =~= reports);
    Ok(all_bricks)
}

/// The quads of all planes, tagged with the plane's pair, plane after plane.
pub open spec fn tag_meshes(
    pairs: Seq<HeightColor>,
    meshes: Seq<Seq<GreedyQuad>>,
) -> Seq<TaggedQuad>
    decreases pairs.len(),
{
    if pairs.len() == 0 {
        Seq::empty()
    } else {
        tag_meshes(pairs.drop_last(), meshes.drop_last()) + tag_mesh(pairs.last(), meshes.last())
    }
}

/// The quads of one plane, tagged with its pair.
pub open spec fn tag_mesh(pair: HeightColor, mesh: Seq<GreedyQuad>) -> Seq<TaggedQuad> {
    Seq::new(mesh.len(), |i: int| (mesh[i], pair.0, pair.1))
}

/// Mesh bounds of a whole map.
pub open spec fn map_bounds(width: u32, height: u32, max_size: u32) -> MeshBounds {
    MeshBounds {
        columns: width as int,
        max_x: width as int,
        max_y: height as int,
        max_size: max_size as int,
    }
}

/// Runs the mesher on every plane through rayon's parallel iterators (`into_par_iter`, `map` and
/// `collect`). An indexed parallel iterator collects into a vector in the order of its source, so
/// entry `i` of the result is what the mesher returned for plane `i`.
#[verifier::external_body]
fn mesh_in_parallel(
    planes: Vec<Vec<BitMask>>,
    width: u32,
    height: u32,
    max_quad_size: u32,
) -> (meshes: Vec<Vec<GreedyQuad>>)
    requires
        forall|p: int|
            0 <= p < planes@.len() ==> crate::opt::greedy::masks_fit((#[trigger] planes@[p])@),
    ensures
        meshes@.len() == planes@.len(),
        forall|p: int|
            0 <= p < meshes@.len() ==> crate::opt::greedy::is_greedy_mesh(
                crate::opt::greedy::plane_cells(planes@[p]@),
                (MeshBounds {
                    columns: planes@[p]@.len() as int,
                    max_x: width as int,
                    max_y: height as int,
                    max_size: max_quad_size as int,
                }),
                (#[trigger] meshes@[p])@,
            ),
{
    planes
        .into_par_iter()
        .map(|plane| greedy_mesh_binary_plane(plane, width, height, max_quad_size))
        .collect()
}

/// Greedy-mesh every plane in parallel, tagging each quad with its plane's
/// (height, color).
pub fn mesh_planes(
    planes: Vec<Vec<BitMask>>,
    pairs: &Vec<HeightColor>,
    width: u32,
    height: u32,
    max_quad_size: u32,
) -> (quads: Vec<TaggedQuad>)
    requires
        planes@.len() == pairs@.len(),
        forall|p: int| 0 <= p < planes@.len() ==> (#[trigger] planes@[p])@.len() == width,
        forall|p: int|
            0 <= p < planes@.len() ==> crate::opt::greedy::masks_fit((#[trigger] planes@[p])@),
    ensures
        exists|meshes: Seq<Seq<GreedyQuad>>|
            {
                &&& meshes.len() == pairs@.len()
                &&& forall|p: int|
                    0 <= p < pairs@.len() ==> crate::opt::greedy::is_greedy_mesh(
                        crate::opt::greedy::plane_cells(planes@[p]@),
                        map_bounds(width, height, max_quad_size),
                        #[trigger] meshes[p],
                    )
                &&& quads@ == #[trigger] tag_meshes(pairs@, meshes)
            },
{
    let ghost given: Seq<Vec<BitMask>> = planes@;
    let meshes: Vec<Vec<GreedyQuad>> = mesh_in_parallel(planes, width, height, max_quad_size);
    let ghost views: Seq<Seq<GreedyQuad>> = Seq::new(meshes@.len(), |p: int| meshes@[p]@);
    let mut quads: Vec<TaggedQuad> = Vec::new();
    let mut p: usize = 0;
    while p < meshes.len()
        invariant
            p <= meshes@.len(),
            meshes@.len() == pairs@.len(),
            views == Seq::new(meshes@.len(), |i: int| meshes@[i]@),
            quads@ == tag_meshes(pairs@.take(p as int), views.take(p as int)),
        decreases meshes@.len() - p,
    {
        let ghost done: Seq<TaggedQuad> = quads@;
        let ghost pair: HeightColor = pairs@[p as int];
        let mut i: usize = 0;
        while i < meshes[p].len()
            invariant
                p < meshes@.len(),
                meshes@.len() == pairs@.len(),
                pair == pairs@[p as int],
                i <= meshes@[p as int]@.len(),
                quads@ == done + tag_mesh(pair, meshes@[p as int]@.take(i as int)),
            decreases meshes@[p as int]@.len() - i,
        {
            quads.push((meshes[p][i], pairs[p].0, pairs[p].1));
            i = i + 1;
            assert(quads@ =~= done + tag_mesh(pair, meshes@[p as int]@.take(i as int)));
        }
        proof {
            assert(meshes@[p as int]@.take(i as int) =~= views[p as int]);
            assert(pairs@.take(p + 1).drop_last() =~= pairs@.take(p as int));
            assert(views.take(p + 1).drop_last() =~= views.take(p as int));
        }
        p = p + 1;
    }
    proof {
        assert(pairs@.take(p as int) =~= pairs@);
        assert(views.take(p as int) =~= views);
        assert forall|q: int| 0 <= q < pairs@.len() implies crate::opt::greedy::is_greedy_mesh(
            crate::opt::greedy::plane_cells(given[q]@),
            map_bounds(width, height, max_quad_size),
            #[trigger] views[q],
        ) by {
            assert(views[q] == meshes@[q]@);
        }
    }
    quads
}

/// Message for a keep mask whose length is not the number of cells.
pub open spec fn mask_message(len: nat, cells: nat) -> Seq<char> {
    "keep_mask length "@ + crate::text::decimal_chars(len) + " != width*height "@
        + crate::text::decimal_chars(cells)
}

/// The common base plane: the given one, or the lowest height of the pairs, or zero.
pub open spec fn base_plane(base: Option<u32>, pairs: Seq<HeightColor>) -> u32 {
    match base {
        Some(b) => b,
        None => if pairs.len() == 0 {
            0
        } else {
            pairs[0].0
        },
    }
}

/// Longest side of a quad, in cells: as many cells as fit the brick unit cap, at least one.
pub open spec fn max_quad_cells(options: GenOptions) -> u32 {
    let size = if options.size == 0 {
        1
    } else {
        options.size
    };
    if options.max_brick_units / size == 0 {
        1
    } else {
        (options.max_brick_units / size) as u32
    }
}

/// The meshes are the greedy meshes of the planes of the pairs.
pub open spec fn are_pair_meshes<H: Heightmap + ?Sized, C: Colormap + ?Sized>(
    heightmap: &H,
    colormap: &C,
    options: GenOptions,
    mask: Option<Seq<bool>>,
    pairs: Seq<HeightColor>,
    meshes: Seq<Seq<GreedyQuad>>,
) -> bool {
    let (width, height) = heightmap.dims();
    &&& meshes.len() == pairs.len()
    &&& forall|p: int|
        0 <= p < pairs.len() ==> crate::opt::greedy::is_greedy_mesh(
            crate::opt::planes::pair_cells(heightmap, colormap, options.cull, mask, pairs[p]),
            map_bounds(width, height, max_quad_cells(options)),
            #[trigger] meshes[p],
        )
}

/// `bricks` is what greedy meshing makes of the maps: the distinct (height, color) pairs in
/// order, the greedy mesh of each pair's plane, and the bricks of every quad.
pub open spec fn is_greedy_output<H: Heightmap + ?Sized, C: Colormap + ?Sized>(
    heightmap: &H,
    colormap: &C,
    options: GenOptions,
    base: Option<u32>,
    offset: Option<(i32, i32)>,
    mask: Option<Seq<bool>>,
    bricks: Seq<Brick>,
) -> bool {
    let (width, height) = heightmap.dims();
    exists|pairs: Seq<HeightColor>, meshes: Seq<Seq<GreedyQuad>>|
        {
            &&& crate::opt::pairs::is_pair_list(heightmap, colormap, options.cull, pairs)
            &&& are_pair_meshes(heightmap, colormap, options, mask, pairs, meshes)
            &&& bricks == all_quad_bricks(
                options,
                #[trigger] tag_meshes(pairs, meshes),
                base_plane(base, pairs),
                placement(offset, options, width, height),
            )
        }
}

/// A keep mask, where there is one, has an entry per cell.
pub open spec fn mask_matches(mask: Option<Seq<bool>>, dims: (u32, u32)) -> bool {
    mask matches Some(m) ==> m.len() == dims.0 * dims.1
}

/// The maps and options stay inside the machine integers.
pub open spec fn greedy_fits<H: Heightmap + ?Sized, C: Colormap + ?Sized>(
    heightmap: &H,
    colormap: &C,
    options: GenOptions,
    base: Option<u32>,
    offset: Option<(i32, i32)>,
    mask: Option<Seq<bool>>,
) -> bool {
    let (width, height) = heightmap.dims();
    let origin = placement(offset, options, width, height);
    &&& width <= i32::MAX && height <= i32::MAX
    &&& 2 * (width * options.size) <= i32::MAX
    &&& 2 * (height * options.size) <= i32::MAX
    &&& 2 * (width * options.size) + origin.0 <= i32::MAX
    &&& 2 * (height * options.size) + origin.1 <= i32::MAX
    &&& forall|pairs: Seq<HeightColor>, x: int, y: int|
        {
            &&& #[trigger] crate::opt::pairs::is_pair_list(
                heightmap,
                colormap,
                options.cull,
                pairs,
            )
            &&& 0 <= x < width
            &&& 0 <= y < height
            &&& #[trigger] crate::opt::planes::kept(mask, width as int, x, y)
            &&& crate::opt::pairs::counted(
                crate::opt::pairs::cell_pair(heightmap, colormap, x, y),
                options.cull,
            )
        } ==> height_fits(options, heightmap.height_at(x, y), base_plane(base, pairs))
}

/// A tagged quad comes from one of the meshes.
pub(crate) proof fn lemma_tagged_from_mesh(
    pairs: Seq<HeightColor>,
    meshes: Seq<Seq<GreedyQuad>>,
    i: int,
) -> (at: (int, int))
    requires
        pairs.len() == meshes.len(),
        0 <= i < tag_meshes(pairs, meshes).len(),
    ensures
        0 <= at.0 < pairs.len(),
        0 <= at.1 < meshes[at.0].len(),
        tag_meshes(pairs, meshes)[i] == (meshes[at.0][at.1], pairs[at.0].0, pairs[at.0].1),
    decreases pairs.len(),
{
    let head = tag_meshes(pairs.drop_last(), meshes.drop_last());
    if i < head.len() {
        lemma_tagged_from_mesh(pairs.drop_last(), meshes.drop_last(), i)
    } else {
        (pairs.len() - 1, i - head.len())
    }
}

/// Every quad of the pair meshes fits the machine integers.
pub(crate) proof fn lemma_quads_fit<H: Heightmap + ?Sized, C: Colormap + ?Sized>(
    heightmap: &H,
    colormap: &C,
    options: GenOptions,
    base: Option<u32>,
    offset: Option<(i32, i32)>,
    mask: Option<Seq<bool>>,
    pairs: Seq<HeightColor>,
    meshes: Seq<Seq<GreedyQuad>>,
    i: int,
)
    requires
        greedy_fits(heightmap, colormap, options, base, offset, mask),
        crate::opt::pairs::is_pair_list(heightmap, colormap, options.cull, pairs),
        are_pair_meshes(heightmap, colormap, options, mask, pairs, meshes),
        0 <= i < tag_meshes(pairs, meshes).len(),
    ensures
        height_fits(options, tag_meshes(pairs, meshes)[i].1, base_plane(base, pairs)),
        quad_fits(
            options,
            tag_meshes(pairs, meshes)[i].0,
            placement(offset, options, heightmap.dims().0, heightmap.dims().1),
        ),
{
    let (width, height) = heightmap.dims();
    let (p, k) = lemma_tagged_from_mesh(pairs, meshes, i);
    let pair = pairs[p];
    let quad = meshes[p][k];
    let cells = crate::opt::planes::pair_cells(heightmap, colormap, options.cull, mask, pair);
    let bounds = map_bounds(width, height, max_quad_cells(options));
    assert(crate::opt::greedy::is_greedy_mesh(cells, bounds, meshes[p]));
    let left = crate::opt::greedy::remaining(cells, meshes[p].take(k));
    assert(crate::opt::greedy::is_greedy_quad(left, bounds, quad));
    assert(crate::opt::greedy::column_set(left, quad.x as int, quad.y as int, quad.h as int));
    assert(left.contains((quad.x as int, quad.y as int)));
    assert(cells.contains((quad.x as int, quad.y as int)));
    assert(crate::opt::planes::kept(mask, width as int, quad.x as int, quad.y as int));
    let size = options.size as int;
    let limit = max_quad_cells(options) as int;
    let cap = options.max_brick_units as int;
    assert(limit * size <= u16::MAX) by (nonlinear_arith)
        requires
            0 <= size <= u16::MAX,
            0 <= cap <= u16::MAX,
            limit == 1 || size == 0 || limit == cap / size,
    ;
    assert(quad.w * size <= limit * size && quad.h * size <= limit * size && quad.x * size * 2
        + quad.w * size <= 2 * (width * size) && quad.y * size * 2 + quad.h * size <= 2 * (height
        * size)) by (nonlinear_arith)
        requires
            size >= 0,
            quad.w <= limit,
            quad.h <= limit,
            quad.x + quad.w <= width,
            quad.y + quad.h <= height,
    ;
}

/// Generate a heightmap using greedy mesh optimization for each height level.
///
/// `base_height_override`: when `Some(b)`, every column fills down to brick
/// height `b` instead of the present minimum. `offset`: when `Some((dx, dy))`, the bricks are
/// placed at that world offset instead of being centered on the origin. `keep_mask` is row-major;
/// cells it does not keep emit no brick.
pub fn gen_greedy_heightmap<
    H: Heightmap + ?Sized,
    C: Colormap + ?Sized,
    F: Fn(Progress) -> bool,
>(
    heightmap: &H,
    colormap: &C,
    options: GenOptions,
    base_height_override: Option<u32>,
    offset: Option<(i32, i32)>,
    progress_f: F,
    keep_mask: Option<&[bool]>,
) -> (result: Result<Vec<Brick>, String>)
    requires
        takes_reports(progress_f),
        keep_mask is Some ==> heightmap.dims().0 * heightmap.dims().1 <= usize::MAX,
        heightmap.dims() == colormap.dims() && mask_matches(
            crate::opt::planes::mask_view(keep_mask),
            heightmap.dims(),
        ) ==> greedy_fits(
            heightmap,
            colormap,
            options,
            base_height_override,
            offset,
            crate::opt::planes::mask_view(keep_mask),
        ),
    ensures
        greedy_result(
            heightmap,
            colormap,
            options,
            base_height_override,
            offset,
            progress_f,
            crate::opt::planes::mask_view(keep_mask),
            result,
        ),
{
    let ghost opening: Seq<Progress> = crate::opt::reports::opening_reports();
    if !progress_f(Progress::Start) {
        assert(crate::opt::reports::answered(progress_f, Progress::Start, false));
        return Err(CANCELLED_MSG.to_owned());
    }
    assert(crate::opt::reports::answered(progress_f, Progress::Start, true));
    let (width, height) = heightmap.size();
    let (color_width, color_height) = colormap.size();
    if color_width != width || color_height != height {
        return Err(DIMENSIONS_MSG.to_owned());
    }
    if let Some(mask) = keep_mask {
        proof {
            assert(0 <= width * height) by (nonlinear_arith);
        }
        let cells: usize = width as usize * height as usize;
        if mask.len() != cells {
            let mut message: String = "keep_mask length ".to_owned();
            message.append(decimal(mask.len() as u64).as_str());
            message.append(" != width*height ");
            message.append(decimal(cells as u64).as_str());
            return Err(message);
        }
    }
    let ghost mask: Option<Seq<bool>> = crate::opt::planes::mask_view(keep_mask);
    let pairs: Vec<HeightColor> = collect_height_color_pairs(heightmap, colormap, options.cull);
    let min_height: u32 = match base_height_override {
        Some(b) => b,
        None => if pairs.len() == 0 {
            0
        } else {
            pairs[0].0
        },
    };
    let planes: Vec<Vec<BitMask>> = build_planes(
        heightmap,
        colormap,
        options.cull,
        &pairs,
        keep_mask,
    );
    if !progress_f(Progress::PlanesBuilt) {
        assert(crate::opt::reports::answered(progress_f, Progress::PlanesBuilt, false));
        assert(crate::opt::reports::stops_at(progress_f, opening, 1));
        return Err(CANCELLED_MSG.to_owned());
    }
    assert(crate::opt::reports::answered(progress_f, Progress::PlanesBuilt, true));
    let divisor: u16 = if options.size == 0 {
        1
    } else {
        options.size
    };
    let per_brick: u32 = (options.max_brick_units / divisor) as u32;
    let max_quad_size: u32 = if per_brick == 0 {
        1
    } else {
        per_brick
    };
    let quads: Vec<TaggedQuad> = mesh_planes(planes, &pairs, width, height, max_quad_size);
    let ghost meshes: Seq<Seq<GreedyQuad>> = choose|meshes: Seq<Seq<GreedyQuad>>|
        {
            &&& meshes.len() == pairs@.len()
            &&& forall|p: int|
                0 <= p < pairs@.len() ==> crate::opt::greedy::is_greedy_mesh(
                    crate::opt::greedy::plane_cells(planes@[p]@),
                    map_bounds(width, height, max_quad_size),
                    #[trigger] meshes[p],
                )
            &&& quads@ == #[trigger] tag_meshes(pairs@, meshes)
        };
    proof {
        assert(are_pair_meshes(heightmap, colormap, options, mask, pairs@, meshes));
        assert forall|i: int| 0 <= i < quads@.len() implies height_fits(
            options,
            (#[trigger] quads@[i]).1,
            min_height,
        ) && quad_fits(options, quads@[i].0, placement(offset, options, width, height)) by {
            lemma_quads_fit(
                heightmap,
                colormap,
                options,
                base_height_override,
                offset,
                mask,
                pairs@,
                meshes,
                i,
            );
        }
    }
    if !progress_f(Progress::PlanesMeshed) {
        assert(crate::opt::reports::answered(progress_f, Progress::PlanesMeshed, false));
        assert(crate::opt::reports::stops_at(progress_f, opening, 2));
        return Err(CANCELLED_MSG.to_owned());
    }
    assert(crate::opt::reports::answered(progress_f, Progress::PlanesMeshed, true));
    let ghost tagged: Seq<TaggedQuad> = quads@;
    let ghost placing: Seq<Progress> = crate::opt::reports::quad_reports(tagged.len() as int);
    let ghost last: Seq<Progress> = seq![Progress::Finished];
    proof {
        assert(is_meshed_into(heightmap, colormap, options, mask, tagged));
        assert(crate::opt::reports::all_accepted(progress_f, opening));
        crate::opt::reports::lemma_after_accepted(progress_f, opening, placing);
        if crate::opt::reports::is_stopped(progress_f, opening + placing) {
            crate::opt::reports::lemma_stopped_early(progress_f, opening + placing, last);
        }
    }
    let bricks: Vec<Brick> = match quads_to_bricks(
        quads,
        &options,
        width,
        height,
        min_height,
        offset,
        &progress_f,
    ) {
        Ok(bricks) => bricks,
        Err(e) => {
            return Err(e);
        },
    };
    let finish: bool = progress_f(Progress::Finished);
    proof {
        crate::opt::reports::lemma_one_report(progress_f, Progress::Finished, finish);
        crate::opt::reports::lemma_after_accepted(progress_f, opening + placing, last);
    }
    if !finish {
        return Err(CANCELLED_MSG.to_owned());
    }
    proof {
        assert(tagged == tag_meshes(pairs@, meshes));
    }
    Ok(bricks)
}

/// The maps mesh into these quads.
pub open spec fn is_meshed_into<H: Heightmap + ?Sized, C: Colormap + ?Sized>(
    heightmap: &H,
    colormap: &C,
    options: GenOptions,
    mask: Option<Seq<bool>>,
    quads: Seq<TaggedQuad>,
) -> bool {
    exists|pairs: Seq<HeightColor>, meshes: Seq<Seq<GreedyQuad>>|
        {
            &&& crate::opt::pairs::is_pair_list(heightmap, colormap, options.cull, pairs)
            &&& are_pair_meshes(heightmap, colormap, options, mask, pairs, meshes)
            &&& quads == #[trigger] tag_meshes(pairs, meshes)
        }
}

/// What a greedy run returns: the greedy output where the callback let it go on at every report, or
/// the error that stopped it. A cancelled run made no report after the one that stopped it.
pub open spec fn greedy_result<
    H: Heightmap + ?Sized,
    C: Colormap + ?Sized,
    F: Fn(Progress) -> bool,
>(
    heightmap: &H,
    colormap: &C,
    options: GenOptions,
    base: Option<u32>,
    offset: Option<(i32, i32)>,
    progress: F,
    mask: Option<Seq<bool>>,
    result: Result<Vec<Brick>, String>,
) -> bool {
    match result {
        Ok(bricks) => {
            &&& heightmap.dims() == colormap.dims()
            &&& mask_matches(mask, heightmap.dims())
            &&& is_greedy_output(heightmap, colormap, options, base, offset, mask, bricks@)
            &&& exists|quads: Seq<TaggedQuad>| #[trigger]
                is_meshed_into(heightmap, colormap, options, mask, quads)
                    && crate::opt::reports::all_accepted(
                    progress,
                    crate::opt::reports::greedy_reports(quads.len() as int),
                )
        },
        Err(e) => {
            ||| e@ == CANCELLED_MSG@ && crate::opt::reports::answered(
                progress,
                Progress::Start,
                false,
            )
            ||| {
                &&& e@ == CANCELLED_MSG@
                &&& heightmap.dims() == colormap.dims()
                &&& mask_matches(mask, heightmap.dims())
                &&& crate::opt::reports::is_stopped(
                    progress,
                    crate::opt::reports::opening_reports(),
                )
            }
            ||| {
                &&& e@ == CANCELLED_MSG@
                &&& heightmap.dims() == colormap.dims()
                &&& mask_matches(mask, heightmap.dims())
                &&& exists|quads: Seq<TaggedQuad>| #[trigger]
                    is_meshed_into(heightmap, colormap, options, mask, quads)
                        && crate::opt::reports::is_stopped(
                        progress,
                        crate::opt::reports::greedy_reports(quads.len() as int),
                    )
            }
            ||| {
                &&& e@ == DIMENSIONS_MSG@
                &&& heightmap.dims() != colormap.dims()
                &&& crate::opt::reports::answered(progress, Progress::Start, true)
            }
            ||| {
                &&& heightmap.dims() == colormap.dims()
                &&& !mask_matches(mask, heightmap.dims())
                &&& e@ == mask_message(
                    mask->0.len(),
                    (heightmap.dims().0 * heightmap.dims().1) as nat,
                )
                &&& crate::opt::reports::answered(progress, Progress::Start, true)
            }
        },
    }
}

} // verus!
