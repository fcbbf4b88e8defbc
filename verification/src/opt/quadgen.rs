//! Brick generation through the quadtree.
use crate::brick::Brick;
use crate::map::{Colormap, Heightmap};
use crate::opt::generate::{gen_greedy_heightmap, Progress, CANCELLED_MSG, DIMENSIONS_MSG};
use crate::opt::quad::{QuadTree, TileModel};
use crate::opt::MAX_BRICK_UNITS;
use crate::util::GenOptions;
use vstd::prelude::*;

verus! {

/// Upper bound on linear-optimize convergence passes. When it is reached the bricks are valid,
/// just less merged.
pub const MAX_LINEAR_PASSES: u32 = 64;

/// Every tile is as tall as it is wide.
pub open spec fn all_square(tiles: Seq<TileModel>) -> bool {
    forall|i: int| 0 <= i < tiles.len() ==> (#[trigger] tiles[i]).size.0 == tiles[i].size.1
}

/// The tiles of the single cells of a map.
pub open spec fn initial_tiles<H: Heightmap + ?Sized, C: Colormap + ?Sized>(
    heightmap: &H,
    colormap: &C,
) -> Seq<TileModel> {
    let (width, height) = heightmap.dims();
    Seq::new(
        (width * height) as nat,
        |i: int|
            crate::opt::quad::cell_tile(heightmap, colormap, i / height as int, i % height as int),
    )
}

/// Square merge passes from `level` on, until bricks would reach the unit cap or a pass merges
/// nothing.
pub open spec fn quad_passes(
    tiles: Seq<TileModel>,
    width: int,
    height: int,
    size: int,
    level: nat,
) -> Seq<TileModel>
    decreases
        if crate::opt::quad::live(tiles) > 0 {
            crate::opt::quad::live(tiles)
        } else {
            0
        },
{
    if vstd::arithmetic::power2::pow2(level + 1) * size >= MAX_BRICK_UNITS {
        tiles
    } else {
        let next = crate::opt::quad::quad_level(
            tiles,
            width,
            height,
            vstd::arithmetic::power2::pow2(level) as int,
        );
        if crate::opt::quad::live(next) < crate::opt::quad::live(tiles) && crate::opt::quad::live(
            tiles,
        ) > 0 {
            quad_passes(next, width, height, size, level + 1)
        } else {
            next
        }
    }
}

/// Line merge passes, until one merges nothing or `left` passes have run.
pub open spec fn line_passes(
    tiles: Seq<TileModel>,
    width: nat,
    height: nat,
    size: int,
    left: nat,
) -> Seq<TileModel>
    decreases left,
{
    if left == 0 {
        tiles
    } else {
        let next = crate::opt::lines::line_columns(tiles, width as int, height, size, width);
        if crate::opt::quad::live(next) == crate::opt::quad::live(tiles) {
            next
        } else {
            line_passes(next, width, height, size, (left - 1) as nat)
        }
    }
}

/// The reports of the square merge passes from `level` on.
pub open spec fn level_reports(
    tiles: Seq<TileModel>,
    width: int,
    height: int,
    size: int,
    level: nat,
) -> Seq<Progress>
    decreases
        if crate::opt::quad::live(tiles) > 0 {
            crate::opt::quad::live(tiles)
        } else {
            0
        },
{
    if vstd::arithmetic::power2::pow2(level + 1) * size >= MAX_BRICK_UNITS {
        seq![]
    } else {
        let next = crate::opt::quad::quad_level(
            tiles,
            width,
            height,
            vstd::arithmetic::power2::pow2(level) as int,
        );
        seq![Progress::QuadLevel { level: level as u32 }] + if crate::opt::quad::live(next)
            < crate::opt::quad::live(tiles) && crate::opt::quad::live(tiles) > 0 {
            level_reports(next, width, height, size, level + 1)
        } else {
            seq![]
        }
    }
}

/// The reports of the last `left` line merge passes.
pub open spec fn line_reports(
    tiles: Seq<TileModel>,
    width: nat,
    height: nat,
    size: int,
    left: nat,
    after_quads: bool,
) -> Seq<Progress>
    decreases left,
{
    if left == 0 {
        seq![]
    } else {
        let next = crate::opt::lines::line_columns(tiles, width as int, height, size, width);
        seq![Progress::LinePass { pass: (MAX_LINEAR_PASSES - left + 1) as u32, after_quads }]
            + if crate::opt::quad::live(next) == crate::opt::quad::live(tiles) {
            seq![]
        } else {
            line_reports(next, width, height, size, (left - 1) as nat, after_quads)
        }
    }
}

/// The reports of a quadtree run, up to and including the square merge passes.
pub open spec fn square_reports<H: Heightmap + ?Sized, C: Colormap + ?Sized>(
    heightmap: &H,
    colormap: &C,
    options: GenOptions,
) -> Seq<Progress> {
    let (width, height) = heightmap.dims();
    seq![Progress::Start, Progress::TilesBuilt] + if options.quadtree {
        level_reports(
            initial_tiles(heightmap, colormap),
            width as int,
            height as int,
            options.size as int,
            0,
        ) + seq![Progress::QuadsMerged]
    } else {
        seq![]
    }
}

/// The reports of a quadtree run.
pub open spec fn run_reports<H: Heightmap + ?Sized, C: Colormap + ?Sized>(
    heightmap: &H,
    colormap: &C,
    options: GenOptions,
) -> Seq<Progress> {
    let (width, height) = heightmap.dims();
    square_reports(heightmap, colormap, options) + line_reports(
        merged_squares(heightmap, colormap, options),
        width as nat,
        height as nat,
        options.size as int,
        MAX_LINEAR_PASSES as nat,
        options.quadtree,
    ) + seq![Progress::LinesMerged] + seq![Progress::Finished]
}

/// The tiles of a map after the square merge passes.
pub open spec fn merged_squares<H: Heightmap + ?Sized, C: Colormap + ?Sized>(
    heightmap: &H,
    colormap: &C,
    options: GenOptions,
) -> Seq<TileModel> {
    let (width, height) = heightmap.dims();
    let cells = initial_tiles(heightmap, colormap);
    if options.quadtree {
        quad_passes(cells, width as int, height as int, options.size as int, 0)
    } else {
        cells
    }
}

/// The tiles of a map after all merge passes.
pub open spec fn merged_tiles<H: Heightmap + ?Sized, C: Colormap + ?Sized>(
    heightmap: &H,
    colormap: &C,
    options: GenOptions,
) -> Seq<TileModel> {
    let (width, height) = heightmap.dims();
    line_passes(
        merged_squares(heightmap, colormap, options),
        width as nat,
        height as nat,
        options.size as int,
        MAX_LINEAR_PASSES as nat,
    )
}

/// The maps and options stay inside the machine integers.
pub open spec fn quad_fits<H: Heightmap + ?Sized, C: Colormap + ?Sized>(
    heightmap: &H,
    colormap: &C,
    options: GenOptions,
) -> bool {
    let (width, height) = heightmap.dims();
    let tiles = merged_tiles(heightmap, colormap, options);
    &&& crate::opt::quad::grid_fits((width, height))
    &&& options.quadtree && 2 * options.size < MAX_BRICK_UNITS ==> width >= 1 && height >= 1
    &&& width * options.size <= i32::MAX
    &&& height * options.size <= i32::MAX
    &&& forall|i: int|
        0 <= i < tiles.len() ==> crate::opt::tiles::tile_fits(
            options,
            #[trigger] tiles[i],
            crate::opt::tiles::centered(options, width, height),
        )
}

/// A pass over squares keeps tiles square and inside the grid, and leaves room for the next pass
/// when it merged anything.
pub proof fn lemma_quad_level(tiles: Seq<TileModel>, width: int, height: int, space: int)
    requires
        crate::opt::quad::well_formed(tiles, width, height),
        all_square(tiles),
        space >= 1,
        0 <= width <= u32::MAX,
        0 <= height <= u32::MAX,
    ensures
        crate::opt::quad::well_formed(
            crate::opt::quad::quad_level(tiles, width, height, space),
            width,
            height,
        ),
        all_square(crate::opt::quad::quad_level(tiles, width, height, space)),
        crate::opt::quad::quad_level(tiles, width, height, space) != tiles ==> 2 * space <= width
            && 2 * space <= height,
{
    let next = crate::opt::quad::quad_level(tiles, width, height, space);
    assert forall|k: int| 0 <= k < tiles.len() implies {
        &&& (#[trigger] next[k]).size.0 == next[k].size.1
        &&& next[k] != tiles[k] ==> 2 * space <= width && 2 * space <= height
        &&& crate::opt::quad::tile_in_grid(next[k], width, height, k / height, k % height)
    } by {
        crate::opt::quad::lemma_index(k, width, height);
        let (x, y) = (k / height, k % height);
        let (bx, by) = (
            crate::opt::quad::block_base(x, space),
            crate::opt::quad::block_base(y, space),
        );
        assert(crate::opt::quad::tile_in_grid(
            tiles[crate::opt::quad::cell(x, y, height)],
            width,
            height,
            x,
            y,
        ));
        vstd::arithmetic::div_mod::lemma_mod_bound(x, 2 * space);
        vstd::arithmetic::div_mod::lemma_mod_bound(y, 2 * space);
        vstd::arithmetic::div_mod::lemma_mod_decreases(x as nat, (2 * space) as nat);
        vstd::arithmetic::div_mod::lemma_mod_decreases(y as nat, (2 * space) as nat);
        if crate::opt::quad::block_merges(tiles, width, height, space, bx, by) {
            crate::opt::quad::lemma_cell(bx, by, width, height);
            crate::opt::quad::lemma_cell(bx + space, by + space, width, height);
            let first = tiles[crate::opt::quad::cell(bx, by, height)];
            let last = tiles[crate::opt::quad::cell(bx + space, by + space, height)];
            assert(crate::opt::quad::tile_in_grid(last, width, height, bx + space, by + space));
            assert(first.size.0 == first.size.1);
            assert(first.similar_quad(last));
        }
    }
    assert forall|x: int, y: int|
        0 <= x < width && 0 <= y < height implies crate::opt::quad::tile_in_grid(
        #[trigger] next[crate::opt::quad::cell(x, y, height)],
        width,
        height,
        x,
        y,
    ) by {
        crate::opt::quad::lemma_cell(x, y, width, height);
        let k = crate::opt::quad::cell(x, y, height);
        assert(next[k].size.0 == next[k].size.1);
    }
    if !(2 * space <= width && 2 * space <= height) {
        assert forall|k: int| 0 <= k < tiles.len() implies next[k] == tiles[k] by {
            assert(next[k].size.0 == next[k].size.1);
        }
        assert(next =~= tiles);
    }
}

/// Whether `span` cells of this size stay below the unit cap.
fn under_cap(span: u64, size: u16) -> (under: bool)
    requires
        span <= 0x1_0000_0000,
    ensures
        under == (span * size < MAX_BRICK_UNITS),
{
    assert(0 <= span * size <= 0x1_0000_0000 * 0xffff) by (nonlinear_arith)
        requires
            0 <= span <= 0x1_0000_0000,
            0 <= size <= 0xffff,
    ;
    span * (size as u64) < MAX_BRICK_UNITS as u64
}

/// Run the quadtree merge passes until bricks would exceed the width cap or a pass stops
/// merging. Returns `CANCELLED_MSG` if the progress callback requested cancellation.
fn optimize_quadtree<F: Fn(Progress) -> bool>(
    quad: &mut QuadTree,
    options: &GenOptions,
    progress_f: &F,
) -> (result: Result<(), String>)
    requires
        crate::opt::generate::takes_reports(*progress_f),
        old(quad).wf(),
        all_square(old(quad).model()),
        old(quad).width <= i32::MAX,
        old(quad).height <= i32::MAX,
        2 * options.size < MAX_BRICK_UNITS ==> old(quad).width >= 1 && old(quad).height >= 1,
    ensures
        final(quad).width == old(quad).width,
        final(quad).height == old(quad).height,
        final(quad).wf(),
        match result {
            Ok(_) => {
                &&& final(quad).model() == quad_passes(
                    old(quad).model(),
                    old(quad).width as int,
                    old(quad).height as int,
                    options.size as int,
                    0,
                )
                &&& crate::opt::reports::all_accepted(
                    *progress_f,
                    level_reports(
                        old(quad).model(),
                        old(quad).width as int,
                        old(quad).height as int,
                        options.size as int,
                        0,
                    ),
                )
            },
            Err(e) => {
                &&& e@ == CANCELLED_MSG@
                &&& crate::opt::reports::is_stopped(
                    *progress_f,
                    level_reports(
                        old(quad).model(),
                        old(quad).width as int,
                        old(quad).height as int,
                        options.size as int,
                        0,
                    ),
                )
            },
        },
{
    let ghost (w, h, size): (int, int, int) = (
        quad.width as int,
        quad.height as int,
        options.size as int,
    );
    let ghost goal: Seq<TileModel> = quad_passes(quad.model(), w, h, size, 0);
    let ghost reports: Seq<Progress> = level_reports(quad.model(), w, h, size, 0);
    let ghost mut made: Seq<Progress> = seq![];
    let mut level: u32 = 0;
    let mut span: u64 = 2;
    proof {
        vstd::arithmetic::power2::lemma2_to64();
    }
    let mut merging: bool = true;
    assert(made + reports =~= reports);
    while merging && under_cap(span, options.size)
        invariant
            crate::opt::generate::takes_reports(*progress_f),
            w == quad.width,
            h == quad.height,
            size == options.size,
            quad.width == old(quad).width,
            quad.height == old(quad).height,
            w <= i32::MAX,
            h <= i32::MAX,
            quad.wf(),
            all_square(quad.model()),
            span == vstd::arithmetic::power2::pow2((level + 1) as nat),
            span == 2 * vstd::arithmetic::power2::pow2(level as nat),
            level < u32::MAX,
            merging ==> quad_passes(quad.model(), w, h, size, level as nat) == goal,
            merging && span * size < MAX_BRICK_UNITS
                ==> vstd::arithmetic::power2::pow2(level as nat) <= w
                && vstd::arithmetic::power2::pow2(level as nat) <= h,
            !merging ==> quad.model() == goal,
            crate::opt::reports::all_accepted(*progress_f, made),
            reports == level_reports(old(quad).model(), w, h, size, 0),
            merging ==> made + level_reports(quad.model(), w, h, size, level as nat) == reports,
            !merging ==> made == reports,
            span <= 0x1_0000_0000,
            level <= 31,
        decreases
            crate::opt::quad::live(quad.model()),
            if merging {
                1int
            } else {
                0
            },
    {
        let report: Progress = Progress::QuadLevel { level };
        let go: bool = progress_f(report);
        let ghost rest: Seq<Progress> = level_reports(quad.model(), w, h, size, level as nat).skip(
            1,
        );
        proof {
            crate::opt::reports::lemma_one_report(*progress_f, report, go);
            crate::opt::reports::lemma_after_accepted(*progress_f, made, seq![report]);
            assert(made + seq![report] + rest =~= reports);
        }
        if !go {
            proof {
                crate::opt::reports::lemma_stopped_early(*progress_f, made + seq![report], rest);
            }
            return Err(CANCELLED_MSG.to_owned());
        }
        proof {
            made = made + seq![report];
        }
        let ghost before: Seq<TileModel> = quad.model();
        proof {
            vstd::arithmetic::power2::lemma_pow2_pos(level as nat);
            lemma_quad_level(before, w, h, vstd::arithmetic::power2::pow2(level as nat) as int);
            crate::opt::quad::lemma_live_bounds(before);
        }
        let count: usize = quad.quad_optimize_level(level);
        proof {
            crate::opt::quad::lemma_live_bounds(quad.model());
        }
        if count == 0 {
            merging = false;
            assert(rest =~= seq![]);
            assert(made + rest =~= made);
        } else {
            proof {
                assert(rest =~= level_reports(quad.model(), w, h, size, (level + 1) as nat));
                vstd::arithmetic::power2::lemma_pow2_unfold((level + 2) as nat);
                assert(quad.model() != before);
                if level >= 31 {
                    vstd::arithmetic::power2::lemma2_to64();
                    assert(false);
                }
            }
            level = level + 1;
            span = span * 2;
        }
    }
    assert(merging ==> made + seq![] =~= made);
    Ok(())
}

/// Run line-merge passes until convergence (bounded by `MAX_LINEAR_PASSES`).
/// Returns `CANCELLED_MSG` on cancellation.
fn optimize_linear<F: Fn(Progress) -> bool>(
    quad: &mut QuadTree,
    options: &GenOptions,
    progress_f: &F,
) -> (result: Result<(), String>)
    requires
        crate::opt::generate::takes_reports(*progress_f),
        old(quad).wf(),
        old(quad).width * options.size <= u32::MAX,
        old(quad).height * options.size <= u32::MAX,
    ensures
        final(quad).width == old(quad).width,
        final(quad).height == old(quad).height,
        final(quad).wf(),
        match result {
            Ok(_) => {
                &&& final(quad).model() == line_passes(
                    old(quad).model(),
                    old(quad).width as nat,
                    old(quad).height as nat,
                    options.size as int,
                    MAX_LINEAR_PASSES as nat,
                )
                &&& crate::opt::reports::all_accepted(
                    *progress_f,
                    line_reports(
                        old(quad).model(),
                        old(quad).width as nat,
                        old(quad).height as nat,
                        options.size as int,
                        MAX_LINEAR_PASSES as nat,
                        options.quadtree,
                    ),
                )
            },
            Err(e) => {
                &&& e@ == CANCELLED_MSG@
                &&& crate::opt::reports::is_stopped(
                    *progress_f,
                    line_reports(
                        old(quad).model(),
                        old(quad).width as nat,
                        old(quad).height as nat,
                        options.size as int,
                        MAX_LINEAR_PASSES as nat,
                        options.quadtree,
                    ),
                )
            },
        },
{
    let ghost (w, h, size): (nat, nat, int) = (
        quad.width as nat,
        quad.height as nat,
        options.size as int,
    );
    let ghost goal: Seq<TileModel> = line_passes(
        quad.model(),
        w,
        h,
        size,
        MAX_LINEAR_PASSES as nat,
    );
    let ghost reports: Seq<Progress> = line_reports(
        quad.model(),
        w,
        h,
        size,
        MAX_LINEAR_PASSES as nat,
        options.quadtree,
    );
    let ghost mut made: Seq<Progress> = seq![];
    let mut pass: u32 = 0;
    let mut merging: bool = true;
    assert(made + reports =~= reports);
    while merging && pass < MAX_LINEAR_PASSES
        invariant
            crate::opt::generate::takes_reports(*progress_f),
            w == quad.width,
            h == quad.height,
            size == options.size,
            quad.width == old(quad).width,
            quad.height == old(quad).height,
            quad.width * options.size <= u32::MAX,
            quad.height * options.size <= u32::MAX,
            quad.wf(),
            pass <= MAX_LINEAR_PASSES,
            merging ==> line_passes(
                quad.model(),
                w,
                h,
                size,
                (MAX_LINEAR_PASSES - pass) as nat,
            ) == goal,
            !merging ==> quad.model() == goal,
            crate::opt::reports::all_accepted(*progress_f, made),
            reports == line_reports(
                old(quad).model(),
                w,
                h,
                size,
                MAX_LINEAR_PASSES as nat,
                options.quadtree,
            ),
            merging ==> made + line_reports(
                quad.model(),
                w,
                h,
                size,
                (MAX_LINEAR_PASSES - pass) as nat,
                options.quadtree,
            ) == reports,
            !merging ==> made == reports,
        decreases MAX_LINEAR_PASSES - pass,
    {
        let ghost rest: Seq<Progress> = line_reports(
            quad.model(),
            w,
            h,
            size,
            (MAX_LINEAR_PASSES - pass) as nat,
            options.quadtree,
        ).skip(1);
        let count: usize = quad.line_optimize(options.size as u32);
        pass = pass + 1;
        let report: Progress = Progress::LinePass { pass, after_quads: options.quadtree };
        let go: bool = progress_f(report);
        proof {
            crate::opt::reports::lemma_one_report(*progress_f, report, go);
            crate::opt::reports::lemma_after_accepted(*progress_f, made, seq![report]);
            assert(made + seq![report] + rest =~= reports);
        }
        if !go {
            proof {
                crate::opt::reports::lemma_stopped_early(*progress_f, made + seq![report], rest);
            }
            return Err(CANCELLED_MSG.to_owned());
        }
        proof {
            made = made + seq![report];
        }
        if count == 0 {
            merging = false;
            assert(rest =~= seq![]);
            assert(made + rest =~= made);
        } else {
            assert(rest =~= line_reports(
                quad.model(),
                w,
                h,
                size,
                (MAX_LINEAR_PASSES - pass) as nat,
                options.quadtree,
            ));
        }
    }
    assert(merging ==> made + seq![] =~= made);
    Ok(())
}

/// The bricks that the quadtree mesher makes of a map.
pub open spec fn quad_mesh<H: Heightmap + ?Sized, C: Colormap + ?Sized>(
    heightmap: &H,
    colormap: &C,
    options: GenOptions,
) -> Seq<Brick> {
    crate::opt::tiles::all_tile_bricks(
        options,
        merged_tiles(heightmap, colormap, options),
        crate::opt::tiles::centered(options, heightmap.dims().0, heightmap.dims().1),
    )
}

/// What a quadtree run returns: the bricks of the merged tiles where the callback let it go on at
/// every report, or the error that stopped it. A cancelled run made no report after the one that
/// stopped it.
pub open spec fn quad_result<
    H: Heightmap + ?Sized,
    C: Colormap + ?Sized,
    F: Fn(Progress) -> bool,
>(
    heightmap: &H,
    colormap: &C,
    options: GenOptions,
    progress: F,
    result: Result<Vec<Brick>, String>,
) -> bool {
    match result {
        Ok(bricks) => {
            &&& heightmap.dims() == colormap.dims()
            &&& bricks@ == quad_mesh(heightmap, colormap, options)
            &&& crate::opt::reports::all_accepted(
                progress,
                run_reports(heightmap, colormap, options),
            )
        },
        Err(e) => {
            ||| e@ == CANCELLED_MSG@ && crate::opt::reports::answered(
                progress,
                Progress::Start,
                false,
            )
            ||| {
                &&& e@ == CANCELLED_MSG@
                &&& heightmap.dims() == colormap.dims()
                &&& crate::opt::reports::is_stopped(
                    progress,
                    run_reports(heightmap, colormap, options),
                )
            }
            ||| {
                &&& e@ == DIMENSIONS_MSG@
                &&& heightmap.dims() != colormap.dims()
                &&& crate::opt::reports::answered(progress, Progress::Start, true)
            }
        },
    }
}

/// Generate a heightmap using quadtree optimization.
///
/// The quadtree mesher keeps its own origin-centering and fill floors, so it takes no base plane
/// and no offset; the two parameters are there for parity with the greedy path.
pub fn gen_quad_heightmap<
    H: Heightmap + ?Sized,
    C: Colormap + ?Sized,
    F: Fn(Progress) -> bool,
>(
    heightmap: &H,
    colormap: &C,
    options: GenOptions,
    base_height_override: Option<u32>,
    offset: Option<(i32, i32)>,
    progress_f: F,
) -> (result: Result<Vec<Brick>, String>)
    requires
        crate::opt::generate::takes_reports(progress_f),
        base_height_override is None,
        offset is None,
        heightmap.dims() == colormap.dims() ==> quad_fits(heightmap, colormap, options),
    ensures
        quad_result(heightmap, colormap, options, progress_f, result),
{
    if !progress_f(Progress::Start) {
        assert(crate::opt::reports::answered(progress_f, Progress::Start, false));
        return Err(CANCELLED_MSG.to_owned());
    }
    assert(crate::opt::reports::answered(progress_f, Progress::Start, true));
    let (width, height) = heightmap.size();
    let mut quad: QuadTree = match QuadTree::new(heightmap, colormap) {
        Ok(quad) => quad,
        Err(e) => {
            return Err(e);
        },
    };
    proof {
        let cells = initial_tiles(heightmap, colormap);
        assert forall|k: int| 0 <= k < cells.len() implies quad.model()[k] == cells[k] by {
            crate::opt::quad::lemma_index(k, width as int, height as int);
            assert(quad.model()[crate::opt::quad::cell(
                k / height as int,
                k % height as int,
                height as int,
            )] == cells[k]);
        }
        assert(quad.model() =~= cells);
        assert(0 <= width * options.size && 0 <= height * options.size) by (nonlinear_arith);
    }
    let ghost cells: Seq<TileModel> = quad.model();
    let ghost first: Seq<Progress> = seq![Progress::Start, Progress::TilesBuilt];
    let ghost squares: Seq<Progress> = square_reports(heightmap, colormap, options);
    let ghost lines: Seq<Progress> = line_reports(
        merged_squares(heightmap, colormap, options),
        width as nat,
        height as nat,
        options.size as int,
        MAX_LINEAR_PASSES as nat,
        options.quadtree,
    );
    let ghost merged: Seq<Progress> = seq![Progress::LinesMerged];
    let ghost last: Seq<Progress> = seq![Progress::Finished];
    let ghost reports: Seq<Progress> = run_reports(heightmap, colormap, options);
    assert(reports == squares + lines + merged + last);
    let built: bool = progress_f(Progress::TilesBuilt);
    proof {
        crate::opt::reports::lemma_one_report(progress_f, Progress::Start, true);
        crate::opt::reports::lemma_one_report(progress_f, Progress::TilesBuilt, built);
        crate::opt::reports::lemma_after_accepted(
            progress_f,
            seq![Progress::Start],
            seq![Progress::TilesBuilt],
        );
        assert(seq![Progress::Start] + seq![Progress::TilesBuilt] =~= first);
    }
    if !built {
        proof {
            let rest = reports.skip(2);
            crate::opt::reports::lemma_stopped_early(progress_f, first, rest);
            assert(first + rest =~= reports);
        }
        return Err(CANCELLED_MSG.to_owned());
    }
    if options.quadtree {
        let ghost levels: Seq<Progress> = level_reports(
            cells,
            width as int,
            height as int,
            options.size as int,
            0,
        );
        let ghost done: Seq<Progress> = seq![Progress::QuadsMerged];
        match optimize_quadtree(&mut quad, &options, &progress_f) {
            Ok(_) => {},
            Err(e) => {
                proof {
                    let rest = done + lines + merged + last;
                    crate::opt::reports::lemma_after_accepted(progress_f, first, levels);
                    crate::opt::reports::lemma_stopped_early(progress_f, first + levels, rest);
                    assert(first + levels + rest =~= reports);
                }
                return Err(e);
            },
        }
        let go: bool = progress_f(Progress::QuadsMerged);
        proof {
            crate::opt::reports::lemma_one_report(progress_f, Progress::QuadsMerged, go);
            crate::opt::reports::lemma_after_accepted(progress_f, first, levels);
            crate::opt::reports::lemma_after_accepted(progress_f, first + levels, done);
            assert(first + levels + done =~= squares);
        }
        if !go {
            proof {
                let rest = lines + merged + last;
                crate::opt::reports::lemma_stopped_early(progress_f, squares, rest);
                assert(squares + rest =~= reports);
            }
            return Err(CANCELLED_MSG.to_owned());
        }
    } else {
        assert(squares =~= first);
    }
    match optimize_linear(&mut quad, &options, &progress_f) {
        Ok(_) => {},
        Err(e) => {
            proof {
                crate::opt::reports::lemma_after_accepted(progress_f, squares, lines);
                crate::opt::reports::lemma_stopped_early(
                    progress_f,
                    squares + lines,
                    merged + last,
                );
                assert(squares + lines + (merged + last) =~= reports);
            }
            return Err(e);
        },
    }
    let lined: bool = progress_f(Progress::LinesMerged);
    proof {
        crate::opt::reports::lemma_one_report(progress_f, Progress::LinesMerged, lined);
        crate::opt::reports::lemma_after_accepted(progress_f, squares, lines);
        crate::opt::reports::lemma_after_accepted(progress_f, squares + lines, merged);
    }
    if !lined {
        proof {
            crate::opt::reports::lemma_stopped_early(progress_f, squares + lines + merged, last);
        }
        return Err(CANCELLED_MSG.to_owned());
    }
    assert(quad.model() == merged_tiles(heightmap, colormap, options));
    let bricks: Vec<Brick> = quad.into_bricks(options, width, height);
    let finish: bool = progress_f(Progress::Finished);
    proof {
        crate::opt::reports::lemma_one_report(progress_f, Progress::Finished, finish);
        crate::opt::reports::lemma_after_accepted(progress_f, squares + lines + merged, last);
    }
    if !finish {
        return Err(CANCELLED_MSG.to_owned());
    }
    Ok(bricks)
}

/// Generate a heightmap with brick conservation optimizations.
///
/// `base_height_override` and `offset` are forwarded to the chosen mesher; `(None, None)` gives a
/// map centered on the origin that fills down to its own lowest height.
pub fn gen_opt_heightmap<
    H: Heightmap + ?Sized,
    C: Colormap + ?Sized,
    F: Fn(Progress) -> bool,
>(
    heightmap: &H,
    colormap: &C,
    options: GenOptions,
    base_height_override: Option<u32>,
    offset: Option<(i32, i32)>,
    progress_f: F,
) -> (result: Result<Vec<Brick>, String>)
    requires
        crate::opt::generate::takes_reports(progress_f),
        !options.greedy ==> base_height_override is None && offset is None,
        heightmap.dims() == colormap.dims() ==> if options.greedy {
            crate::opt::generate::greedy_fits(
                heightmap,
                colormap,
                options,
                base_height_override,
                offset,
                None,
            )
        } else {
            quad_fits(heightmap, colormap, options)
        },
    ensures
        if options.greedy {
            crate::opt::generate::greedy_result(
                heightmap,
                colormap,
                options,
                base_height_override,
                offset,
                progress_f,
                None,
                result,
            )
        } else {
            quad_result(heightmap, colormap, options, progress_f, result)
        },
{
    if options.greedy {
        return gen_greedy_heightmap(
            heightmap,
            colormap,
            options,
            base_height_override,
            offset,
            progress_f,
            None,
        );
    }
    gen_quad_heightmap(
        heightmap,
        colormap,
        options,
        base_height_override,
        offset,
        progress_f,
    )
}

/// The tiles after `n` line merge passes.
pub open spec fn lined(tiles: Seq<TileModel>, width: nat, height: nat, size: int, n: nat) -> Seq<TileModel>
    decreases n,
{
    if n == 0 {
        tiles
    } else {
        lined(
            crate::opt::lines::line_columns(tiles, width as int, height, size, width),
            width,
            height,
            size,
            (n - 1) as nat,
        )
    }
}

/// Line merge passes go on until one merges nothing or there have been as many as allowed.
pub proof fn line_passes_go_on(
    tiles: Seq<TileModel>,
    width: nat,
    height: nat,
    size: int,
    left: nat,
) -> (n: nat)
    ensures
        n <= left,
        line_passes(tiles, width, height, size, left) == lined(tiles, width, height, size, n),
        n < left ==> n > 0 && crate::opt::quad::live(lined(tiles, width, height, size, n))
            == crate::opt::quad::live(lined(tiles, width, height, size, (n - 1) as nat)),
    decreases left,
{
    if left == 0 {
        0
    } else {
        let next = crate::opt::lines::line_columns(tiles, width as int, height, size, width);
        if crate::opt::quad::live(next) == crate::opt::quad::live(tiles) {
            assert(lined(next, width, height, size, 0) == next);
            assert(lined(tiles, width, height, size, 1) == next);
            1
        } else {
            let n = line_passes_go_on(next, width, height, size, (left - 1) as nat);
            if n > 0 {
                assert(lined(tiles, width, height, size, n) == lined(
                    next,
                    width,
                    height,
                    size,
                    (n - 1) as nat,
                ));
            }
            assert(lined(tiles, width, height, size, n + 1) == lined(next, width, height, size, n));
            n + 1
        }
    }
}

/// The tiles after `n` square merge passes from `level` on.
pub open spec fn squared(tiles: Seq<TileModel>, width: int, height: int, level: nat, n: nat) -> Seq<TileModel>
    decreases n,
{
    if n == 0 {
        tiles
    } else {
        squared(
            crate::opt::quad::quad_level(
                tiles,
                width,
                height,
                vstd::arithmetic::power2::pow2(level) as int,
            ),
            width,
            height,
            level + 1,
            (n - 1) as nat,
        )
    }
}

/// Square merge passes go on until one merges nothing or the next squares would be 500 units wide or wider.
pub proof fn square_passes_go_on(
    tiles: Seq<TileModel>,
    width: int,
    height: int,
    size: int,
    level: nat,
) -> (n: nat)
    ensures
        quad_passes(tiles, width, height, size, level) == squared(tiles, width, height, level, n),
        vstd::arithmetic::power2::pow2(level + n + 1) * size >= 500 || (n > 0
            && crate::opt::quad::live(squared(tiles, width, height, level, n))
            >= crate::opt::quad::live(squared(tiles, width, height, level, (n - 1) as nat))),
    decreases
            if crate::opt::quad::live(tiles) > 0 {
                crate::opt::quad::live(tiles)
            } else {
                0
            },
{
    crate::opt::quad::lemma_live_bounds(tiles);
    if vstd::arithmetic::power2::pow2(level + 1) * size >= 500 {
        0
    } else {
        let next = crate::opt::quad::quad_level(
            tiles,
            width,
            height,
            vstd::arithmetic::power2::pow2(level) as int,
        );
        crate::opt::quad::lemma_live_bounds(next);
        if crate::opt::quad::live(next) < crate::opt::quad::live(tiles) && crate::opt::quad::live(
            tiles,
        ) > 0 {
            let n = square_passes_go_on(next, width, height, size, level + 1);
            if n > 0 {
                assert(squared(tiles, width, height, level, n) == squared(
                    next,
                    width,
                    height,
                    level + 1,
                    (n - 1) as nat,
                ));
            }
            assert(squared(tiles, width, height, level, n + 1) == squared(
                next,
                width,
                height,
                level + 1,
                n,
            ));
            assert(level + 1 + n + 1 == level + (n + 1) + 1);
            n + 1
        } else {
            assert(squared(next, width, height, level + 1, 0) == next);
            assert(squared(tiles, width, height, level, 1) == next);
            assert(squared(tiles, width, height, level, 0) == tiles);
            1
        }
    }
}

/// A quadtree run tells that it starts and that its tiles are built, and in the end that its lines are merged
/// and that it is done; with square merges it tells that those are done too.
pub proof fn quadtree_runs_tell_how_far_they_are<H: Heightmap + ?Sized, C: Colormap + ?Sized>(
    heightmap: &H,
    colormap: &C,
    options: GenOptions,
)
    ensures
        ({
            let reports = run_reports(heightmap, colormap, options);
            let n = reports.len() as int;
            &&& n >= 4
            &&& reports[0] is Start
            &&& reports[1] is TilesBuilt
            &&& reports[n - 2] is LinesMerged
            &&& reports[n - 1] is Finished
            &&& options.quadtree ==> exists|i: int|
                2 <= i < n - 2 && #[trigger] reports[i] is QuadsMerged
        }),
{
    let (width, height) = heightmap.dims();
    let reports = run_reports(heightmap, colormap, options);
    let first = square_reports(heightmap, colormap, options);
    assert(reports[0] == first[0] && reports[1] == first[1]);
    if options.quadtree {
        let i = first.len() - 1;
        assert(first[i] is QuadsMerged);
        assert(reports[i] == first[i]);
    }
}

} // verus!
