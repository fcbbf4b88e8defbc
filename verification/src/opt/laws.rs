//! Laws of the greedy mesher.
use crate::brick::{Brick, BrickType, Position};
use crate::map::{Colormap, Heightmap};
use crate::opt::column::BrickColumn;
use crate::opt::generate::TaggedQuad;
use crate::opt::greedy::{GreedyQuad, MeshBounds};
use crate::opt::pairs::HeightColor;
use crate::util::GenOptions;
use vstd::prelude::*;

verus! {

proof fn lemma_greedy_quad_unique(
    cells: Set<(int, int)>,
    bounds: MeshBounds,
    p: GreedyQuad,
    q: GreedyQuad,
)
    requires
        crate::opt::greedy::is_greedy_quad(cells, bounds, p),
        crate::opt::greedy::is_greedy_quad(cells, bounds, q),
    ensures
        p == q,
{
    let (px, py, qx, qy) = (p.x as int, p.y as int, q.x as int, q.y as int);
    assert(crate::opt::greedy::column_set(cells, px, py, p.h as int));
    assert(crate::opt::greedy::column_set(cells, qx, qy, q.h as int));
    assert(cells.contains((px, py)));
    assert(cells.contains((qx, qy)));
    assert(px == qx && py == qy);
    if p.h < q.h {
        assert(cells.contains((px, py + p.h)));
    } else if q.h < p.h {
        assert(cells.contains((px, py + q.h)));
    }
    if p.w < q.w {
        assert(crate::opt::greedy::column_set(cells, px + p.w, py, p.h as int));
    } else if q.w < p.w {
        assert(crate::opt::greedy::column_set(cells, px + q.w, py, p.h as int));
    }
}

proof fn lemma_greedy_prefix_unique(
    cells: Set<(int, int)>,
    bounds: MeshBounds,
    a: Seq<GreedyQuad>,
    b: Seq<GreedyQuad>,
    n: int,
)
    requires
        crate::opt::greedy::is_greedy_prefix(cells, bounds, a),
        crate::opt::greedy::is_greedy_prefix(cells, bounds, b),
        0 <= n <= a.len(),
        n <= b.len(),
    ensures
        a.take(n) == b.take(n),
    decreases n,
{
    if n > 0 {
        lemma_greedy_prefix_unique(cells, bounds, a, b, n - 1);
        let left = crate::opt::greedy::remaining(cells, a.take(n - 1));
        lemma_greedy_quad_unique(left, bounds, a[n - 1], b[n - 1]);
        assert(a.take(n) =~= a.take(n - 1).push(a[n - 1]));
        assert(b.take(n) =~= b.take(n - 1).push(b[n - 1]));
    } else {
        assert(a.take(0) =~= b.take(0));
    }
}

proof fn lemma_mesh_not_longer(
    cells: Set<(int, int)>,
    bounds: MeshBounds,
    a: Seq<GreedyQuad>,
    b: Seq<GreedyQuad>,
)
    requires
        crate::opt::greedy::is_greedy_mesh(cells, bounds, a),
        crate::opt::greedy::is_greedy_mesh(cells, bounds, b),
    ensures
        b.len() <= a.len(),
{
    if a.len() < b.len() {
        let n = a.len() as int;
        lemma_greedy_prefix_unique(cells, bounds, a, b, n);
        assert(a.take(n) =~= a);
        let left = crate::opt::greedy::remaining(cells, a);
        let q = b[n];
        assert(crate::opt::greedy::is_greedy_quad(
            crate::opt::greedy::remaining(cells, b.take(n)),
            bounds,
            q,
        ));
        assert(crate::opt::greedy::column_set(left, q.x as int, q.y as int, q.h as int));
        assert(left.contains((q.x as int, q.y as int)));
    }
}

/// A plane has one greedy mesh.
pub proof fn greedy_mesh_is_unique(
    cells: Set<(int, int)>,
    bounds: MeshBounds,
    a: Seq<GreedyQuad>,
    b: Seq<GreedyQuad>,
)
    requires
        crate::opt::greedy::is_greedy_mesh(cells, bounds, a),
        crate::opt::greedy::is_greedy_mesh(cells, bounds, b),
    ensures
        a == b,
{
    lemma_mesh_not_longer(cells, bounds, a, b);
    lemma_mesh_not_longer(cells, bounds, b, a);
    if bounds.max_size != 0 {
        lemma_greedy_prefix_unique(cells, bounds, a, b, a.len() as int);
        assert(a.take(a.len() as int) =~= a);
        assert(b.take(b.len() as int) =~= b);
    } else {
        assert(a =~= b);
    }
}

proof fn lemma_listed_elsewhere<H: Heightmap + ?Sized, C: Colormap + ?Sized>(
    heightmap: &H,
    colormap: &C,
    cull: bool,
    a: Seq<HeightColor>,
    b: Seq<HeightColor>,
    i: int,
)
    requires
        crate::opt::pairs::is_pair_list(heightmap, colormap, cull, a),
        crate::opt::pairs::is_pair_list(heightmap, colormap, cull, b),
        0 <= i < a.len(),
    ensures
        b.contains(a[i]),
{
    assert(crate::opt::pairs::occurs(heightmap, colormap, cull, a[i]));
    let (x, y) = choose|x: int, y: int|
        {
            &&& 0 <= x < heightmap.dims().0
            &&& 0 <= y < heightmap.dims().1
            &&& crate::opt::pairs::counted(a[i], cull)
            &&& #[trigger] crate::opt::pairs::cell_pair(heightmap, colormap, x, y) == a[i]
        };
    assert(crate::opt::pairs::counted(
        crate::opt::pairs::cell_pair(heightmap, colormap, x, y),
        cull,
    ));
}

proof fn lemma_pair_prefix<H: Heightmap + ?Sized, C: Colormap + ?Sized>(
    heightmap: &H,
    colormap: &C,
    cull: bool,
    a: Seq<HeightColor>,
    b: Seq<HeightColor>,
    n: int,
)
    requires
        crate::opt::pairs::is_pair_list(heightmap, colormap, cull, a),
        crate::opt::pairs::is_pair_list(heightmap, colormap, cull, b),
        0 <= n <= a.len(),
    ensures
        n <= b.len(),
        forall|i: int| 0 <= i < n ==> a[i] == b[i],
    decreases n,
{
    if n > 0 {
        lemma_pair_prefix(heightmap, colormap, cull, a, b, n - 1);
        let k = n - 1;
        lemma_listed_elsewhere(heightmap, colormap, cull, a, b, k);
        let j = b.index_of(a[k]);
        if j < k {
            assert(a[j] == b[j]);
            assert(crate::opt::pairs::pair_key(a[j]) < crate::opt::pairs::pair_key(a[k]));
        }
        lemma_listed_elsewhere(heightmap, colormap, cull, b, a, k);
        let m = a.index_of(b[k]);
        if m < k {
            assert(a[m] == b[m]);
            assert(crate::opt::pairs::pair_key(b[m]) < crate::opt::pairs::pair_key(b[k]));
        }
        if j > k && m > k {
            assert(crate::opt::pairs::pair_key(b[k]) < crate::opt::pairs::pair_key(b[j]));
            assert(crate::opt::pairs::pair_key(a[k]) < crate::opt::pairs::pair_key(a[m]));
        }
    }
}

/// A map has one list of pairs.
pub proof fn pair_list_is_unique<H: Heightmap + ?Sized, C: Colormap + ?Sized>(
    heightmap: &H,
    colormap: &C,
    cull: bool,
    a: Seq<HeightColor>,
    b: Seq<HeightColor>,
)
    requires
        crate::opt::pairs::is_pair_list(heightmap, colormap, cull, a),
        crate::opt::pairs::is_pair_list(heightmap, colormap, cull, b),
    ensures
        a == b,
{
    lemma_pair_prefix(heightmap, colormap, cull, a, b, a.len() as int);
    lemma_pair_prefix(heightmap, colormap, cull, b, a, b.len() as int);
    assert(a =~= b);
}

/// The same maps and options give the same bricks: greedy meshing has one outcome.
pub proof fn greedy_output_is_unique<H: Heightmap + ?Sized, C: Colormap + ?Sized>(
    heightmap: &H,
    colormap: &C,
    options: GenOptions,
    base: Option<u32>,
    offset: Option<(i32, i32)>,
    mask: Option<Seq<bool>>,
    a: Seq<Brick>,
    b: Seq<Brick>,
)
    requires
        crate::opt::generate::is_greedy_output(
            heightmap,
            colormap,
            options,
            base,
            offset,
            mask,
            a,
        ),
        crate::opt::generate::is_greedy_output(
            heightmap,
            colormap,
            options,
            base,
            offset,
            mask,
            b,
        ),
    ensures
        a == b,
{
    let (p, m) = choose|p: Seq<HeightColor>, m: Seq<Seq<GreedyQuad>>|
        is_witness(heightmap, colormap, options, base, offset, mask, a, p, m);
    let (q, n) = choose|q: Seq<HeightColor>, n: Seq<Seq<GreedyQuad>>|
        is_witness(heightmap, colormap, options, base, offset, mask, b, q, n);
    lemma_witness(heightmap, colormap, options, base, offset, mask, a);
    lemma_witness(heightmap, colormap, options, base, offset, mask, b);
    pair_list_is_unique(heightmap, colormap, options.cull, p, q);
    lemma_meshes_unique(heightmap, colormap, options, mask, p, m, n);
}

/// The pairs and meshes behind a greedy output.
pub(crate) proof fn lemma_run_of<H: Heightmap + ?Sized, C: Colormap + ?Sized>(
    heightmap: &H,
    colormap: &C,
    options: GenOptions,
    base: Option<u32>,
    offset: Option<(i32, i32)>,
    mask: Option<Seq<bool>>,
    bricks: Seq<Brick>,
) -> (run: (Seq<HeightColor>, Seq<Seq<GreedyQuad>>))
    requires
        crate::opt::generate::is_greedy_output(
            heightmap,
            colormap,
            options,
            base,
            offset,
            mask,
            bricks,
        ),
    ensures
        crate::opt::pairs::is_pair_list(heightmap, colormap, options.cull, run.0),
        crate::opt::generate::are_pair_meshes(
            heightmap,
            colormap,
            options,
            mask,
            run.0,
            run.1,
        ),
        bricks == crate::opt::generate::all_quad_bricks(
            options,
            crate::opt::generate::tag_meshes(run.0, run.1),
            crate::opt::generate::base_plane(base, run.0),
            crate::opt::generate::placement(
                offset,
                options,
                heightmap.dims().0,
                heightmap.dims().1,
            ),
        ),
{
    lemma_witness(heightmap, colormap, options, base, offset, mask, bricks);
    choose|p: Seq<HeightColor>, m: Seq<Seq<GreedyQuad>>|
        #[trigger] is_witness(heightmap, colormap, options, base, offset, mask, bricks, p, m)
}

/// The pairs and meshes behind a greedy output.
spec fn is_witness<H: Heightmap + ?Sized, C: Colormap + ?Sized>(
    heightmap: &H,
    colormap: &C,
    options: GenOptions,
    base: Option<u32>,
    offset: Option<(i32, i32)>,
    mask: Option<Seq<bool>>,
    bricks: Seq<Brick>,
    pairs: Seq<HeightColor>,
    meshes: Seq<Seq<GreedyQuad>>,
) -> bool {
    &&& crate::opt::pairs::is_pair_list(heightmap, colormap, options.cull, pairs)
    &&& crate::opt::generate::are_pair_meshes(
        heightmap,
        colormap,
        options,
        mask,
        pairs,
        meshes,
    )
    &&& bricks == crate::opt::generate::all_quad_bricks(
        options,
        crate::opt::generate::tag_meshes(pairs, meshes),
        crate::opt::generate::base_plane(base, pairs),
        crate::opt::generate::placement(
            offset,
            options,
            heightmap.dims().0,
            heightmap.dims().1,
        ),
    )
}

proof fn lemma_witness<H: Heightmap + ?Sized, C: Colormap + ?Sized>(
    heightmap: &H,
    colormap: &C,
    options: GenOptions,
    base: Option<u32>,
    offset: Option<(i32, i32)>,
    mask: Option<Seq<bool>>,
    bricks: Seq<Brick>,
)
    ensures
        crate::opt::generate::is_greedy_output(
            heightmap,
            colormap,
            options,
            base,
            offset,
            mask,
            bricks,
        ) <==> exists|pairs: Seq<HeightColor>, meshes: Seq<Seq<GreedyQuad>>|
            #[trigger] is_witness(
                heightmap,
                colormap,
                options,
                base,
                offset,
                mask,
                bricks,
                pairs,
                meshes,
            ),
{
    if exists|pairs: Seq<HeightColor>, meshes: Seq<Seq<GreedyQuad>>|
        #[trigger] is_witness(
            heightmap,
            colormap,
            options,
            base,
            offset,
            mask,
            bricks,
            pairs,
            meshes,
        ) {
        let (pairs, meshes) = choose|pairs: Seq<HeightColor>, meshes: Seq<Seq<GreedyQuad>>|
            #[trigger] is_witness(
                heightmap,
                colormap,
                options,
                base,
                offset,
                mask,
                bricks,
                pairs,
                meshes,
            );
        assert(bricks == crate::opt::generate::all_quad_bricks(
            options,
            crate::opt::generate::tag_meshes(pairs, meshes),
            crate::opt::generate::base_plane(base, pairs),
            crate::opt::generate::placement(
                offset,
                options,
                heightmap.dims().0,
                heightmap.dims().1,
            ),
        ));
    }
    if crate::opt::generate::is_greedy_output(
        heightmap,
        colormap,
        options,
        base,
        offset,
        mask,
        bricks,
    ) {
        let (width, height) = heightmap.dims();
        let (pairs, meshes) = choose|pairs: Seq<HeightColor>, meshes: Seq<Seq<GreedyQuad>>|
            {
                &&& crate::opt::pairs::is_pair_list(heightmap, colormap, options.cull, pairs)
                &&& crate::opt::generate::are_pair_meshes(
                    heightmap,
                    colormap,
                    options,
                    mask,
                    pairs,
                    meshes,
                )
                &&& bricks == crate::opt::generate::all_quad_bricks(
                    options,
                    #[trigger] crate::opt::generate::tag_meshes(pairs, meshes),
                    crate::opt::generate::base_plane(base, pairs),
                    crate::opt::generate::placement(offset, options, width, height),
                )
            };
        assert(is_witness(
            heightmap,
            colormap,
            options,
            base,
            offset,
            mask,
            bricks,
            pairs,
            meshes,
        ));
    }
}

proof fn lemma_meshes_unique<H: Heightmap + ?Sized, C: Colormap + ?Sized>(
    heightmap: &H,
    colormap: &C,
    options: GenOptions,
    mask: Option<Seq<bool>>,
    pairs: Seq<HeightColor>,
    a: Seq<Seq<GreedyQuad>>,
    b: Seq<Seq<GreedyQuad>>,
)
    requires
        crate::opt::generate::are_pair_meshes(heightmap, colormap, options, mask, pairs, a),
        crate::opt::generate::are_pair_meshes(heightmap, colormap, options, mask, pairs, b),
    ensures
        a == b,
{
    let (width, height) = heightmap.dims();
    assert forall|p: int| 0 <= p < a.len() implies a[p] == b[p] by {
        greedy_mesh_is_unique(
            crate::opt::planes::pair_cells(heightmap, colormap, options.cull, mask, pairs[p]),
            crate::opt::generate::map_bounds(
                width,
                height,
                crate::opt::generate::max_quad_cells(options),
            ),
            a[p],
            b[p],
        );
    }
    assert(a =~= b);
}

/// A mask that keeps every cell changes nothing.
pub proof fn full_mask_changes_nothing<H: Heightmap + ?Sized, C: Colormap + ?Sized>(
    heightmap: &H,
    colormap: &C,
    options: GenOptions,
    base: Option<u32>,
    offset: Option<(i32, i32)>,
    mask: Seq<bool>,
    bricks: Seq<Brick>,
)
    requires
        mask.len() == heightmap.dims().0 * heightmap.dims().1,
        forall|i: int| 0 <= i < mask.len() ==> mask[i],
    ensures
        crate::opt::generate::is_greedy_output(
            heightmap,
            colormap,
            options,
            base,
            offset,
            Some(mask),
            bricks,
        ) <==> crate::opt::generate::is_greedy_output(
            heightmap,
            colormap,
            options,
            base,
            offset,
            None,
            bricks,
        ),
{
    let (width, height) = heightmap.dims();
    assert forall|pair: HeightColor|
        #[trigger] crate::opt::planes::pair_cells(
            heightmap,
            colormap,
            options.cull,
            Some(mask),
            pair,
        ) == crate::opt::planes::pair_cells(heightmap, colormap, options.cull, None, pair) by {
        assert forall|x: int, y: int|
            0 <= x < width && 0 <= y < height implies #[trigger] crate::opt::planes::kept(
            Some(mask),
            width as int,
            x,
            y,
        ) by {
            crate::map::lemma_cell_index(x, y, width as int, height as int);
        }
        assert(crate::opt::planes::pair_cells(
            heightmap,
            colormap,
            options.cull,
            Some(mask),
            pair,
        ) =~= crate::opt::planes::pair_cells(heightmap, colormap, options.cull, None, pair));
    }
    assert forall|pairs: Seq<HeightColor>, meshes: Seq<Seq<GreedyQuad>>|
        #[trigger] crate::opt::generate::are_pair_meshes(
            heightmap,
            colormap,
            options,
            Some(mask),
            pairs,
            meshes,
        ) <==> crate::opt::generate::are_pair_meshes(
            heightmap,
            colormap,
            options,
            None,
            pairs,
            meshes,
        ) by {
        lemma_same_planes(heightmap, colormap, options, Some(mask), None, pairs, meshes);
        lemma_same_planes(heightmap, colormap, options, None, Some(mask), pairs, meshes);
    }
    lemma_witness(heightmap, colormap, options, base, offset, Some(mask), bricks);
    lemma_witness(heightmap, colormap, options, base, offset, None, bricks);
    if crate::opt::generate::is_greedy_output(
        heightmap,
        colormap,
        options,
        base,
        offset,
        Some(mask),
        bricks,
    ) {
        let (p, m) = choose|p: Seq<HeightColor>, m: Seq<Seq<GreedyQuad>>|
            #[trigger] is_witness(
                heightmap,
                colormap,
                options,
                base,
                offset,
                Some(mask),
                bricks,
                p,
                m,
            );
        assert(is_witness(heightmap, colormap, options, base, offset, None, bricks, p, m));
    }
    if crate::opt::generate::is_greedy_output(
        heightmap,
        colormap,
        options,
        base,
        offset,
        None,
        bricks,
    ) {
        let (p, m) = choose|p: Seq<HeightColor>, m: Seq<Seq<GreedyQuad>>|
            #[trigger] is_witness(
                heightmap,
                colormap,
                options,
                base,
                offset,
                None,
                bricks,
                p,
                m,
            );
        assert(is_witness(heightmap, colormap, options, base, offset, Some(mask), bricks, p, m));
    }
}

proof fn lemma_same_planes<H: Heightmap + ?Sized, C: Colormap + ?Sized>(
    heightmap: &H,
    colormap: &C,
    options: GenOptions,
    a: Option<Seq<bool>>,
    b: Option<Seq<bool>>,
    pairs: Seq<HeightColor>,
    meshes: Seq<Seq<GreedyQuad>>,
)
    requires
        forall|pair: HeightColor|
            #[trigger] crate::opt::planes::pair_cells(heightmap, colormap, options.cull, a, pair)
                == crate::opt::planes::pair_cells(heightmap, colormap, options.cull, b, pair),
    ensures
        crate::opt::generate::are_pair_meshes(heightmap, colormap, options, a, pairs, meshes)
            ==> crate::opt::generate::are_pair_meshes(
            heightmap,
            colormap,
            options,
            b,
            pairs,
            meshes,
        ),
{
    let (width, height) = heightmap.dims();
    if crate::opt::generate::are_pair_meshes(heightmap, colormap, options, a, pairs, meshes) {
        assert forall|p: int| 0 <= p < pairs.len() implies crate::opt::greedy::is_greedy_mesh(
            crate::opt::planes::pair_cells(heightmap, colormap, options.cull, b, pairs[p]),
            crate::opt::generate::map_bounds(
                width,
                height,
                crate::opt::generate::max_quad_cells(options),
            ),
            #[trigger] meshes[p],
        ) by {
            assert(crate::opt::planes::pair_cells(
                heightmap,
                colormap,
                options.cull,
                a,
                pairs[p],
            ) == crate::opt::planes::pair_cells(heightmap, colormap, options.cull, b, pairs[p]));
        }
    }
}

proof fn lemma_no_cells_no_quads(
    cells: Set<(int, int)>,
    bounds: MeshBounds,
    quads: Seq<GreedyQuad>,
)
    requires
        crate::opt::greedy::is_greedy_mesh(cells, bounds, quads),
        forall|x: int, y: int| !#[trigger] cells.contains((x, y)),
    ensures
        quads.len() == 0,
{
    if quads.len() > 0 {
        let q = quads[0];
        let left = crate::opt::greedy::remaining(cells, quads.take(0));
        assert(crate::opt::greedy::is_greedy_quad(left, bounds, q));
        assert(crate::opt::greedy::column_set(left, q.x as int, q.y as int, q.h as int));
        assert(left.contains((q.x as int, q.y as int)));
        assert(cells.contains((q.x as int, q.y as int)));
    }
}

proof fn lemma_no_quads_no_tags(pairs: Seq<HeightColor>, meshes: Seq<Seq<GreedyQuad>>)
    requires
        pairs.len() == meshes.len(),
        forall|p: int| 0 <= p < meshes.len() ==> (#[trigger] meshes[p]).len() == 0,
    ensures
        crate::opt::generate::tag_meshes(pairs, meshes).len() == 0,
    decreases pairs.len(),
{
    if pairs.len() > 0 {
        assert forall|p: int| 0 <= p < meshes.drop_last().len() implies (
        #[trigger] meshes.drop_last()[p]).len() == 0 by {
            assert(meshes.drop_last()[p] == meshes[p]);
        }
        lemma_no_quads_no_tags(pairs.drop_last(), meshes.drop_last());
        assert(meshes[meshes.len() - 1].len() == 0);
    }
}

/// A mask that keeps no cell leaves no bricks.
pub proof fn empty_mask_leaves_nothing<H: Heightmap + ?Sized, C: Colormap + ?Sized>(
    heightmap: &H,
    colormap: &C,
    options: GenOptions,
    base: Option<u32>,
    offset: Option<(i32, i32)>,
    mask: Seq<bool>,
    bricks: Seq<Brick>,
)
    requires
        mask.len() == heightmap.dims().0 * heightmap.dims().1,
        forall|i: int| 0 <= i < mask.len() ==> !mask[i],
        crate::opt::generate::is_greedy_output(
            heightmap,
            colormap,
            options,
            base,
            offset,
            Some(mask),
            bricks,
        ),
    ensures
        bricks.len() == 0,
{
    let (width, height) = heightmap.dims();
    lemma_witness(heightmap, colormap, options, base, offset, Some(mask), bricks);
    let (pairs, meshes) = choose|p: Seq<HeightColor>, m: Seq<Seq<GreedyQuad>>|
        #[trigger] is_witness(
            heightmap,
            colormap,
            options,
            base,
            offset,
            Some(mask),
            bricks,
            p,
            m,
        );
    assert forall|p: int| 0 <= p < meshes.len() implies (#[trigger] meshes[p]).len() == 0 by {
        let cells = crate::opt::planes::pair_cells(
            heightmap,
            colormap,
            options.cull,
            Some(mask),
            pairs[p],
        );
        assert forall|x: int, y: int| !#[trigger] cells.contains((x, y)) by {
            if 0 <= x < width && 0 <= y < height {
                crate::map::lemma_cell_index(x, y, width as int, height as int);
            }
        }
        lemma_no_cells_no_quads(
            cells,
            crate::opt::generate::map_bounds(
                width,
                height,
                crate::opt::generate::max_quad_cells(options),
            ),
            meshes[p],
        );
    }
    lemma_no_quads_no_tags(pairs, meshes);
}

/// The brick, moved by `by` on the two horizontal axes.
pub open spec fn moved(brick: Brick, by: (int, int)) -> Brick {
    Brick {
        position: Position {
            x: (brick.position.x + by.0) as i32,
            y: (brick.position.y + by.1) as i32,
            z: brick.position.z,
        },
        ..brick
    }
}

/// All bricks, moved.
pub open spec fn all_moved(bricks: Seq<Brick>, by: (int, int)) -> Seq<Brick> {
    Seq::new(bricks.len(), |i: int| moved(bricks[i], by))
}

proof fn lemma_stack_moved(
    options: GenOptions,
    a: BrickColumn,
    b: BrickColumn,
    by: (int, int),
    z: int,
    desired: int,
)
    requires
        b == (BrickColumn { pos_x: b.pos_x, pos_y: b.pos_y, ..a }),
        b.pos_x == a.pos_x + by.0,
        b.pos_y == a.pos_y + by.1,
    ensures
        crate::opt::column::column_stack(options, b, z, desired) == all_moved(
            crate::opt::column::column_stack(options, a, z, desired),
            by,
        ),
    decreases
            if desired > 0 {
                desired
            } else {
                0
            },
{
    let left = crate::opt::column::column_stack(options, b, z, desired);
    let right = all_moved(crate::opt::column::column_stack(options, a, z, desired), by);
    if desired > 0 {
        let height = crate::opt::column::piece_height(options, desired);
        lemma_stack_moved(options, a, b, by, z - 2 * height, desired - height);
        assert(crate::opt::column::column_brick(options, b, z, height) == moved(
            crate::opt::column::column_brick(options, a, z, height),
            by,
        ));
    }
    assert(left =~= right);
}

proof fn lemma_quads_moved(
    options: GenOptions,
    quads: Seq<TaggedQuad>,
    min_height: u32,
    from: (i32, i32),
    to: (i32, i32),
)
    requires
        forall|i: int|
            0 <= i < quads.len() ==> crate::opt::generate::quad_fits(
                options,
                (#[trigger] quads[i]).0,
                from,
            ),
        forall|i: int|
            0 <= i < quads.len() ==> crate::opt::generate::quad_fits(
                options,
                (#[trigger] quads[i]).0,
                to,
            ),
    ensures
        crate::opt::generate::all_quad_bricks(options, quads, min_height, to) == all_moved(
            crate::opt::generate::all_quad_bricks(options, quads, min_height, from),
            (to.0 - from.0, to.1 - from.1),
        ),
    decreases quads.len(),
{
    let by = (to.0 - from.0, to.1 - from.1);
    let left = crate::opt::generate::all_quad_bricks(options, quads, min_height, to);
    let right = all_moved(
        crate::opt::generate::all_quad_bricks(options, quads, min_height, from),
        by,
    );
    if quads.len() > 0 {
        let rest = quads.drop_last();
        assert forall|i: int| 0 <= i < rest.len() implies crate::opt::generate::quad_fits(
            options,
            (#[trigger] rest[i]).0,
            from,
        ) && crate::opt::generate::quad_fits(options, rest[i].0, to) by {
            assert(rest[i] == quads[i]);
        }
        lemma_quads_moved(options, rest, min_height, from, to);
        let last = quads[quads.len() - 1];
        let q = last.0;
        assert(crate::opt::generate::quad_fits(options, q, from));
        assert(crate::opt::generate::quad_fits(options, q, to));
        assert(0 <= q.x * options.size * 2 + q.w * options.size && 0 <= q.y * options.size * 2
            + q.h * options.size) by (nonlinear_arith)
            requires
                0 <= q.x,
                0 <= q.y,
                0 <= q.w,
                0 <= q.h,
                0 <= options.size,
        ;
        let a = crate::opt::generate::quad_column(options, last, min_height, from);
        let b = crate::opt::generate::quad_column(options, last, min_height, to);
        lemma_stack_moved(options, a, b, by, a.z as int, a.desired_height as int);
    }
    assert(left =~= right);
}

/// An offset moves the bricks and changes nothing else about them: the bricks at one offset are
/// those at another, moved by the difference. Without an offset the map is centered on the origin.
pub proof fn offset_moves_the_bricks<H: Heightmap + ?Sized, C: Colormap + ?Sized>(
    heightmap: &H,
    colormap: &C,
    options: GenOptions,
    base: Option<u32>,
    from: Option<(i32, i32)>,
    to: Option<(i32, i32)>,
    mask: Option<Seq<bool>>,
    bricks: Seq<Brick>,
)
    requires
        crate::opt::generate::greedy_fits(heightmap, colormap, options, base, from, mask),
        crate::opt::generate::greedy_fits(heightmap, colormap, options, base, to, mask),
        crate::opt::generate::is_greedy_output(
            heightmap,
            colormap,
            options,
            base,
            from,
            mask,
            bricks,
        ),
    ensures
        ({
            let (w, h) = heightmap.dims();
            let p = crate::opt::generate::placement(from, options, w, h);
            let q = crate::opt::generate::placement(to, options, w, h);
            crate::opt::generate::is_greedy_output(
                heightmap,
                colormap,
                options,
                base,
                to,
                mask,
                all_moved(bricks, (q.0 - p.0, q.1 - p.1)),
            )
        }),
{
    let (w, h) = heightmap.dims();
    let p = crate::opt::generate::placement(from, options, w, h);
    let q = crate::opt::generate::placement(to, options, w, h);
    lemma_witness(heightmap, colormap, options, base, from, mask, bricks);
    let (pairs, meshes) = choose|pairs: Seq<HeightColor>, meshes: Seq<Seq<GreedyQuad>>|
        #[trigger] is_witness(
            heightmap,
            colormap,
            options,
            base,
            from,
            mask,
            bricks,
            pairs,
            meshes,
        );
    let quads = crate::opt::generate::tag_meshes(pairs, meshes);
    assert forall|i: int| 0 <= i < quads.len() implies crate::opt::generate::quad_fits(
        options,
        (#[trigger] quads[i]).0,
        p,
    ) && crate::opt::generate::quad_fits(options, quads[i].0, q) by {
        crate::opt::generate::lemma_quads_fit(
            heightmap,
            colormap,
            options,
            base,
            from,
            mask,
            pairs,
            meshes,
            i,
        );
        crate::opt::generate::lemma_quads_fit(
            heightmap,
            colormap,
            options,
            base,
            to,
            mask,
            pairs,
            meshes,
            i,
        );
    }
    lemma_quads_moved(
        options,
        quads,
        crate::opt::generate::base_plane(base, pairs),
        p,
        q,
    );
    let there = all_moved(bricks, (q.0 - p.0, q.1 - p.1));
    assert(is_witness(heightmap, colormap, options, base, to, mask, there, pairs, meshes));
    lemma_witness(heightmap, colormap, options, base, to, mask, there);
}

/// Without an offset the bricks are placed as with the offset that centers the map.
pub proof fn no_offset_centers_the_map<H: Heightmap + ?Sized, C: Colormap + ?Sized>(
    heightmap: &H,
    colormap: &C,
    options: GenOptions,
    base: Option<u32>,
    mask: Option<Seq<bool>>,
    bricks: Seq<Brick>,
)
    ensures
        crate::opt::generate::is_greedy_output(
            heightmap,
            colormap,
            options,
            base,
            None,
            mask,
            bricks,
        ) <==> crate::opt::generate::is_greedy_output(
            heightmap,
            colormap,
            options,
            base,
            Some(
                (
                    -(heightmap.dims().0 * options.size) as i32,
                    -(heightmap.dims().1 * options.size) as i32,
                ),
            ),
            mask,
            bricks,
        ),
{
}

proof fn lemma_same_quad_bricks(
    a: GenOptions,
    b: GenOptions,
    quads: Seq<TaggedQuad>,
    min_height: u32,
    offset: (i32, i32),
)
    requires
        b == (GenOptions { skip_floor: b.skip_floor, ..a }),
        forall|i: int|
            0 <= i < quads.len() ==> crate::opt::generate::skipped(a, (#[trigger] quads[i]).1)
                == crate::opt::generate::skipped(b, quads[i].1),
    ensures
        crate::opt::generate::all_quad_bricks(a, quads, min_height, offset)
            == crate::opt::generate::all_quad_bricks(b, quads, min_height, offset),
    decreases quads.len(),
{
    if quads.len() > 0 {
        let rest = quads.drop_last();
        assert forall|i: int| 0 <= i < rest.len() implies crate::opt::generate::skipped(
            a,
            (#[trigger] rest[i]).1,
        ) == crate::opt::generate::skipped(b, rest[i].1) by {
            assert(rest[i] == quads[i]);
        }
        lemma_same_quad_bricks(a, b, rest, min_height, offset);
        let last = quads[quads.len() - 1];
        let col = crate::opt::generate::quad_column(a, last, min_height, offset);
        lemma_same_stack(a, b, col, col.z as int, col.desired_height as int);
    }
}

proof fn lemma_same_stack(
    a: GenOptions,
    b: GenOptions,
    col: BrickColumn,
    z: int,
    desired: int,
)
    requires
        b == (GenOptions { skip_floor: b.skip_floor, ..a }),
    ensures
        crate::opt::column::column_stack(a, col, z, desired)
            == crate::opt::column::column_stack(b, col, z, desired),
    decreases
            if desired > 0 {
                desired
            } else {
                0
            },
{
    if desired > 0 {
        let height = crate::opt::column::piece_height(a, desired);
        lemma_same_stack(a, b, col, z - 2 * height, desired - height);
    }
}

/// Skipping the floor has no effect unless terrain is filled to its base: outside that mode, and in
/// image mode, the bricks are the same with and without it.
pub proof fn skip_floor_needs_filled_terrain<H: Heightmap + ?Sized, C: Colormap + ?Sized>(
    heightmap: &H,
    colormap: &C,
    options: GenOptions,
    other: GenOptions,
    base: Option<u32>,
    offset: Option<(i32, i32)>,
    mask: Option<Seq<bool>>,
    bricks: Seq<Brick>,
)
    requires
        other == (GenOptions { skip_floor: other.skip_floor, ..options }),
        !options.fill_to_base || options.img,
        crate::opt::generate::is_greedy_output(
            heightmap,
            colormap,
            options,
            base,
            offset,
            mask,
            bricks,
        ),
    ensures
        crate::opt::generate::is_greedy_output(
            heightmap,
            colormap,
            other,
            base,
            offset,
            mask,
            bricks,
        ),
{
    let (w, h) = heightmap.dims();
    lemma_witness(heightmap, colormap, options, base, offset, mask, bricks);
    let (pairs, meshes) = choose|pairs: Seq<HeightColor>, meshes: Seq<Seq<GreedyQuad>>|
        #[trigger] is_witness(
            heightmap,
            colormap,
            options,
            base,
            offset,
            mask,
            bricks,
            pairs,
            meshes,
        );
    lemma_same_quad_bricks(
        options,
        other,
        crate::opt::generate::tag_meshes(pairs, meshes),
        crate::opt::generate::base_plane(base, pairs),
        crate::opt::generate::placement(offset, options, w, h),
    );
    assert(crate::opt::generate::are_pair_meshes(
        heightmap,
        colormap,
        other,
        mask,
        pairs,
        meshes,
    )) by {
        assert forall|p: int| 0 <= p < pairs.len() implies crate::opt::greedy::is_greedy_mesh(
            crate::opt::planes::pair_cells(heightmap, colormap, other.cull, mask, pairs[p]),
            crate::opt::generate::map_bounds(
                w,
                h,
                crate::opt::generate::max_quad_cells(other),
            ),
            #[trigger] meshes[p],
        ) by {
            assert(crate::opt::greedy::is_greedy_mesh(
                crate::opt::planes::pair_cells(
                    heightmap,
                    colormap,
                    options.cull,
                    mask,
                    pairs[p],
                ),
                crate::opt::generate::map_bounds(
                    w,
                    h,
                    crate::opt::generate::max_quad_cells(options),
                ),
                meshes[p],
            ));
        }
    }
    assert(is_witness(heightmap, colormap, other, base, offset, mask, bricks, pairs, meshes));
    lemma_witness(heightmap, colormap, other, base, offset, mask, bricks);
}

/// Largest footprint that greedy meshing gives a brick: the brick unit cap, or a single cell where
/// that is larger.
pub open spec fn footprint_cap(options: GenOptions) -> int {
    if options.max_brick_units >= options.size {
        options.max_brick_units as int
    } else {
        options.size as int
    }
}

/// The brick's footprint is at most `cap` units on each axis.
pub open spec fn within_footprint(brick: Brick, cap: int) -> bool {
    brick.asset matches BrickType::Procedural { size, .. } && size.x <= cap && size.y <= cap
}

proof fn lemma_stack_footprint(
    options: GenOptions,
    col: BrickColumn,
    z: int,
    desired: int,
    cap: int,
)
    requires
        col.size_x <= cap,
        col.size_y <= cap,
    ensures
        forall|i: int|
            0 <= i < crate::opt::column::column_stack(options, col, z, desired).len()
                ==> within_footprint(
                #[trigger] crate::opt::column::column_stack(options, col, z, desired)[i],
                cap,
            ),
    decreases
            if desired > 0 {
                desired
            } else {
                0
            },
{
    if desired > 0 {
        let height = crate::opt::column::piece_height(options, desired);
        lemma_stack_footprint(options, col, z - 2 * height, desired - height, cap);
        let rest = crate::opt::column::column_stack(options, col, z - 2 * height, desired - height);
        let all = crate::opt::column::column_stack(options, col, z, desired);
        assert forall|i: int| 0 <= i < all.len() implies within_footprint(
            #[trigger] all[i],
            cap,
        ) by {
            if i > 0 {
                assert(all[i] == rest[i - 1]);
            }
        }
    }
}

proof fn lemma_quads_footprint(
    options: GenOptions,
    quads: Seq<TaggedQuad>,
    min_height: u32,
    offset: (i32, i32),
)
    requires
        forall|i: int|
            0 <= i < quads.len() ==> (#[trigger] quads[i]).0.w
                <= crate::opt::generate::max_quad_cells(options) && quads[i].0.h
                <= crate::opt::generate::max_quad_cells(options),
    ensures
        forall|i: int|
            0 <= i < crate::opt::generate::all_quad_bricks(
                options,
                quads,
                min_height,
                offset,
            ).len() ==> within_footprint(
                #[trigger] crate::opt::generate::all_quad_bricks(
                    options,
                    quads,
                    min_height,
                    offset,
                )[i],
                footprint_cap(options),
            ),
    decreases quads.len(),
{
    if quads.len() > 0 {
        let rest = quads.drop_last();
        assert forall|i: int| 0 <= i < rest.len() implies (#[trigger] rest[i]).0.w
            <= crate::opt::generate::max_quad_cells(options) && rest[i].0.h
            <= crate::opt::generate::max_quad_cells(options) by {
            assert(rest[i] == quads[i]);
        }
        lemma_quads_footprint(options, rest, min_height, offset);
        let last = quads[quads.len() - 1];
        let size = options.size as int;
        let limit = crate::opt::generate::max_quad_cells(options) as int;
        let units = options.max_brick_units as int;
        let cap = footprint_cap(options);
        assert(limit * size <= cap) by (nonlinear_arith)
            requires
                0 <= size <= cap,
                0 <= units <= cap,
                limit == 1 || size == 0 || limit == units / size,
        ;
        assert(0 <= last.0.w * size <= limit * size && 0 <= last.0.h * size <= limit * size)
            by (nonlinear_arith)
            requires
                0 <= last.0.w <= limit,
                0 <= last.0.h <= limit,
                0 <= size,
        ;
        let col = crate::opt::generate::quad_column(options, last, min_height, offset);
        lemma_stack_footprint(options, col, col.z as int, col.desired_height as int, cap);
        let head = crate::opt::generate::all_quad_bricks(options, rest, min_height, offset);
        let tail = crate::opt::generate::quad_bricks(options, last, min_height, offset);
        let all = crate::opt::generate::all_quad_bricks(options, quads, min_height, offset);
        assert forall|i: int| 0 <= i < all.len() implies within_footprint(
            #[trigger] all[i],
            cap,
        ) by {
            if i < head.len() {
                assert(all[i] == head[i]);
            } else {
                assert(all[i] == tail[i - head.len()]);
            }
        }
    }
}

/// No brick of a greedy mesh is wider than the brick unit cap, unless a single cell is.
pub proof fn greedy_bricks_keep_to_the_cap<H: Heightmap + ?Sized, C: Colormap + ?Sized>(
    heightmap: &H,
    colormap: &C,
    options: GenOptions,
    base: Option<u32>,
    offset: Option<(i32, i32)>,
    mask: Option<Seq<bool>>,
    bricks: Seq<Brick>,
)
    requires
        crate::opt::generate::is_greedy_output(
            heightmap,
            colormap,
            options,
            base,
            offset,
            mask,
            bricks,
        ),
    ensures
        forall|i: int|
            0 <= i < bricks.len() ==> within_footprint(
                #[trigger] bricks[i],
                footprint_cap(options),
            ),
{
    let (w, h) = heightmap.dims();
    lemma_witness(heightmap, colormap, options, base, offset, mask, bricks);
    let (pairs, meshes) = choose|pairs: Seq<HeightColor>, meshes: Seq<Seq<GreedyQuad>>|
        #[trigger] is_witness(
            heightmap,
            colormap,
            options,
            base,
            offset,
            mask,
            bricks,
            pairs,
            meshes,
        );
    let quads = crate::opt::generate::tag_meshes(pairs, meshes);
    let limit = crate::opt::generate::max_quad_cells(options);
    assert forall|i: int| 0 <= i < quads.len() implies (#[trigger] quads[i]).0.w <= limit
        && quads[i].0.h <= limit by {
        let (p, k) = crate::opt::generate::lemma_tagged_from_mesh(pairs, meshes, i);
        let cells = crate::opt::planes::pair_cells(
            heightmap,
            colormap,
            options.cull,
            mask,
            pairs[p],
        );
        crate::opt::greedy::mesh_tiles_set_cells_once(
            cells,
            crate::opt::generate::map_bounds(w, h, limit),
            meshes[p],
        );
        assert(meshes[p][k].w <= limit);
    }
    lemma_quads_footprint(
        options,
        quads,
        crate::opt::generate::base_plane(base, pairs),
        crate::opt::generate::placement(offset, options, w, h),
    );
}

/// Quad `k` of the mesh of pair `p` holds the cell.
pub open spec fn quad_holds(
    meshes: Seq<Seq<GreedyQuad>>,
    p: int,
    k: int,
    x: int,
    y: int,
) -> bool {
    0 <= p < meshes.len() && 0 <= k < meshes[p].len() && meshes[p][k].covers(x, y)
}

/// The meshed quads tile the map: every kept cell that takes part lies in exactly one quad, that
/// quad carries the cell's own height and color, and no other cell lies in a quad.
pub proof fn greedy_quads_tile_the_map<H: Heightmap + ?Sized, C: Colormap + ?Sized>(
    heightmap: &H,
    colormap: &C,
    options: GenOptions,
    mask: Option<Seq<bool>>,
    pairs: Seq<HeightColor>,
    meshes: Seq<Seq<GreedyQuad>>,
    x: int,
    y: int,
)
    requires
        crate::opt::pairs::is_pair_list(heightmap, colormap, options.cull, pairs),
        crate::opt::generate::are_pair_meshes(
            heightmap,
            colormap,
            options,
            mask,
            pairs,
            meshes,
        ),
    ensures
        (exists|p: int, k: int| #[trigger] quad_holds(meshes, p, k, x, y)) <==> {
            &&& 0 <= x < heightmap.dims().0
            &&& 0 <= y < heightmap.dims().1
            &&& crate::opt::planes::kept(mask, heightmap.dims().0 as int, x, y)
            &&& crate::opt::pairs::counted(
                crate::opt::pairs::cell_pair(heightmap, colormap, x, y),
                options.cull,
            )
        },
        forall|p: int, k: int|
            #[trigger] quad_holds(meshes, p, k, x, y) ==> pairs[p]
                == crate::opt::pairs::cell_pair(heightmap, colormap, x, y),
        forall|p: int, k: int, q: int, l: int|
            #[trigger] quad_holds(meshes, p, k, x, y) && #[trigger] quad_holds(meshes, q, l, x, y)
                ==> p == q && k == l,
{
    let (w, h) = heightmap.dims();
    let limit = crate::opt::generate::max_quad_cells(options);
    let bounds = crate::opt::generate::map_bounds(w, h, limit);
    let pair = crate::opt::pairs::cell_pair(heightmap, colormap, x, y);
    assert forall|p: int, k: int| #[trigger] quad_holds(meshes, p, k, x, y) implies {
        &&& pairs[p] == pair
        &&& 0 <= x < w
        &&& 0 <= y < h
        &&& crate::opt::planes::kept(mask, w as int, x, y)
        &&& crate::opt::pairs::counted(pair, options.cull)
    } by {
        let cells = crate::opt::planes::pair_cells(
            heightmap,
            colormap,
            options.cull,
            mask,
            pairs[p],
        );
        crate::opt::greedy::mesh_tiles_set_cells_once(cells, bounds, meshes[p]);
        assert(cells.contains((x, y)));
    }
    assert forall|p: int, k: int, q: int, l: int|
        #[trigger] quad_holds(meshes, p, k, x, y) && #[trigger] quad_holds(
            meshes,
            q,
            l,
            x,
            y,
        ) implies p == q && k == l by {
        assert(pairs[p] == pairs[q]);
        if p < q {
            assert(crate::opt::pairs::pair_key(pairs[p]) < crate::opt::pairs::pair_key(pairs[q]));
        } else if q < p {
            assert(crate::opt::pairs::pair_key(pairs[q]) < crate::opt::pairs::pair_key(pairs[p]));
        }
        let cells = crate::opt::planes::pair_cells(
            heightmap,
            colormap,
            options.cull,
            mask,
            pairs[p],
        );
        crate::opt::greedy::mesh_tiles_set_cells_once(cells, bounds, meshes[p]);
        assert(meshes[p][k].covers(x, y) && meshes[p][l].covers(x, y));
    }
    if 0 <= x < w && 0 <= y < h && crate::opt::planes::kept(mask, w as int, x, y)
        && crate::opt::pairs::counted(pair, options.cull) {
        let p = pairs.index_of(pair);
        assert(pairs.contains(pair));
        let cells = crate::opt::planes::pair_cells(
            heightmap,
            colormap,
            options.cull,
            mask,
            pairs[p],
        );
        crate::opt::greedy::mesh_tiles_set_cells_once(cells, bounds, meshes[p]);
        assert(cells.contains((x, y)));
        assert(!crate::opt::greedy::uncovered(meshes[p], x, y));
        let k = choose|k: int| 0 <= k < meshes[p].len() && #[trigger] meshes[p][k].covers(x, y);
        assert(quad_holds(meshes, p, k, x, y));
    }
}

/// Which cells are meshed: with culling, no quad holds a cell of height 0 or one that is transparent;
/// no quad holds a cell that the mask leaves out; every other cell of the map is held, by a quad of its
/// own height and color.
pub proof fn quads_hold_the_visible_cells<H: Heightmap + ?Sized, C: Colormap + ?Sized>(
    heightmap: &H,
    colormap: &C,
    options: GenOptions,
    mask: Option<Seq<bool>>,
    pairs: Seq<HeightColor>,
    meshes: Seq<Seq<GreedyQuad>>,
    x: int,
    y: int,
)
    requires
        crate::opt::pairs::is_pair_list(heightmap, colormap, options.cull, pairs),
        crate::opt::generate::are_pair_meshes(
            heightmap,
            colormap,
            options,
            mask,
            pairs,
            meshes,
        ),
    ensures
        (exists|p: int, k: int| #[trigger] quad_holds(meshes, p, k, x, y)) <==> {
            &&& 0 <= x < heightmap.dims().0
            &&& 0 <= y < heightmap.dims().1
            &&& mask matches Some(m) ==> m[y * heightmap.dims().0 + x]
            &&& options.cull ==> heightmap.height_at(x, y) > 0
            &&& options.cull ==> colormap.color_at(x, y)[3] > 0
        },
        forall|p: int, k: int|
            #[trigger] quad_holds(meshes, p, k, x, y) ==> pairs[p].0 == heightmap.height_at(x, y)
                && pairs[p].1 == colormap.color_at(x, y),
{
    greedy_quads_tile_the_map(heightmap, colormap, options, mask, pairs, meshes, x, y);
}

/// The common base plane of a map, unless it is given, is the lowest height of the cells that are
/// meshed: it occurs among the map's cells that culling leaves, and none of them is lower.
pub proof fn base_plane_is_the_lowest_height<H: Heightmap + ?Sized, C: Colormap + ?Sized>(
    heightmap: &H,
    colormap: &C,
    cull: bool,
    pairs: Seq<HeightColor>,
    x: int,
    y: int,
) -> (at: (int, int))
    requires
        crate::opt::pairs::is_pair_list(heightmap, colormap, cull, pairs),
        0 <= x < heightmap.dims().0,
        0 <= y < heightmap.dims().1,
        cull ==> heightmap.height_at(x, y) > 0 && colormap.color_at(x, y)[3] > 0,
    ensures
        0 <= at.0 < heightmap.dims().0,
        0 <= at.1 < heightmap.dims().1,
        cull ==> heightmap.height_at(at.0, at.1) > 0 && colormap.color_at(at.0, at.1)[3] > 0,
        crate::opt::generate::base_plane(None, pairs) == heightmap.height_at(at.0, at.1),
        crate::opt::generate::base_plane(None, pairs) <= heightmap.height_at(x, y),
        forall|b: u32| #[trigger] crate::opt::generate::base_plane(Some(b), pairs) == b,
{
    let pair = crate::opt::pairs::cell_pair(heightmap, colormap, x, y);
    assert(pairs.contains(pair));
    let k = pairs.index_of(pair);
    let first = pairs[0];
    assert(crate::opt::pairs::occurs(heightmap, colormap, cull, first));
    let (a, b) = choose|a: int, b: int|
        {
            &&& 0 <= a < heightmap.dims().0
            &&& 0 <= b < heightmap.dims().1
            &&& crate::opt::pairs::counted(first, cull)
            &&& #[trigger] crate::opt::pairs::cell_pair(heightmap, colormap, a, b) == first
        };
    if k > 0 {
        assert(crate::opt::pairs::pair_key(pairs[0]) < crate::opt::pairs::pair_key(pairs[k]));
    }
    (a, b)
}

/// A quad's sides are as many cells long as the brick unit cap leaves room for, and a single cell where it
/// leaves none.
pub proof fn quad_sides_fill_the_cap(options: GenOptions)
    requires
        options.size > 0,
    ensures
        crate::opt::generate::max_quad_cells(options) >= 1,
        options.size <= options.max_brick_units ==> {
            let cells = crate::opt::generate::max_quad_cells(options);
            cells * options.size <= options.max_brick_units < (cells + 1) * options.size
        },
        options.size > options.max_brick_units ==> crate::opt::generate::max_quad_cells(options) == 1,
{
    let (cap, size) = (options.max_brick_units as int, options.size as int);
    vstd::arithmetic::div_mod::lemma_fundamental_div_mod(cap, size);
    vstd::arithmetic::div_mod::lemma_mod_bound(cap, size);
    vstd::arithmetic::mul::lemma_mul_is_commutative(size, cap / size);
    assert((cap / size + 1) * size == cap / size * size + size) by (nonlinear_arith);
    assert(0 <= cap / size <= cap && (size <= cap ==> cap / size >= 1) && (size > cap ==> cap / size
        == 0)) by (nonlinear_arith)
        requires
            size > 0,
            cap >= 0,
            cap / size * size <= cap,
            cap < cap / size * size + size,
    ;
}

} // verus!
