//! When two greedy runs make the same bricks.
use super::greedy::GreedyQuad;
use super::pairs::HeightColor;
use crate::brick::{Brick, BrickType};
use crate::map::{Colormap, Heightmap};
use crate::opt::column::BrickColumn;
use crate::opt::generate::TaggedQuad;
use crate::util::GenOptions;
use vstd::prelude::*;

verus! {

/// The two bricks are the same, their assets by name.
pub open spec fn same_brick(a: Brick, b: Brick) -> bool {
    &&& match (a.asset, b.asset) {
        (
            BrickType::Procedural { asset: m, size: s },
            BrickType::Procedural { asset: n, size: t },
        ) => m@ == n@ && s == t,
        (BrickType::SpawnPoint, BrickType::SpawnPoint) => true,
        _ => false,
    }
    &&& a.position == b.position
    &&& a.collision == b.collision
    &&& a.color == b.color
    &&& a.material == b.material
    &&& a.material_intensity == b.material_intensity
}

/// The two lists hold the same bricks in the same order.
pub open spec fn same_bricks(a: Seq<Brick>, b: Seq<Brick>) -> bool {
    a.len() == b.len() && forall|i: int|
        0 <= i < a.len() ==> same_brick(#[trigger] a[i], #[trigger] b[i])
}

/// The options are the same, the asset by its name.
pub open spec fn same_options(a: GenOptions, b: GenOptions) -> bool {
    a.asset@ == b.asset@ && b == (GenOptions { asset: b.asset, ..a })
}

/// The maps have the same size, heights and colors, and the masks keep the same cells.
pub open spec fn same_cells<
    H: Heightmap + ?Sized,
    C: Colormap + ?Sized,
    G: Heightmap + ?Sized,
    D: Colormap + ?Sized,
>(
    heights: &H,
    colors: &C,
    mask: Option<Seq<bool>>,
    other_heights: &G,
    other_colors: &D,
    other_mask: Option<Seq<bool>>,
) -> bool {
    &&& heights.dims() == other_heights.dims()
    &&& forall|x: int, y: int|
        0 <= x < heights.dims().0 && 0 <= y < heights.dims().1 ==> same_cell(
            heights,
            colors,
            mask,
            other_heights,
            other_colors,
            other_mask,
            x,
            y,
        )
}

/// The maps agree on a cell, and the masks on whether it is kept.
pub open spec fn same_cell<
    H: Heightmap + ?Sized,
    C: Colormap + ?Sized,
    G: Heightmap + ?Sized,
    D: Colormap + ?Sized,
>(
    heights: &H,
    colors: &C,
    mask: Option<Seq<bool>>,
    other_heights: &G,
    other_colors: &D,
    other_mask: Option<Seq<bool>>,
    x: int,
    y: int,
) -> bool {
    &&& super::pairs::cell_pair(heights, colors, x, y) == super::pairs::cell_pair(
        other_heights,
        other_colors,
        x,
        y,
    )
    &&& super::planes::kept(mask, heights.dims().0 as int, x, y) == super::planes::kept(
        other_mask,
        heights.dims().0 as int,
        x,
        y,
    )
}

proof fn lemma_pairs_carry_over<
    H: Heightmap + ?Sized,
    C: Colormap + ?Sized,
    G: Heightmap + ?Sized,
    D: Colormap + ?Sized,
>(
    heights: &H,
    colors: &C,
    mask: Option<Seq<bool>>,
    other_heights: &G,
    other_colors: &D,
    other_mask: Option<Seq<bool>>,
    cull: bool,
    pairs: Seq<HeightColor>,
)
    requires
        same_cells(heights, colors, mask, other_heights, other_colors, other_mask),
        super::pairs::is_pair_list(heights, colors, cull, pairs),
    ensures
        super::pairs::is_pair_list(other_heights, other_colors, cull, pairs),
{
    let (w, h) = heights.dims();
    assert forall|x: int, y: int|
        0 <= x < w && 0 <= y < h && super::pairs::counted(
            #[trigger] super::pairs::cell_pair(other_heights, other_colors, x, y),
            cull,
        ) implies pairs.contains(
        super::pairs::cell_pair(other_heights, other_colors, x, y),
    ) by {
        assert(same_cell(
            heights,
            colors,
            mask,
            other_heights,
            other_colors,
            other_mask,
            x,
            y,
        ));
        assert(super::pairs::counted(super::pairs::cell_pair(heights, colors, x, y), cull));
    }
    assert forall|i: int| 0 <= i < pairs.len() implies super::pairs::occurs(
        other_heights,
        other_colors,
        cull,
        #[trigger] pairs[i],
    ) by {
        assert(super::pairs::occurs(heights, colors, cull, pairs[i]));
        let (x, y) = choose|x: int, y: int|
            {
                &&& 0 <= x < heights.dims().0
                &&& 0 <= y < heights.dims().1
                &&& super::pairs::counted(pairs[i], cull)
                &&& #[trigger] super::pairs::cell_pair(heights, colors, x, y) == pairs[i]
            };
        assert(same_cell(
            heights,
            colors,
            mask,
            other_heights,
            other_colors,
            other_mask,
            x,
            y,
        ));
        assert(super::pairs::cell_pair(other_heights, other_colors, x, y) == pairs[i]);
    }
}

proof fn lemma_planes_agree<
    H: Heightmap + ?Sized,
    C: Colormap + ?Sized,
    G: Heightmap + ?Sized,
    D: Colormap + ?Sized,
>(
    heights: &H,
    colors: &C,
    mask: Option<Seq<bool>>,
    other_heights: &G,
    other_colors: &D,
    other_mask: Option<Seq<bool>>,
    cull: bool,
    pair: HeightColor,
)
    requires
        same_cells(heights, colors, mask, other_heights, other_colors, other_mask),
    ensures
        super::planes::pair_cells(heights, colors, cull, mask, pair) == super::planes::pair_cells(
            other_heights,
            other_colors,
            cull,
            other_mask,
            pair,
        ),
{
    let a = super::planes::pair_cells(heights, colors, cull, mask, pair);
    let b = super::planes::pair_cells(other_heights, other_colors, cull, other_mask, pair);
    assert forall|c: (int, int)| a.contains(c) == b.contains(c) by {
        if 0 <= c.0 < heights.dims().0 && 0 <= c.1 < heights.dims().1 {
            assert(same_cell(
                heights,
                colors,
                mask,
                other_heights,
                other_colors,
                other_mask,
                c.0,
                c.1,
            ));
        }
    }
    assert(a =~= b);
}

proof fn lemma_same_stack(a: GenOptions, b: GenOptions, col: BrickColumn, z: int, desired: int)
    requires
        same_options(a, b),
    ensures
        same_bricks(
            super::column::column_stack(a, col, z, desired),
            super::column::column_stack(b, col, z, desired),
        ),
    decreases
            if desired > 0 {
                desired
            } else {
                0
            },
{
    if desired > 0 {
        let height = super::column::piece_height(a, desired);
        assert(height > 0);
        lemma_same_stack(a, b, col, z - 2 * height, desired - height);
    }
}

proof fn lemma_same_quads(
    a: GenOptions,
    b: GenOptions,
    quads: Seq<TaggedQuad>,
    min_height: u32,
    offset: (i32, i32),
)
    requires
        same_options(a, b),
    ensures
        same_bricks(
            super::generate::all_quad_bricks(a, quads, min_height, offset),
            super::generate::all_quad_bricks(b, quads, min_height, offset),
        ),
    decreases quads.len(),
{
    if quads.len() > 0 {
        lemma_same_quads(a, b, quads.drop_last(), min_height, offset);
        let col = super::generate::quad_column(a, quads.last(), min_height, offset);
        lemma_same_stack(a, b, col, col.z as int, col.desired_height as int);
    }
}

/// Greedy meshing depends on nothing but the cells and the options: runs on maps with the same
/// heights and colors, masks that keep the same cells, and the same options make the same bricks in
/// the same order.
pub proof fn same_inputs_mesh_alike<
    H: Heightmap + ?Sized,
    C: Colormap + ?Sized,
    G: Heightmap + ?Sized,
    D: Colormap + ?Sized,
>(
    heights: &H,
    colors: &C,
    mask: Option<Seq<bool>>,
    options: GenOptions,
    bricks: Seq<Brick>,
    other_heights: &G,
    other_colors: &D,
    other_mask: Option<Seq<bool>>,
    other_options: GenOptions,
    other_bricks: Seq<Brick>,
    base: Option<u32>,
    offset: Option<(i32, i32)>,
)
    requires
        same_cells(heights, colors, mask, other_heights, other_colors, other_mask),
        same_options(options, other_options),
        super::generate::is_greedy_output(heights, colors, options, base, offset, mask, bricks),
        super::generate::is_greedy_output(
            other_heights,
            other_colors,
            other_options,
            base,
            offset,
            other_mask,
            other_bricks,
        ),
    ensures
        same_bricks(bricks, other_bricks),
{
    let (pairs, meshes) = super::laws::lemma_run_of(
        heights,
        colors,
        options,
        base,
        offset,
        mask,
        bricks,
    );
    let (others, other_meshes) = super::laws::lemma_run_of(
        other_heights,
        other_colors,
        other_options,
        base,
        offset,
        other_mask,
        other_bricks,
    );
    lemma_pairs_carry_over(
        heights,
        colors,
        mask,
        other_heights,
        other_colors,
        other_mask,
        options.cull,
        pairs,
    );
    super::laws::pair_list_is_unique(other_heights, other_colors, options.cull, pairs, others);
    assert forall|p: int| 0 <= p < meshes.len() implies meshes[p] == other_meshes[p] by {
        lemma_planes_agree(
            heights,
            colors,
            mask,
            other_heights,
            other_colors,
            other_mask,
            options.cull,
            pairs[p],
        );
        super::laws::greedy_mesh_is_unique(
            super::planes::pair_cells(heights, colors, options.cull, mask, pairs[p]),
            super::generate::map_bounds(
                heights.dims().0,
                heights.dims().1,
                super::generate::max_quad_cells(options),
            ),
            meshes[p],
            other_meshes[p],
        );
    }
    assert(meshes =~= other_meshes);
    lemma_same_quads(
        options,
        other_options,
        super::generate::tag_meshes(pairs, meshes),
        super::generate::base_plane(base, pairs),
        super::generate::placement(offset, options, heights.dims().0, heights.dims().1),
    );
}

} // verus!
