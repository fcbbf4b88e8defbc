//! Layer export: one pre-positioned part per layer.
//!
//! Each visible layer that owns cells exports as its own save whose bricks sit at true absolute
//! world coordinates on the shared base lattice, so loading every part assembles one world. The
//! claim pass makes the parts a strict partition, so no two parts place a brick in the same cell.
use super::convert::BuildError;
use super::grid::slice_mask;
use super::layers::{Layer, LayerId, LayerStack};
use super::tiling::{offset_fits_chunk_index, part_axis_offset};
use vstd::prelude::*;
use vstd::string::StringExecFns;

verus! {

/// One planned export part: a layer's claimed-cell bounding box, the keep-mask
/// over that box, and the world offset that lands every cell on the shared global
/// lattice. Field-cell space; `bbox` is half-open `[x0,x1) × [y0,y1)`.
pub struct PartPlan {
    pub layer_name: String,
    pub bbox: (u32, u32, u32, u32),
    /// Row-major keep-mask over the bbox (len `(x1-x0)·(y1-y0)`): a cell is kept
    /// iff this layer owns it after the claim pass.
    pub keep_local: Vec<bool>,
    pub offset: (i32, i32),
}

/// The cells that a layer owns, row by row: those that the claim pass gives to its id.
pub open spec fn owned_cells(layers: Seq<Layer>, id: LayerId, cells: nat) -> Seq<bool> {
    Seq::new(cells, |i: int| super::layers::claim_at(layers, i) == Some(id))
}

/// The mask marks the cell in column `x` and row `y`.
pub open spec fn marks(mask: Seq<bool>, fw: int, x: int, y: int) -> bool {
    mask[y * fw + x]
}

/// The mask marks a cell of the field.
pub open spec fn marks_any(mask: Seq<bool>, fw: int, fh: int) -> bool {
    exists|x: int, y: int| 0 <= x < fw && 0 <= y < fh && #[trigger] marks(mask, fw, x, y)
}

/// The mask marks a cell of column `x`.
pub open spec fn marks_column(mask: Seq<bool>, fw: int, fh: int, x: int) -> bool {
    exists|y: int| 0 <= y < fh && #[trigger] marks(mask, fw, x, y)
}

/// The mask marks a cell of row `y`.
pub open spec fn marks_row(mask: Seq<bool>, fw: int, y: int) -> bool {
    exists|x: int| 0 <= x < fw && #[trigger] marks(mask, fw, x, y)
}

/// The box holds every marked cell, and each of its edges touches one.
pub open spec fn is_tight_box(
    mask: Seq<bool>,
    fw: int,
    fh: int,
    bbox: (u32, u32, u32, u32),
) -> bool {
    let (x0, y0, x1, y1) = bbox;
    &&& x0 < x1 <= fw
    &&& y0 < y1 <= fh
    &&& forall|x: int, y: int|
        0 <= x < fw && 0 <= y < fh && #[trigger] marks(mask, fw, x, y) ==> x0 <= x < x1 && y0 <= y
            < y1
    &&& marks_column(mask, fw, fh, x0 as int)
    &&& marks_column(mask, fw, fh, x1 - 1)
    &&& marks_row(mask, fw, y0 as int)
    &&& marks_row(mask, fw, y1 - 1)
}

/// The layer is visible and owns a cell of the field.
pub open spec fn exports(layers: Seq<Layer>, layer: Layer, fw: u32, fh: u32) -> bool {
    layer.visible && marks_any(
        owned_cells(layers, layer.id, (fw * fh) as nat),
        fw as int,
        fh as int,
    )
}

/// World offset of a part, saturated.
pub open spec fn part_offset(
    bbox: (u32, u32, u32, u32),
    fw: u32,
    fh: u32,
    size: u16,
) -> (int, int) {
    (
        super::tiling::saturated_i32(
            super::tiling::axis_offset(bbox.0 as int, fw as int, size as int),
        ),
        super::tiling::saturated_i32(
            super::tiling::axis_offset(bbox.1 as int, fh as int, size as int),
        ),
    )
}

/// The part lies in the world.
pub open spec fn part_fits(bbox: (u32, u32, u32, u32), fw: u32, fh: u32, size: u16) -> bool {
    let offset = part_offset(bbox, fw, fh, size);
    &&& super::tiling::fits_world(offset.0, fw as int, size as int)
    &&& super::tiling::fits_world(offset.1, fh as int, size as int)
}

/// The plan is the layer's part.
pub open spec fn is_part(
    layers: Seq<Layer>,
    layer: Layer,
    fw: u32,
    fh: u32,
    size: u16,
    plan: PartPlan,
) -> bool {
    let owned = owned_cells(layers, layer.id, (fw * fh) as nat);
    let (x0, y0, x1, y1) = plan.bbox;
    &&& plan.layer_name@ == layer.name@
    &&& is_tight_box(owned, fw as int, fh as int, plan.bbox)
    &&& plan.keep_local@ == super::grid::mask_window(
        owned,
        fw as int,
        x0 as int,
        y0 as int,
        x1 as int,
        y1 as int,
    )
    &&& (plan.offset.0 as int, plan.offset.1 as int) == part_offset(plan.bbox, fw, fh, size)
    &&& part_fits(plan.bbox, fw, fh, size)
}

/// The plans are the parts of the first `n` layers, in order; layers that export nothing have none.
pub open spec fn are_parts(
    layers: Seq<Layer>,
    fw: u32,
    fh: u32,
    size: u16,
    n: int,
    plans: Seq<PartPlan>,
) -> bool
    decreases n,
{
    if n <= 0 {
        plans.len() == 0
    } else if exports(layers, layers[n - 1], fw, fh) {
        &&& plans.len() > 0
        &&& is_part(layers, layers[n - 1], fw, fh, size, plans.last())
        &&& are_parts(layers, fw, fh, size, n - 1, plans.drop_last())
    } else {
        are_parts(layers, fw, fh, size, n - 1, plans)
    }
}

/// The refusal of a layer whose part would leave the world.
pub open spec fn extent_text(name: Seq<char>) -> Seq<char> {
    "layer '"@ + name
        + "' places a part outside Brickadia's world extent — coarsen background detail or shrink the world"@
}

/// Layer `k` is the first whose part would leave the world.
pub open spec fn first_misfit(
    layers: Seq<Layer>,
    fw: u32,
    fh: u32,
    size: u16,
    k: int,
    before: Seq<PartPlan>,
    bbox: (u32, u32, u32, u32),
) -> bool {
    &&& 0 <= k < layers.len()
    &&& are_parts(layers, fw, fh, size, k, before)
    &&& exports(layers, layers[k], fw, fh)
    &&& is_tight_box(
        owned_cells(layers, layers[k].id, (fw * fh) as nat),
        fw as int,
        fh as int,
        bbox,
    )
    &&& !part_fits(bbox, fw, fh, size)
}

/// The bounding box of the marked cells.
fn marked_box(mask: &Vec<bool>, fw: u32, fh: u32) -> (bbox: Option<(u32, u32, u32, u32)>)
    requires
        mask@.len() == fw * fh,
    ensures
        bbox is None <==> !marks_any(mask@, fw as int, fh as int),
        bbox matches Some(b) ==> is_tight_box(mask@, fw as int, fh as int, b),
{
    let mut found: Option<(u32, u32, u32, u32)> = None;
    let ghost (w, h): (int, int) = (fw as int, fh as int);
    let mut y: u32 = 0;
    while y < fh
        invariant
            mask@.len() == fw * fh,
            w == fw,
            h == fh,
            y <= fh,
            found is None ==> forall|a: int, b: int|
                0 <= a < w && 0 <= b < y ==> !#[trigger] marks(mask@, w, a, b),
            found matches Some(b) ==> box_so_far(mask@, w, h, b) && b.3 <= y && forall|
                a: int,
                c: int,
            |
                0 <= a < w && 0 <= c < y && #[trigger] marks(mask@, w, a, c) ==> b.0 <= a < b.2
                    && b.1 <= c < b.3,
        decreases fh - y,
    {
        let mut x: u32 = 0;
        while x < fw
            invariant
                mask@.len() == fw * fh,
                w == fw,
                h == fh,
                y < fh,
                x <= fw,
                found is None ==> forall|a: int, b: int|
                    0 <= a < w && 0 <= b < y || 0 <= a < x && b == y ==> !#[trigger] marks(
                        mask@,
                        w,
                        a,
                        b,
                    ),
                found matches Some(b) ==> box_so_far(mask@, w, h, b) && b.3 <= y + 1 && forall|
                    a: int,
                    c: int,
                |
                    (0 <= a < w && 0 <= c < y || 0 <= a < x && c == y) && #[trigger] marks(
                        mask@,
                        w,
                        a,
                        c,
                    ) ==> b.0 <= a < b.2 && b.1 <= c < b.3,
            decreases fw - x,
        {
            proof {
                crate::map::lemma_cell_index(x as int, y as int, w, h);
                assert(mask.len() <= usize::MAX);
            }
            if mask[y as usize * fw as usize + x as usize] {
                assert(marks(mask@, w, x as int, y as int));
                found = match found {
                    None => Some((x, y, x + 1, y + 1)),
                    Some((x0, y0, x1, _)) => Some(
                        (
                            if x < x0 {
                                x
                            } else {
                                x0
                            },
                            y0,
                            if x + 1 > x1 {
                                x + 1
                            } else {
                                x1
                            },
                            y + 1,
                        ),
                    ),
                };
            } else {
                assert(!marks(mask@, w, x as int, y as int));
            }
            x = x + 1;
        }
        y = y + 1;
    }
    found
}

/// Each edge of the box touches a marked cell.
spec fn box_so_far(mask: Seq<bool>, fw: int, fh: int, b: (u32, u32, u32, u32)) -> bool {
    &&& b.0 < b.2 <= fw
    &&& b.1 < b.3 <= fh
    &&& marks_column(mask, fw, fh, b.0 as int)
    &&& marks_column(mask, fw, fh, b.2 - 1)
    &&& marks_row(mask, fw, b.1 as int)
    &&& marks_row(mask, fw, b.3 - 1)
}

/// The mask of the cells that are claimed by a layer.
fn owned_mask(claimed: &Vec<Option<LayerId>>, id: LayerId) -> (mask: Vec<bool>)
    ensures
        mask@ == Seq::new(claimed@.len(), |i: int| claimed@[i] == Some(id)),
{
    let mut mask: Vec<bool> = Vec::new();
    let mut i: usize = 0;
    while i < claimed.len()
        invariant
            i <= claimed@.len(),
            mask@ == Seq::new(i as nat, |k: int| claimed@[k] == Some(id)),
        decreases claimed@.len() - i,
    {
        let owned: bool = match claimed[i] {
            Some(owner) => owner.0 == id.0,
            None => false,
        };
        mask.push(owned);
        i = i + 1;
        assert(mask@ =~= Seq::new(i as nat, |k: int| claimed@[k] == Some(id)));
    }
    mask
}

fn extent_error(name: &str) -> (e: BuildError)
    ensures
        e matches BuildError::BrdbWrite(text) && text@ == extent_text(name@),
{
    let mut text: String = "layer '".to_owned();
    text.append(name);
    text.append(
        "' places a part outside Brickadia's world extent — coarsen background detail or shrink the world",
    );
    BuildError::BrdbWrite(text)
}

/// Plan the export parts for a layer stack over an `fw × fh` field, on a shared base pitch
/// `size_base`. Runs the claim pass, derives each visible non-empty layer's
/// owned-cell bbox + local keep-mask + world offset, and gates every part
/// against Brickadia's world-extent limit. Empty/hidden layers produce no part.
pub fn plan_layer_parts(stack: &LayerStack, fw: u32, fh: u32, size_base: u16) -> (plans: Result<
    Vec<PartPlan>,
    BuildError,
>)
    requires
        fw * fh <= usize::MAX,
    ensures
        plans matches Ok(parts) ==> are_parts(
            stack.layers@,
            fw,
            fh,
            size_base,
            stack.layers@.len() as int,
            parts@,
        ),
        plans matches Err(e) ==> exists|
            k: int,
            before: Seq<PartPlan>,
            bbox: (u32, u32, u32, u32),
        |
            #[trigger] first_misfit(stack.layers@, fw, fh, size_base, k, before, bbox) && (
            e matches BuildError::BrdbWrite(text) && text@ == extent_text(
                stack.layers@[k].name@,
            )),
{
    let claimed: Vec<Option<LayerId>> = stack.claim(fw, fh);
    let ghost layers: Seq<Layer> = stack.layers@;
    let mut parts: Vec<PartPlan> = Vec::new();
    let mut k: usize = 0;
    while k < stack.layers.len()
        invariant
            fw * fh <= usize::MAX,
            layers == stack.layers@,
            claimed@ == Seq::new(
                (fw * fh) as nat,
                |i: int| super::layers::claim_at(layers, i),
            ),
            k <= layers.len(),
            are_parts(layers, fw, fh, size_base, k as int, parts@),
        decreases layers.len() - k,
    {
        let layer: &Layer = &stack.layers[k];
        let ghost before: Seq<PartPlan> = parts@;
        if layer.visible {
            let mask: Vec<bool> = owned_mask(&claimed, layer.id);
            proof {
                assert(0 <= fw * fh) by (nonlinear_arith)
                    requires
                        0 <= fw,
                        0 <= fh,
                ;
                assert(mask@ =~= owned_cells(layers, layer.id, (fw * fh) as nat));
            }
            if let Some(bbox) = marked_box(&mask, fw, fh) {
                let (x0, y0, _, _) = bbox;
                let offset: (i32, i32) = (
                    part_axis_offset(x0, fw, size_base),
                    part_axis_offset(y0, fh, size_base),
                );
                if !offset_fits_chunk_index(offset.0, fw, size_base) || !offset_fits_chunk_index(
                    offset.1,
                    fh,
                    size_base,
                ) {
                    assert(first_misfit(layers, fw, fh, size_base, k as int, before, bbox));
                    return Err(extent_error(layer.name.as_str()));
                }
                let keep_local: Vec<bool> = slice_mask(&mask, fw, fh, bbox);
                parts.push(PartPlan { layer_name: layer.name.clone(), bbox, keep_local, offset });
                assert(parts@.drop_last() =~= before);
            }
        }
        k = k + 1;
    }
    Ok(parts)
}

/// The part emits the cell in column `x` and row `y` of the field.
pub open spec fn part_keeps(plan: PartPlan, x: int, y: int) -> bool {
    let (x0, y0, x1, y1) = plan.bbox;
    &&& x0 <= x < x1
    &&& y0 <= y < y1
    &&& plan.keep_local@[(y - y0) * (x1 - x0) + (x - x0)]
}

/// A part emits exactly the cells that its layer owns after the claim pass.
pub proof fn part_keeps_what_its_layer_owns(
    layers: Seq<Layer>,
    layer: Layer,
    fw: u32,
    fh: u32,
    size: u16,
    plan: PartPlan,
    x: int,
    y: int,
)
    requires
        is_part(layers, layer, fw, fh, size, plan),
        0 <= x < fw,
        0 <= y < fh,
    ensures
        part_keeps(plan, x, y) <==> super::layers::claim_at(layers, y * fw + x) == Some(layer.id),
{
    let owned = owned_cells(layers, layer.id, (fw * fh) as nat);
    let (x0, y0, x1, y1) = plan.bbox;
    crate::map::lemma_cell_index(x, y, fw as int, fh as int);
    assert(marks(owned, fw as int, x, y) == (super::layers::claim_at(layers, y * fw + x) == Some(
        layer.id,
    )));
    if x0 <= x < x1 && y0 <= y < y1 {
        let span = x1 - x0;
        crate::map::lemma_cell_index(x - x0, y - y0, span, y1 - y0);
        vstd::arithmetic::div_mod::lemma_fundamental_div_mod_converse(
            (y - y0) * span + (x - x0),
            span,
            y - y0,
            x - x0,
        );
    }
}

/// Parts share no cell: a cell that the parts of two layers both emit belongs to layers of one and
/// the same id.
pub proof fn parts_share_no_cell(
    layers: Seq<Layer>,
    a: Layer,
    b: Layer,
    fw: u32,
    fh: u32,
    size: u16,
    p: PartPlan,
    q: PartPlan,
    x: int,
    y: int,
)
    requires
        is_part(layers, a, fw, fh, size, p),
        is_part(layers, b, fw, fh, size, q),
        0 <= x < fw,
        0 <= y < fh,
        part_keeps(p, x, y),
        part_keeps(q, x, y),
    ensures
        a.id == b.id,
{
    part_keeps_what_its_layer_owns(layers, a, fw, fh, size, p, x, y);
    part_keeps_what_its_layer_owns(layers, b, fw, fh, size, q, x, y);
}

proof fn lemma_part_of_layer(
    layers: Seq<Layer>,
    fw: u32,
    fh: u32,
    size: u16,
    n: int,
    plans: Seq<PartPlan>,
    k: int,
) -> (p: int)
    requires
        are_parts(layers, fw, fh, size, n, plans),
        0 <= k < n,
        exports(layers, layers[k], fw, fh),
    ensures
        0 <= p < plans.len(),
        is_part(layers, layers[k], fw, fh, size, plans[p]),
    decreases n,
{
    if k == n - 1 {
        plans.len() - 1
    } else if exports(layers, layers[n - 1], fw, fh) {
        lemma_part_of_layer(layers, fw, fh, size, n - 1, plans.drop_last(), k)
    } else {
        lemma_part_of_layer(layers, fw, fh, size, n - 1, plans, k)
    }
}

/// Together the parts emit every cell that a layer claims: nothing that was selected is lost.
pub proof fn parts_cover_the_claimed_cells(
    layers: Seq<Layer>,
    fw: u32,
    fh: u32,
    size: u16,
    plans: Seq<PartPlan>,
    x: int,
    y: int,
)
    requires
        are_parts(layers, fw, fh, size, layers.len() as int, plans),
        0 <= x < fw,
        0 <= y < fh,
    ensures
        (exists|p: int| 0 <= p < plans.len() && #[trigger] part_keeps(plans[p], x, y))
            || super::layers::claim_at(layers, y * fw + x) is None,
{
    let i = y * fw + x;
    crate::map::lemma_cell_index(x, y, fw as int, fh as int);
    super::layers::top_visible_layer_claims(layers, i);
    if super::layers::claim_at(layers, i) is Some {
        let k = choose|k: int|
            #[trigger] super::layers::claims(layers, k, i) && super::layers::claim_at(layers, i)
                == Some(layers[k].id);
        let owned = owned_cells(layers, layers[k].id, (fw * fh) as nat);
        assert(marks(owned, fw as int, x, y));
        assert(exports(layers, layers[k], fw, fh));
        let p = lemma_part_of_layer(
            layers,
            fw,
            fh,
            size,
            layers.len() as int,
            plans,
            k,
        );
        part_keeps_what_its_layer_owns(layers, layers[k], fw, fh, size, plans[p], x, y);
        assert(part_keeps(plans[p], x, y));
    }
}

/// Every part is of a visible layer that claims a cell, and has its name; layers have their parts in order.
pub proof fn parts_are_of_visible_layers(
    layers: Seq<Layer>,
    fw: u32,
    fh: u32,
    size: u16,
    n: int,
    plans: Seq<PartPlan>,
    p: int,
) -> (k: int)
    requires
        are_parts(layers, fw, fh, size, n, plans),
        0 <= p < plans.len(),
        n <= layers.len(),
    ensures
        0 <= k < n,
        layers[k].visible,
        plans[p].layer_name@ == layers[k].name@,
        is_part(layers, layers[k], fw, fh, size, plans[p]),
        exists|x: int, y: int|
            0 <= x < fw && 0 <= y < fh && super::layers::claim_at(layers, #[trigger] (y * fw + x))
                == Some(layers[k].id),
    decreases n,
{
    if exports(layers, layers[n - 1], fw, fh) {
        if p == plans.len() - 1 {
            let owned = owned_cells(layers, layers[n - 1].id, (fw * fh) as nat);
            let (x, y) = choose|x: int, y: int|
                0 <= x < fw && 0 <= y < fh && #[trigger] marks(owned, fw as int, x, y);
            crate::map::lemma_cell_index(x, y, fw as int, fh as int);
            assert(super::layers::claim_at(layers, y * fw + x) == Some(layers[n - 1].id));
            n - 1
        } else {
            parts_are_of_visible_layers(layers, fw, fh, size, n - 1, plans.drop_last(), p)
        }
    } else {
        parts_are_of_visible_layers(layers, fw, fh, size, n - 1, plans, p)
    }
}

} // verus!
