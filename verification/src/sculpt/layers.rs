//! Export layers: selections of the field that export as separate saves.
//!
//! A [`LayerStack`] is an ordered set of selections. The claim pass turns overlapping selections
//! into a strict partition in which the top layer wins.
use crate::text::decimal;
use vstd::prelude::*;
use vstd::string::StringExecFns;

verus! {

/// A stable per-layer identity that survives reordering and renaming.
#[derive(Clone, Copy, PartialEq, Eq, Debug, Hash, Structural)]
pub struct LayerId(pub u32);

/// Eight visually distinct layer-identity colors. A layer color marks a region on the canvas; it
/// never colors exported bricks. New layers cycle through these.
pub const LAYER_COLORS: [[u8; 4]; 8] = [
    [0xE6, 0x6E, 0x52, 0xFF],
    [0x4F, 0xB0, 0xE6, 0xFF],
    [0x7E, 0xD3, 0x6B, 0xFF],
    [0xE6, 0xB7, 0x4F, 0xFF],
    [0xB8, 0x7C, 0xE6, 0xFF],
    [0xE6, 0x6F, 0xB0, 0xFF],
    [0x52, 0xD6, 0xC0, 0xFF],
    [0xC9, 0xCF, 0x5A, 0xFF],
];

/// One export layer: a per-cell selection plus its identity. The selection is stored as cells, not
/// box indices, so changing the grid divisions never loses a pick.
pub struct Layer {
    pub id: LayerId,
    pub name: String,
    pub color: [u8; 4],
    /// Hidden layers are excluded from export and from the claim pass.
    pub visible: bool,
    /// Row-major per-cell selection.
    pub box_mask: Vec<bool>,
}

impl Layer {
    /// Whether the layer wants the cell with this row-major index.
    pub open spec fn selects(self, i: int) -> bool {
        0 <= i < self.box_mask@.len() && self.box_mask@[i]
    }
}

/// The ordered layer set. Index `0` is the bottom layer; the last element is the top (highest
/// precedence in the claim pass). Always holds at least one layer.
pub struct LayerStack {
    pub layers: Vec<Layer>,
    pub active: usize,
    /// Box-grid divisions `(cols, rows)`, a picking aid; the selection itself is per cell.
    pub grid_div: (u32, u32),
    /// The id that the next added layer gets.
    pub next_id: u32,
}

/// A layer without selected cells.
pub open spec fn is_empty_layer(layer: Layer, id: u32, name: Seq<char>, cells: int) -> bool {
    &&& layer.id == LayerId(id)
    &&& layer.name@ == name
    &&& layer.color == LAYER_COLORS[id as int % 8]
    &&& layer.visible
    &&& layer.box_mask@ == Seq::new(cells as nat, |i: int| false)
}

/// No two layers share an id.
pub open spec fn distinct_ids(layers: Seq<Layer>) -> bool {
    forall|i: int, j: int|
        0 <= i < j < layers.len() ==> #[trigger] layers[i].id != #[trigger] layers[j].id
}

/// Number of boxes along an axis; zero counts as one.
pub open spec fn divisions(n: u32) -> int {
    if n == 0 {
        1
    } else {
        n as int
    }
}

/// First cell of box `i` when `extent` cells are divided into `count` boxes.
pub open spec fn box_edge(i: int, extent: int, count: int) -> int {
    i * extent / count
}

/// The half-open cell range `(x0, y0, x1, y1)` of box `(bi, bj)`.
pub open spec fn box_range(div: (u32, u32), fw: int, fh: int, bi: int, bj: int) -> (
    int,
    int,
    int,
    int,
) {
    (
        box_edge(bi, fw, divisions(div.0)),
        box_edge(bj, fh, divisions(div.1)),
        box_edge(bi + 1, fw, divisions(div.0)),
        box_edge(bj + 1, fh, divisions(div.1)),
    )
}

/// Whether a row-major index is that of a cell in the range.
pub open spec fn in_range(range: (int, int, int, int), fw: int, i: int) -> bool {
    exists|x: int, y: int|
        range.0 <= x < range.2 && range.1 <= y < range.3 && #[trigger] (y * fw + x) == i
}

/// The box arithmetic stays inside the machine integers.
pub open spec fn box_fits(fw: int, fh: int, bi: int, bj: int) -> bool {
    (bi + 1) * fw <= u32::MAX && (bj + 1) * fh <= u32::MAX
}

/// The layer that owns a cell: the highest visible one that selects it.
pub open spec fn claim_at(layers: Seq<Layer>, i: int) -> Option<LayerId>
    decreases layers.len(),
{
    if layers.len() == 0 {
        None
    } else if layers.last().visible && layers.last().selects(i) {
        Some(layers.last().id)
    } else {
        claim_at(layers.drop_last(), i)
    }
}

fn at_least_one(n: u32) -> (m: u32)
    ensures
        m == divisions(n),
{
    if n == 0 {
        1
    } else {
        n
    }
}

fn clear_mask(fw: u32, fh: u32) -> (mask: Vec<bool>)
    requires
        fw * fh <= usize::MAX,
    ensures
        mask@ == Seq::new((fw * fh) as nat, |i: int| false),
{
    assert(0 <= fw * fh) by (nonlinear_arith);
    let mask: Vec<bool> = vec![false; fw as usize * fh as usize];
    assert(mask@ =~= Seq::new((fw * fh) as nat, |i: int| false));
    mask
}

proof fn lemma_box_edges(i: int, extent: int, count: int)
    requires
        0 <= i,
        0 <= extent,
        0 < count,
    ensures
        0 <= box_edge(i, extent, count) <= box_edge(i + 1, extent, count),
        i < count ==> box_edge(i + 1, extent, count) <= extent,
        0 <= i * extent <= (i + 1) * extent,
{
    assert(0 <= i * extent <= (i + 1) * extent) by (nonlinear_arith)
        requires
            0 <= i,
            0 <= extent,
    ;
    vstd::arithmetic::div_mod::lemma_div_is_ordered(i * extent, (i + 1) * extent, count);
    vstd::arithmetic::div_mod::lemma_div_pos_is_pos(i * extent, count);
    if i < count {
        assert((i + 1) * extent <= count * extent) by (nonlinear_arith)
            requires
                i + 1 <= count,
                0 <= extent,
        ;
        vstd::arithmetic::div_mod::lemma_div_is_ordered((i + 1) * extent, count * extent, count);
        vstd::arithmetic::div_mod::lemma_div_multiples_vanish(extent, count);
    }
}

impl LayerStack {
    /// There is a layer, the active one exists, and no two layers share an id, now or once more
    /// layers are added.
    pub open spec fn wf(&self) -> bool {
        &&& self.active < self.layers@.len()
        &&& forall|i: int|
            0 <= i < self.layers@.len() ==> (#[trigger] self.layers@[i]).id.0 < self.next_id
        &&& distinct_ids(self.layers@)
    }

    /// Index of the active layer, kept inside the list.
    pub open spec fn active_index(&self) -> int {
        if self.active < self.layers@.len() {
            self.active as int
        } else {
            self.layers@.len() - 1
        }
    }

    /// One empty "Base" layer over this many cells, and an 8×6 box grid.
    pub open spec fn is_fresh(&self, cells: int) -> bool {
        &&& self.layers@.len() == 1
        &&& is_empty_layer(self.layers@[0], 0, "Base"@, cells)
        &&& self.active == 0
        &&& self.grid_div == (8u32, 6u32)
        &&& self.next_id == 1
    }

    /// A fresh stack over an `fw × fh` field: one empty "Base" layer, an 8×6 box grid.
    pub fn new(fw: u32, fh: u32) -> (stack: Self)
        requires
            fw * fh <= usize::MAX,
        ensures
            stack.wf(),
            stack.is_fresh(fw * fh),
    {
        let base: Layer = Layer {
            id: LayerId(0),
            name: "Base".to_owned(),
            color: LAYER_COLORS[0],
            visible: true,
            box_mask: clear_mask(fw, fh),
        };
        let mut layers: Vec<Layer> = Vec::new();
        layers.push(base);
        LayerStack { layers, active: 0, grid_div: (8, 6), next_id: 1 }
    }

    fn fresh_id(&mut self) -> (id: LayerId)
        requires
            old(self).next_id < u32::MAX,
        ensures
            id == LayerId(old(self).next_id),
            final(self).next_id == old(self).next_id + 1,
            final(self).layers == old(self).layers,
            final(self).active == old(self).active,
            final(self).grid_div == old(self).grid_div,
    {
        let id: LayerId = LayerId(self.next_id);
        self.next_id = self.next_id + 1;
        id
    }

    /// Add a new empty layer above the active one and make it active. Its color
    /// cycles through [`LAYER_COLORS`]; its name is `"Layer N"`.
    pub fn add_layer(&mut self, fw: u32, fh: u32)
        requires
            fw * fh <= usize::MAX,
            old(self).next_id < u32::MAX,
            old(self).active < usize::MAX,
        ensures
            final(self).active == if old(self).active + 1 < old(self).layers@.len() {
                old(self).active + 1
            } else {
                old(self).layers@.len() as int
            },
            final(self).layers@ == old(self).layers@.insert(
                final(self).active as int,
                final(self).layers@[final(self).active as int],
            ),
            is_empty_layer(
                final(self).layers@[final(self).active as int],
                old(self).next_id,
                "Layer "@ + crate::text::decimal_chars(old(self).next_id as nat),
                fw * fh,
            ),
            final(self).grid_div == old(self).grid_div,
            final(self).next_id == old(self).next_id + 1,
            old(self).wf() ==> final(self).wf(),
    {
        let ghost was: Seq<Layer> = self.layers@;
        let id: LayerId = self.fresh_id();
        let color: [u8; 4] = LAYER_COLORS[id.0 as usize % 8];
        let mut name: String = "Layer ".to_owned();
        name.append(decimal(id.0 as u64).as_str());
        let layer: Layer = Layer { id, name, color, visible: true, box_mask: clear_mask(fw, fh) };
        let at: usize = if self.active + 1 < self.layers.len() {
            self.active + 1
        } else {
            self.layers.len()
        };
        self.layers.insert(at, layer);
        self.active = at;
        proof {
            if old(self).wf() {
                let now = self.layers@;
                assert forall|i: int| 0 <= i < now.len() implies (
                #[trigger] now[i]).id.0 < self.next_id by {
                    if i != at {
                        let from = if i < at {
                            i
                        } else {
                            i - 1
                        };
                        assert(now[i] == was[from]);
                    }
                }
                assert forall|i: int, j: int| 0 <= i < j < now.len() implies #[trigger] now[i].id
                    != #[trigger] now[j].id by {
                    if i != at {
                        let a = if i < at {
                            i
                        } else {
                            i - 1
                        };
                        assert(now[i] == was[a]);
                    }
                    if j != at {
                        let b = if j < at {
                            j
                        } else {
                            j - 1
                        };
                        assert(now[j] == was[b]);
                    }
                }
            }
        }
    }

    /// Make the layer at `index` the active one.
    pub fn select_layer(&mut self, index: usize)
        requires
            index < old(self).layers@.len(),
        ensures
            *final(self) == (LayerStack { active: index, ..*old(self) }),
            old(self).wf() ==> final(self).wf(),
    {
        self.active = index;
    }

    /// Divide the field into `cols × rows` boxes for picking. Selections stay as they are.
    pub fn set_grid(&mut self, cols: u32, rows: u32)
        ensures
            *final(self) == (LayerStack { grid_div: (cols, rows), ..*old(self) }),
            old(self).wf() ==> final(self).wf(),
    {
        self.grid_div = (cols, rows);
    }

    pub fn active_layer_mut(&mut self) -> (layer: &mut Layer)
        requires
            old(self).layers@.len() > 0,
        ensures
            *layer == old(self).layers@[old(self).active_index()],
            final(self).layers@ == old(self).layers@.update(
                old(self).active_index(),
                *final(layer),
            ),
            final(self).active == old(self).active,
            final(self).grid_div == old(self).grid_div,
            final(self).next_id == old(self).next_id,
    {
        let i: usize = if self.active < self.layers.len() {
            self.active
        } else {
            self.layers.len() - 1
        };
        &mut self.layers[i]
    }

    /// The half-open cell range `[x0,x1) × [y0,y1)` covered by box `(bi, bj)` of
    /// the current `grid_div` over an `fw × fh` field.
    pub fn box_cell_range(&self, fw: u32, fh: u32, bi: u32, bj: u32) -> (range: (
        u32,
        u32,
        u32,
        u32,
    ))
        requires
            box_fits(fw as int, fh as int, bi as int, bj as int),
            bi < u32::MAX,
            bj < u32::MAX,
        ensures
            (range.0 as int, range.1 as int, range.2 as int, range.3 as int) == box_range(
                self.grid_div,
                fw as int,
                fh as int,
                bi as int,
                bj as int,
            ),
            range.0 <= range.2,
            range.1 <= range.3,
    {
        let cols: u32 = at_least_one(self.grid_div.0);
        let rows: u32 = at_least_one(self.grid_div.1);
        proof {
            lemma_box_edges(bi as int, fw as int, cols as int);
            lemma_box_edges(bj as int, fh as int, rows as int);
        }
        let x0: u32 = bi * fw / cols;
        let x1: u32 = (bi + 1) * fw / cols;
        let y0: u32 = bj * fh / rows;
        let y1: u32 = (bj + 1) * fh / rows;
        (x0, y0, x1, y1)
    }

    /// Whether the active layer fully owns box `(bi, bj)` (every cell set). Used
    /// to toggle a box on the canvas: full → clear it, otherwise → set it.
    pub fn box_full_in_active(&self, fw: u32, fh: u32, bi: u32, bj: u32) -> (full: bool)
        requires
            self.layers@.len() > 0,
            box_fits(fw as int, fh as int, bi as int, bj as int),
            bi < u32::MAX,
            bj < u32::MAX,
        ensures
            full == owns_range(
                self.layers@[self.active_index()],
                box_range(self.grid_div, fw as int, fh as int, bi as int, bj as int),
                fw as int,
            ),
    {
        let (x0, y0, x1, y1) = self.box_cell_range(fw, fh, bi, bj);
        if x0 >= x1 || y0 >= y1 {
            return false;
        }
        let i: usize = if self.active < self.layers.len() {
            self.active
        } else {
            self.layers.len() - 1
        };
        let mask: &Vec<bool> = &self.layers[i].box_mask;
        let mut y: u32 = y0;
        while y < y1
            invariant
                y0 <= y <= y1,
                y0 < y1,
                x0 < x1,
                (x0 as int, y0 as int, x1 as int, y1 as int) == box_range(
                    self.grid_div,
                    fw as int,
                    fh as int,
                    bi as int,
                    bj as int,
                ),
                i == self.active_index(),
                i < self.layers@.len(),
                mask@ == self.layers@[i as int].box_mask@,
                forall|a: int, b: int|
                    x0 <= a < x1 && y0 <= b < y ==> self.layers@[i as int].selects(
                        #[trigger] (b * fw + a),
                    ),
            decreases y1 - y,
        {
            let mut x: u32 = x0;
            while x < x1
                invariant
                    y0 <= y < y1,
                    x0 <= x <= x1,
                    (x0 as int, y0 as int, x1 as int, y1 as int) == box_range(
                        self.grid_div,
                        fw as int,
                        fh as int,
                        bi as int,
                        bj as int,
                    ),
                    i == self.active_index(),
                    i < self.layers@.len(),
                    mask@ == self.layers@[i as int].box_mask@,
                    forall|a: int, b: int|
                        x0 <= a < x1 && y0 <= b < y ==> self.layers@[i as int].selects(
                            #[trigger] (b * fw + a),
                        ),
                    forall|a: int|
                        x0 <= a < x ==> self.layers@[i as int].selects(#[trigger] (y * fw + a)),
                decreases x1 - x,
            {
                let idx: u64 = cell_index(x, y, fw);
                if idx >= mask.len() as u64 || !mask[idx as usize] {
                    assert(!self.layers@[i as int].selects(y * fw + x));
                    return false;
                }
                x = x + 1;
            }
            y = y + 1;
        }
        true
    }

    /// Set (or clear) every cell under box `(bi, bj)` in the active layer.
    pub fn paint_box(&mut self, fw: u32, fh: u32, bi: u32, bj: u32, on: bool)
        requires
            old(self).layers@.len() > 0,
            box_fits(fw as int, fh as int, bi as int, bj as int),
            bi < u32::MAX,
            bj < u32::MAX,
        ensures
            final(self).layers@ == old(self).layers@.update(
                old(self).active_index(),
                final(self).layers@[old(self).active_index()],
            ),
            is_repainted(
                old(self).layers@[old(self).active_index()],
                final(self).layers@[old(self).active_index()],
                box_range(old(self).grid_div, fw as int, fh as int, bi as int, bj as int),
                fw as int,
                on,
            ),
            final(self).active == old(self).active,
            final(self).grid_div == old(self).grid_div,
            final(self).next_id == old(self).next_id,
            old(self).wf() ==> final(self).wf(),
    {
        let (x0, y0, x1, y1) = self.box_cell_range(fw, fh, bi, bj);
        let layer: &mut Layer = self.active_layer_mut();
        paint_range(&mut layer.box_mask, (x0, y0, x1, y1), fw, on);
    }

    /// The box of the grid that a click on cell `(cx, cy)` picks.
    pub open spec fn picked_box(&self, cx: u32, cy: u32, fw: u32, fh: u32) -> (int, int) {
        (cx * divisions(self.grid_div.0) / fw as int, cy * divisions(self.grid_div.1) / fh as int)
    }

    /// A click on cell `(cx, cy)` toggles the box that it picks into or out of the active layer: a
    /// fully owned box clears, any other is added. Nothing happens outside the field.
    pub fn toggle_box_at(&mut self, cx: u32, cy: u32, fw: u32, fh: u32)
        requires
            old(self).layers@.len() > 0,
            fw * divisions(old(self).grid_div.0) <= u32::MAX,
            fh * divisions(old(self).grid_div.1) <= u32::MAX,
        ensures
            cx >= fw || cy >= fh ==> *final(self) == *old(self),
            cx < fw && cy < fh ==> {
                let (bi, bj) = old(self).picked_box(cx, cy, fw, fh);
                let range = box_range(old(self).grid_div, fw as int, fh as int, bi, bj);
                let was = old(self).layers@[old(self).active_index()];
                let now = final(self).layers@[old(self).active_index()];
                &&& 0 <= bi < divisions(old(self).grid_div.0)
                &&& 0 <= bj < divisions(old(self).grid_div.1)
                &&& is_repainted(was, now, range, fw as int, !owns_range(was, range, fw as int))
                &&& final(self).layers@ == old(self).layers@.update(old(self).active_index(), now)
                &&& final(self).active == old(self).active
                &&& final(self).grid_div == old(self).grid_div
                &&& final(self).next_id == old(self).next_id
            },
            old(self).wf() ==> final(self).wf(),
    {
        if cx >= fw || cy >= fh {
            return;
        }
        let cols: u32 = at_least_one(self.grid_div.0);
        let rows: u32 = at_least_one(self.grid_div.1);
        proof {
            lemma_picked(cx as int, cols as int, fw as int);
            lemma_picked(cy as int, rows as int, fh as int);
        }
        let bi: u32 = cx * cols / fw;
        let bj: u32 = cy * rows / fh;
        proof {
            lemma_last_box(bi as int, cols as int, fw as int);
            lemma_last_box(bj as int, rows as int, fh as int);
        }
        let on: bool = !self.box_full_in_active(fw, fh, bi, bj);
        self.paint_box(fw, fh, bi, bj, on);
    }

    /// The z-order claim pass: resolve overlapping selections to a strict
    /// partition. Each cell is claimed by the highest visible layer that selects
    /// it (top = last in `layers`). Returns a per-cell owner map (`len = fw*fh`).
    pub fn claim(&self, fw: u32, fh: u32) -> (claimed: Vec<Option<LayerId>>)
        requires
            fw * fh <= usize::MAX,
        ensures
            claimed@ == Seq::new((fw * fh) as nat, |i: int| claim_at(self.layers@, i)),
    {
        assert(0 <= fw * fh) by (nonlinear_arith);
        let cells: usize = fw as usize * fh as usize;
        let mut claimed: Vec<Option<LayerId>> = Vec::new();
        let mut i: usize = 0;
        while i < cells
            invariant
                i <= cells,
                cells == fw * fh,
                claimed@ == Seq::new(i as nat, |k: int| claim_at(self.layers@, k)),
            decreases cells - i,
        {
            let mut owner: Option<LayerId> = None;
            let mut k: usize = self.layers.len();
            assert(self.layers@.take(k as int) =~= self.layers@);
            while owner.is_none() && k > 0
                invariant
                    k <= self.layers@.len(),
                    owner is None ==> claim_at(self.layers@, i as int) == claim_at(
                        self.layers@.take(k as int),
                        i as int,
                    ),
                    owner is Some ==> claim_at(self.layers@, i as int) == owner,
                decreases k,
            {
                let layer: &Layer = &self.layers[k - 1];
                assert(self.layers@.take(k as int).drop_last() =~= self.layers@.take(k - 1));
                if layer.visible && i < layer.box_mask.len() && layer.box_mask[i] {
                    owner = Some(layer.id);
                }
                k = k - 1;
            }
            claimed.push(owner);
            i = i + 1;
            assert(claimed@ =~= Seq::new(i as nat, |k: int| claim_at(self.layers@, k)));
        }
        claimed
    }
}

/// The layer differs only in the cells of the range, which are all set to `on`.
pub open spec fn is_repainted(
    was: Layer,
    now: Layer,
    range: (int, int, int, int),
    fw: int,
    on: bool,
) -> bool {
    &&& now.id == was.id
    &&& now.name == was.name
    &&& now.color == was.color
    &&& now.visible == was.visible
    &&& now.box_mask@ == repainted_mask(was.box_mask@, range, fw, on)
}

/// The selection with every cell of the range set to `on`.
pub open spec fn repainted_mask(
    mask: Seq<bool>,
    range: (int, int, int, int),
    fw: int,
    on: bool,
) -> Seq<bool> {
    Seq::new(
        mask.len(),
        |i: int|
            if in_range(range, fw, i) {
                on
            } else {
                mask[i]
            },
    )
}

/// The layer selects every cell of the range, which is not empty.
pub open spec fn owns_range(layer: Layer, range: (int, int, int, int), fw: int) -> bool {
    &&& range.0 < range.2
    &&& range.1 < range.3
    &&& forall|x: int, y: int|
        range.0 <= x < range.2 && range.1 <= y < range.3 ==> layer.selects(
            #[trigger] (y * fw + x),
        )
}

proof fn lemma_picked(c: int, count: int, extent: int)
    requires
        0 <= c < extent,
        0 < count,
    ensures
        0 <= c * count <= extent * count,
        0 <= c * count / extent < count,
{
    assert(0 <= c * count < extent * count) by (nonlinear_arith)
        requires
            0 <= c < extent,
            0 < count,
    ;
    vstd::arithmetic::div_mod::lemma_div_pos_is_pos(c * count, extent);
    vstd::arithmetic::mul::lemma_mul_is_commutative(extent, count);
    vstd::arithmetic::div_mod::lemma_multiply_divide_lt(c * count, extent, count);
}

proof fn lemma_last_box(i: int, count: int, extent: int)
    requires
        0 <= i < count,
        0 <= extent,
    ensures
        (i + 1) * extent <= extent * count,
{
    assert((i + 1) * extent <= extent * count) by (nonlinear_arith)
        requires
            0 <= i < count,
            0 <= extent,
    ;
}

proof fn lemma_row_bound(y: int, end: int, fw: int)
    requires
        0 <= y < end,
        0 <= fw,
    ensures
        0 <= y * fw <= end * fw,
        y * fw + fw <= end * fw,
{
    assert(0 <= y * fw && y * fw + fw <= end * fw) by (nonlinear_arith)
        requires
            0 <= y < end,
            0 <= fw,
    ;
}

/// Row-major index of a cell.
fn cell_index(x: u32, y: u32, fw: u32) -> (i: u64)
    ensures
        i == y * fw + x,
{
    assert(0 <= y * fw <= 0xFFFF_FFFF * 0xFFFF_FFFF) by (nonlinear_arith)
        requires
            0 <= y <= 0xFFFF_FFFF,
            0 <= fw <= 0xFFFF_FFFF,
    ;
    y as u64 * fw as u64 + x as u64
}

fn paint_range(mask: &mut Vec<bool>, range: (u32, u32, u32, u32), fw: u32, on: bool)
    requires
        range.0 <= range.2,
        range.1 <= range.3,
    ensures
        final(mask)@ == repainted_mask(
            old(mask)@,
            (range.0 as int, range.1 as int, range.2 as int, range.3 as int),
            fw as int,
            on,
        ),
{
    let (x0, y0, x1, y1) = range;
    let ghost was: Seq<bool> = mask@;
    let mut y: u32 = y0;
    while y < y1
        invariant
            y0 <= y <= y1,
            x0 <= x1,
            mask@.len() == was.len(),
            forall|i: int|
                0 <= i < was.len() ==> #[trigger] mask@[i] == if in_range(
                    (x0 as int, y0 as int, x1 as int, y as int),
                    fw as int,
                    i,
                ) {
                    on
                } else {
                    was[i]
                },
        decreases y1 - y,
    {
        let mut x: u32 = x0;
        while x < x1
            invariant
                y0 <= y < y1,
                x0 <= x <= x1,
                mask@.len() == was.len(),
                forall|i: int|
                    0 <= i < was.len() ==> #[trigger] mask@[i] == if in_range(
                        (x0 as int, y0 as int, x1 as int, y as int),
                        fw as int,
                        i,
                    ) || in_range(
                        (x0 as int, y as int, x as int, y + 1),
                        fw as int,
                        i,
                    ) {
                        on
                    } else {
                        was[i]
                    },
            decreases x1 - x,
        {
            let idx: u64 = cell_index(x, y, fw);
            if idx < mask.len() as u64 {
                mask[idx as usize] = on;
            }
            proof {
                assert forall|i: int|
                    #[trigger] in_range((x0 as int, y as int, x + 1, y + 1), fw as int, i) <==> (in_range(
                        (x0 as int, y as int, x as int, y + 1),
                        fw as int,
                        i,
                    ) || i == y * fw + x) by {
                    if in_range((x0 as int, y as int, x as int, y + 1), fw as int, i) {
                        let (a, b) = choose|a: int, b: int|
                            x0 <= a < x && y <= b < y + 1 && #[trigger] (b * fw + a) == i;
                        assert(b * fw + a == i);
                    }
                    assert(y * fw + x == y * fw + x);
                }
            }
            x = x + 1;
        }
        proof {
            assert forall|i: int|
                #[trigger] in_range((x0 as int, y0 as int, x1 as int, y + 1), fw as int, i) <==> (in_range(
                    (x0 as int, y0 as int, x1 as int, y as int),
                    fw as int,
                    i,
                ) || in_range((x0 as int, y as int, x1 as int, y + 1), fw as int, i)) by {
                if in_range((x0 as int, y0 as int, x1 as int, y as int), fw as int, i) {
                    let (a, b) = choose|a: int, b: int|
                        x0 <= a < x1 && y0 <= b < y && #[trigger] (b * fw + a) == i;
                    assert(b * fw + a == i);
                }
                if in_range((x0 as int, y as int, x1 as int, y + 1), fw as int, i) {
                    let (a, b) = choose|a: int, b: int|
                        x0 <= a < x1 && y <= b < y + 1 && #[trigger] (b * fw + a) == i;
                    assert(b * fw + a == i);
                }
            }
        }
        y = y + 1;
    }
    assert(mask@ =~= repainted_mask(
        was,
        (x0 as int, y0 as int, x1 as int, y1 as int),
        fw as int,
        on,
    ));
}

/// Box `(bi, bj)` of the grid holds the cell `(x, y)`.
pub open spec fn box_holds(
    div: (u32, u32),
    fw: int,
    fh: int,
    bi: int,
    bj: int,
    x: int,
    y: int,
) -> bool {
    let (x0, y0, x1, y1) = box_range(div, fw, fh, bi, bj);
    x0 <= x < x1 && y0 <= y < y1
}

/// Some box of the grid holds the cell.
pub open spec fn is_boxed(div: (u32, u32), fw: int, fh: int, x: int, y: int) -> bool {
    exists|bi: int, bj: int|
        0 <= bi < divisions(div.0) && 0 <= bj < divisions(div.1) && #[trigger] box_holds(
            div,
            fw,
            fh,
            bi,
            bj,
            x,
            y,
        )
}

proof fn lemma_box_edges_ordered(i: int, j: int, extent: int, count: int)
    requires
        0 <= i <= j,
        0 <= extent,
        0 < count,
    ensures
        box_edge(i, extent, count) <= box_edge(j, extent, count),
    decreases j - i,
{
    if i < j {
        lemma_box_edges_ordered(i, j - 1, extent, count);
        lemma_box_edges(j - 1, extent, count);
    }
}

/// The box along one axis that holds cell `x`, searched among boxes `from..count`.
proof fn lemma_axis_box(from: int, x: int, extent: int, count: int) -> (found: int)
    requires
        0 <= from < count,
        0 <= x < extent,
        box_edge(from, extent, count) <= x,
    ensures
        0 <= found < count,
        box_edge(found, extent, count) <= x < box_edge(found + 1, extent, count),
    decreases count - from,
{
    if x < box_edge(from + 1, extent, count) {
        from
    } else if from + 1 < count {
        lemma_axis_box(from + 1, x, extent, count)
    } else {
        vstd::arithmetic::div_mod::lemma_div_multiples_vanish(extent, count);
        from
    }
}

/// The boxes of a grid partition the field: every cell lies in a box of the grid, no two boxes
/// share a cell, and no box reaches past the field.
pub proof fn boxes_partition_the_field(div: (u32, u32), fw: int, fh: int)
    requires
        0 <= fw,
        0 <= fh,
    ensures
        forall|x: int, y: int|
            0 <= x < fw && 0 <= y < fh ==> #[trigger] is_boxed(div, fw, fh, x, y),
        forall|bi: int, bj: int, ci: int, cj: int, x: int, y: int|
            0 <= bi && 0 <= bj && 0 <= ci && 0 <= cj && #[trigger] box_holds(
                div,
                fw,
                fh,
                bi,
                bj,
                x,
                y,
            ) && #[trigger] box_holds(div, fw, fh, ci, cj, x, y) ==> bi == ci && bj == cj,
        forall|bi: int, bj: int, x: int, y: int|
            0 <= bi < divisions(div.0) && 0 <= bj < divisions(div.1) && #[trigger] box_holds(
                div,
                fw,
                fh,
                bi,
                bj,
                x,
                y,
            ) ==> 0 <= x < fw && 0 <= y < fh,
{
    let cols = divisions(div.0);
    let rows = divisions(div.1);
    assert forall|x: int, y: int| 0 <= x < fw && 0 <= y < fh implies #[trigger] is_boxed(
        div,
        fw,
        fh,
        x,
        y,
    ) by {
        assert(box_edge(0, fw, cols) == 0 && box_edge(0, fh, rows) == 0) by {
            vstd::arithmetic::div_mod::lemma_div_of0(cols);
            vstd::arithmetic::div_mod::lemma_div_of0(rows);
        }
        let bi = lemma_axis_box(0, x, fw, cols);
        let bj = lemma_axis_box(0, y, fh, rows);
        assert(box_holds(div, fw, fh, bi, bj, x, y));
    }
    assert forall|bi: int, bj: int, ci: int, cj: int, x: int, y: int|
        0 <= bi && 0 <= bj && 0 <= ci && 0 <= cj && #[trigger] box_holds(
            div,
            fw,
            fh,
            bi,
            bj,
            x,
            y,
        ) && #[trigger] box_holds(div, fw, fh, ci, cj, x, y) implies bi == ci && bj == cj by {
        if bi < ci {
            lemma_box_edges_ordered(bi + 1, ci, fw, cols);
        } else if ci < bi {
            lemma_box_edges_ordered(ci + 1, bi, fw, cols);
        }
        if bj < cj {
            lemma_box_edges_ordered(bj + 1, cj, fh, rows);
        } else if cj < bj {
            lemma_box_edges_ordered(cj + 1, bj, fh, rows);
        }
    }
    assert forall|bi: int, bj: int, x: int, y: int|
        0 <= bi < cols && 0 <= bj < rows && #[trigger] box_holds(
            div,
            fw,
            fh,
            bi,
            bj,
            x,
            y,
        ) implies 0 <= x < fw && 0 <= y < fh by {
        lemma_box_edges(bi, fw, cols);
        lemma_box_edges(bj, fh, rows);
    }
}

/// Painting a box of the grid selects exactly its own cells: a cell of the field ends up as asked
/// when the box holds it, and as it was when it does not.
pub proof fn painting_a_box_changes_only_its_cells(
    was: Layer,
    now: Layer,
    div: (u32, u32),
    fw: int,
    fh: int,
    bi: int,
    bj: int,
    on: bool,
    x: int,
    y: int,
)
    requires
        0 <= x < fw,
        0 <= y < fh,
        0 <= bi < divisions(div.0),
        0 <= bj < divisions(div.1),
        was.box_mask@.len() == fw * fh,
        is_repainted(was, now, box_range(div, fw, fh, bi, bj), fw, on),
    ensures
        now.selects(y * fw + x) == if box_holds(div, fw, fh, bi, bj, x, y) {
            on
        } else {
            was.selects(y * fw + x)
        },
{
    let range = box_range(div, fw, fh, bi, bj);
    let i = y * fw + x;
    lemma_row_bound(y, fh, fw);
    vstd::arithmetic::mul::lemma_mul_is_commutative(fh, fw);
    lemma_box_edges(bi, fw, divisions(div.0));
    lemma_box_edges(bj, fh, divisions(div.1));
    if in_range(range, fw, i) {
        let (a, b) = choose|a: int, b: int|
            range.0 <= a < range.2 && range.1 <= b < range.3 && #[trigger] (b * fw + a) == i;
        if b < y {
            lemma_row_bound(b, y, fw);
        } else if y < b {
            lemma_row_bound(y, b, fw);
        }
        assert(a == x && b == y);
    }
}

/// A box that was just painted is full, one that was just cleared is not, and one without cells never
/// is.
pub proof fn painting_decides_whether_a_box_is_full(
    was: Layer,
    now: Layer,
    div: (u32, u32),
    fw: int,
    fh: int,
    bi: int,
    bj: int,
    on: bool,
)
    requires
        0 <= fw,
        0 <= fh,
        0 <= bi < divisions(div.0),
        0 <= bj < divisions(div.1),
        was.box_mask@.len() == fw * fh,
        is_repainted(was, now, box_range(div, fw, fh, bi, bj), fw, on),
    ensures
        owns_range(now, box_range(div, fw, fh, bi, bj), fw) <==> on && exists|x: int, y: int|
            #[trigger] box_holds(div, fw, fh, bi, bj, x, y),
{
    let range = box_range(div, fw, fh, bi, bj);
    lemma_box_edges(bi, fw, divisions(div.0));
    lemma_box_edges(bj, fh, divisions(div.1));
    assert forall|x: int, y: int| #[trigger]
        box_holds(div, fw, fh, bi, bj, x, y) implies now.selects(y * fw + x) == on by {
        painting_a_box_changes_only_its_cells(was, now, div, fw, fh, bi, bj, on, x, y);
    }
    if range.0 < range.2 && range.1 < range.3 {
        assert(box_holds(div, fw, fh, bi, bj, range.0, range.1));
        assert(now.selects(range.1 * fw + range.0) == on);
        assert forall|x: int, y: int|
            range.0 <= x < range.2 && range.1 <= y < range.3 && on implies now.selects(
            #[trigger] (y * fw + x),
        ) by {
            assert(box_holds(div, fw, fh, bi, bj, x, y));
        }
    }
}

/// The claim pass is a strict partition in which the top layer wins: a cell belongs to a layer
/// exactly when that layer is visible, selects it, and no visible layer above selects it; it
/// belongs to nobody exactly when no visible layer selects it.
pub proof fn top_visible_layer_claims(layers: Seq<Layer>, i: int)
    ensures
        claim_at(layers, i) is None <==> forall|j: int|
            0 <= j < layers.len() ==> !(#[trigger] layers[j].visible && layers[j].selects(i)),
        claim_at(layers, i) is Some ==> exists|j: int|
            #[trigger] claims(layers, j, i) && claim_at(layers, i) == Some(layers[j].id),
        forall|j: int, k: int|
            #[trigger] claims(layers, j, i) && #[trigger] claims(layers, k, i) ==> j == k,
    decreases layers.len(),
{
    if layers.len() > 0 {
        let rest = layers.drop_last();
        top_visible_layer_claims(rest, i);
        if layers.last().visible && layers.last().selects(i) {
            assert(claims(layers, layers.len() - 1, i));
        } else {
            if claim_at(rest, i) is Some {
                let j = choose|j: int|
                    #[trigger] claims(rest, j, i) && claim_at(rest, i) == Some(rest[j].id);
                assert(claims(layers, j, i)) by {
                    assert forall|k: int| j < k < layers.len() implies !(
                    #[trigger] layers[k].visible && layers[k].selects(i)) by {
                        if k < rest.len() {
                            assert(rest[k] == layers[k]);
                        }
                    }
                }
                assert(rest[j].visible && rest[j].selects(i));
                assert(layers[j].visible && layers[j].selects(i));
            } else {
                assert forall|j: int| 0 <= j < layers.len() implies !(
                #[trigger] layers[j].visible && layers[j].selects(i)) by {
                    if j < rest.len() {
                        assert(!(rest[j].visible && rest[j].selects(i)));
                    }
                }
            }
        }
    }
}

/// Layer `j` is visible and selects the cell, and no visible layer above it does.
pub open spec fn claims(layers: Seq<Layer>, j: int, i: int) -> bool {
    &&& 0 <= j < layers.len()
    &&& layers[j].visible
    &&& layers[j].selects(i)
    &&& forall|k: int|
        j < k < layers.len() ==> !(#[trigger] layers[k].visible && layers[k].selects(i))
}

/// The boxes of an axis are as even as whole cells allow: no two differ by more than one cell, and box
/// edges stand where equal shares of the axis end, rounded down.
pub proof fn boxes_are_even(i: int, j: int, extent: int, count: int)
    requires
        0 <= i,
        0 <= j,
        0 <= extent,
        0 < count,
    ensures
        box_edge(i, extent, count) * count <= i * extent,
        i * extent < box_edge(i, extent, count) * count + count,
        box_edge(0, extent, count) == 0,
        box_edge(count, extent, count) == extent,
        ({
            let a = box_edge(i + 1, extent, count) - box_edge(i, extent, count);
            let b = box_edge(j + 1, extent, count) - box_edge(j, extent, count);
            -1 <= a - b <= 1
        }),
{
    lemma_edge(i, extent, count);
    lemma_edge(i + 1, extent, count);
    lemma_edge(j, extent, count);
    lemma_edge(j + 1, extent, count);
    vstd::arithmetic::div_mod::lemma_div_multiples_vanish(extent, count);
    vstd::arithmetic::div_mod::lemma_div_of0(count);
    let (p, q) = (box_edge(i, extent, count), box_edge(i + 1, extent, count));
    let (r, s) = (box_edge(j, extent, count), box_edge(j + 1, extent, count));
    assert((i + 1) * extent == i * extent + extent && (j + 1) * extent == j * extent + extent)
        by (nonlinear_arith);
    assert(-1 <= (q - p) - (s - r) <= 1) by (nonlinear_arith)
        requires
            p * count <= i * extent < p * count + count,
            q * count <= i * extent + extent < q * count + count,
            r * count <= j * extent < r * count + count,
            s * count <= j * extent + extent < s * count + count,
            count > 0,
    ;
}

proof fn lemma_edge(i: int, extent: int, count: int)
    requires
        0 < count,
    ensures
        box_edge(i, extent, count) * count <= i * extent < box_edge(i, extent, count) * count + count,
{
    vstd::arithmetic::div_mod::lemma_fundamental_div_mod(i * extent, count);
    vstd::arithmetic::div_mod::lemma_mod_bound(i * extent, count);
    vstd::arithmetic::mul::lemma_mul_is_commutative(count, i * extent / count);
}

/// A click picks the box under it: where the boxes are all equally large the picked box holds the cell.
/// Where they are not, a click on the first cell after a box may pick that box.
pub proof fn clicks_pick_the_box_under_them(
    stack: LayerStack,
    cx: u32,
    cy: u32,
    fw: u32,
    fh: u32,
)
    requires
        cx < fw,
        cy < fh,
    ensures
        ({
            let (bi, bj) = stack.picked_box(cx, cy, fw, fh);
            let (cols, rows) = (divisions(stack.grid_div.0), divisions(stack.grid_div.1));
            let (x0, y0, x1, y1) = box_range(stack.grid_div, fw as int, fh as int, bi, bj);
            &&& 0 <= bi < cols
            &&& 0 <= bj < rows
            &&& x0 <= cx <= x1
            &&& y0 <= cy <= y1
            &&& fw as int % cols == 0 ==> cx < x1
            &&& fh as int % rows == 0 ==> cy < y1
        }),
{
    lemma_click(cx as int, divisions(stack.grid_div.0), fw as int);
    lemma_click(cy as int, divisions(stack.grid_div.1), fh as int);
}

proof fn lemma_click(at: int, count: int, extent: int)
    requires
        0 <= at < extent,
        0 < count,
    ensures
        ({
            let b = at * count / extent;
            &&& 0 <= b < count
            &&& box_edge(b, extent, count) <= at <= box_edge(b + 1, extent, count)
            &&& extent % count == 0 ==> at < box_edge(b + 1, extent, count)
        }),
{
    let b = at * count / extent;
    vstd::arithmetic::div_mod::lemma_fundamental_div_mod(at * count, extent);
    vstd::arithmetic::div_mod::lemma_mod_bound(at * count, extent);
    vstd::arithmetic::mul::lemma_mul_is_commutative(extent, b);
    assert(0 <= at * count < extent * count) by (nonlinear_arith)
        requires
            0 <= at < extent,
            0 < count,
    ;
    assert((b + 1) * extent == b * extent + extent) by (nonlinear_arith);
    assert(0 <= b < count) by (nonlinear_arith)
        requires
            b * extent <= at * count,
            at * count < b * extent + extent,
            0 <= at * count < extent * count,
            0 < extent,
    ;
    lemma_edge(b, extent, count);
    lemma_edge(b + 1, extent, count);
    let (p, q) = (box_edge(b, extent, count), box_edge(b + 1, extent, count));
    assert(p <= at) by (nonlinear_arith)
        requires
            p * count <= b * extent,
            b * extent <= at * count,
            0 < count,
    ;
    assert(at <= q) by (nonlinear_arith)
        requires
            at * count < (b + 1) * extent,
            (b + 1) * extent < q * count + count,
            0 < count,
    ;
    if extent % count == 0 {
        let e = extent / count;
        vstd::arithmetic::div_mod::lemma_fundamental_div_mod(extent, count);
        assert((b + 1) * extent == ((b + 1) * e) * count) by (nonlinear_arith)
            requires
                extent == count * e,
        ;
        vstd::arithmetic::div_mod::lemma_div_multiples_vanish((b + 1) * e, count);
        vstd::arithmetic::mul::lemma_mul_is_commutative((b + 1) * e, count);
        assert(at < q) by (nonlinear_arith)
            requires
                at * count < q * count,
                0 < count,
        ;
    }
}

/// A layer on top claims each cell that it selects, unless it is hidden; it leaves the claims on all other
/// cells as they were.
pub proof fn hidden_layers_claim_nothing(layers: Seq<Layer>, layer: Layer, i: int)
    ensures
        !layer.visible ==> claim_at(layers.push(layer), i) == claim_at(layers, i),
        !layer.selects(i) ==> claim_at(layers.push(layer), i) == claim_at(layers, i),
        layer.visible && layer.selects(i) ==> claim_at(layers.push(layer), i) == Some(layer.id),
{
    assert(layers.push(layer).drop_last() =~= layers);
}

/// A layer owns a box where it selects every cell of it, and the box has one.
pub proof fn owned_boxes_are_selected_whole(
    layer: Layer,
    range: (int, int, int, int),
    fw: int,
)
    ensures
        owns_range(layer, range, fw) ==> range.0 < range.2 && range.1 < range.3 && forall|x: int, y: int|
            range.0 <= x < range.2 && range.1 <= y < range.3 ==> layer.selects(
                #[trigger] (y * fw + x),
            ),
        range.0 < range.2 && range.1 < range.3 && (forall|x: int, y: int|
            range.0 <= x < range.2 && range.1 <= y < range.3 ==> layer.selects(
                #[trigger] (y * fw + x),
            )) ==> owns_range(layer, range, fw),
{
}

} // verus!
