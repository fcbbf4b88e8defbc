//! Splat paint: a grid of palette indices, one per height cell, that becomes brick colors through
//! a [`Colormap`].
//!
//! Index `0` is the unpainted slot. Its palette color is the flat default color, so an unpainted
//! grid colors every brick as a build without paint does.
use crate::map::{Colormap, RgbaImage};
use vstd::prelude::*;

verus! {

/// Brick color of cells that nothing colors.
pub const DEFAULT_BRICK_COLOR: [u8; 4] = [0x80, 0x80, 0x80, 0xFF];

/// Maximum palette swatches: the unpainted slot and up to 15 painted layers. A
/// splatmap import maps the 4 RGBA channels onto slots 1..=4.
pub const MAX_SWATCHES: usize = 16;

/// Number of bands a height-gradient fill produces (palette slots `1..=N`); slot
/// 0 stays the unpainted default.
pub const GRADIENT_BANDS: usize = 8;

/// The palette of a height ramp: the unpainted default, then the ramp's colors, opaque.
pub open spec fn is_gradient_palette(palette: Seq<[u8; 4]>, ramp: Seq<[u8; 3]>) -> bool {
    &&& palette.len() == GRADIENT_BANDS + 1
    &&& palette[0] == DEFAULT_BRICK_COLOR
    &&& forall|i: int|
        0 <= i < GRADIENT_BANDS ==> (#[trigger] palette[i + 1])@ == ramp[i]@.push(0xFF)
}

/// Build a palette from the colors of a height ramp, one per band: slot 0 keeps the unpainted
/// default, the others are the ramp's colors, opaque.
pub fn gradient_palette(ramp: &[[u8; 3]; 8]) -> (palette: Vec<[u8; 4]>)
    ensures
        is_gradient_palette(palette@, ramp@),
{
    let mut palette: Vec<[u8; 4]> = Vec::new();
    palette.push(DEFAULT_BRICK_COLOR);
    let mut i: usize = 0;
    while i < GRADIENT_BANDS
        invariant
            i <= GRADIENT_BANDS,
            palette@.len() == i + 1,
            palette@[0] == DEFAULT_BRICK_COLOR,
            forall|j: int|
                0 <= j < i ==> (#[trigger] palette@[j + 1])@ == ramp@[j]@.push(0xFF),
        decreases GRADIENT_BANDS - i,
    {
        let c: [u8; 3] = ramp[i];
        let swatch: [u8; 4] = [c[0], c[1], c[2], 0xFF];
        assert(swatch@ =~= c@.push(0xFF));
        palette.push(swatch);
        i = i + 1;
    }
    palette
}

/// The colors that a palette starts out with.
pub open spec fn starter_colors() -> Seq<[u8; 4]> {
    seq![
        DEFAULT_BRICK_COLOR,
        [0xC8u8, 0x5Au8, 0x3Cu8, 0xFFu8],
        [0x4Fu8, 0x8Au8, 0x5Bu8, 0xFFu8],
        [0x3Cu8, 0x6Eu8, 0xA8u8, 0xFFu8],
        [0xD9u8, 0xC2u8, 0x7Au8, 0xFFu8],
    ]
}

/// The default palette: slot 0 is the unpainted color, followed by a few distinct starter
/// swatches.
pub fn default_palette() -> (palette: Vec<[u8; 4]>)
    ensures
        palette@ == starter_colors(),
{
    let mut palette: Vec<[u8; 4]> = Vec::new();
    palette.push(DEFAULT_BRICK_COLOR);
    palette.push([0xC8, 0x5A, 0x3C, 0xFF]);
    palette.push([0x4F, 0x8A, 0x5B, 0xFF]);
    palette.push([0x3C, 0x6E, 0xA8, 0xFF]);
    palette.push([0xD9, 0xC2, 0x7A, 0xFF]);
    palette
}

/// Per-cell palette-index grid, parallel to the height field.
pub struct PaintGrid {
    pub width: u32,
    pub height: u32,
    /// Row-major palette indices; `0` = unpainted.
    pub cells: Vec<u8>,
}

/// Side of the square blocks of a splat resolution; zero counts as one.
pub open spec fn block_side(r: u32) -> int {
    if r == 0 {
        1
    } else {
        r as int
    }
}

/// Two cells lie in the same resolution block.
pub open spec fn same_block(r: u32, a: (int, int), b: (int, int)) -> bool {
    a.0 / block_side(r) == b.0 / block_side(r) && a.1 / block_side(r) == b.1 / block_side(r)
}

impl PaintGrid {
    /// Every cell of the grid is there.
    pub open spec fn wf(&self) -> bool {
        self.cells@.len() == self.width * self.height
    }

    /// Palette index of the cell in column `x` and row `y`.
    pub open spec fn cell(&self, x: int, y: int) -> u8 {
        self.cells@[y * self.width + x]
    }

    /// The cell lies in the grid.
    pub open spec fn covers(&self, x: int, y: int) -> bool {
        0 <= x < self.width && 0 <= y < self.height
    }

    /// The grid has the shape of another one.
    pub open spec fn same_shape(&self, other: &PaintGrid) -> bool {
        self.width == other.width && self.height == other.height && self.cells@.len()
            == other.cells@.len()
    }

    /// A blank (all-unpainted) grid of the given dimensions.
    pub fn blank(width: u32, height: u32) -> (grid: Self)
        requires
            width * height <= usize::MAX,
        ensures
            grid.wf(),
            grid.width == width,
            grid.height == height,
            grid.cells@ == Seq::new((width * height) as nat, |i: int| 0u8),
    {
        assert(0 <= width * height) by (nonlinear_arith);
        let cells: Vec<u8> = vec![0u8; width as usize * height as usize];
        assert(cells@ =~= Seq::new((width * height) as nat, |i: int| 0u8));
        PaintGrid { width, height, cells }
    }

    /// True when nothing has been painted: every cell is the unpainted slot.
    pub fn is_blank(&self) -> (blank: bool)
        ensures
            blank == forall|i: int| 0 <= i < self.cells@.len() ==> #[trigger] self.cells@[i] == 0,
    {
        let mut i: usize = 0;
        while i < self.cells.len()
            invariant
                i <= self.cells@.len(),
                forall|j: int| 0 <= j < i ==> #[trigger] self.cells@[j] == 0,
            decreases self.cells@.len() - i,
        {
            if self.cells[i] != 0 {
                return false;
            }
            i = i + 1;
        }
        true
    }

    pub fn at(&self, x: u32, y: u32) -> (idx: u8)
        requires
            y * self.width + x < self.cells@.len(),
        ensures
            idx == self.cell(x as int, y as int),
    {
        proof {
            assert(self.cells.len() <= usize::MAX);
            assert(0 <= y * self.width) by (nonlinear_arith)
                requires
                    self.width >= 0,
            ;
        }
        self.cells[y as usize * self.width as usize + x as usize]
    }

    /// Fill the resolution block of side `r` containing cell `(x, y)` with `idx`,
    /// clamped to the grid edge. `r = 1` sets a single cell; larger `r` paints
    /// blocky R×R splat regions (coarser color = fewer brick color-splits).
    pub fn set_block(&mut self, x: u32, y: u32, r: u32, idx: u8)
        requires
            old(self).wf(),
        ensures
            final(self).wf(),
            final(self).same_shape(old(self)),
            forall|a: int, b: int|
                old(self).covers(a, b) ==> #[trigger] final(self).cell(a, b) == if same_block(
                    r,
                    (x as int, y as int),
                    (a, b),
                ) {
                    idx
                } else {
                    old(self).cell(a, b)
                },
    {
        let side: u32 = if r == 0 {
            1
        } else {
            r
        };
        let (x0, x1) = block_span(x, side, self.width);
        let (y0, y1) = block_span(y, side, self.height);
        let ghost was: PaintGrid = *self;
        let mut yy: u32 = y0;
        while yy < y1
            invariant
                side == block_side(r),
                y0 <= yy <= y1 || y1 <= y0 == yy,
                y1 <= self.height,
                x1 <= self.width,
                was.wf(),
                self.wf(),
                self.same_shape(&was),
                forall|a: int|
                    0 <= a < self.width ==> (x0 <= a < x1 <==> #[trigger] (a / (side as int))
                        == x as int / side as int),
                forall|b: int|
                    0 <= b < self.height ==> (y0 <= b < y1 <==> #[trigger] (b / (side as int))
                        == y as int / side as int),
                forall|a: int, b: int|
                    was.covers(a, b) ==> #[trigger] self.cell(a, b) == if x0 <= a < x1 && y0 <= b
                        < yy {
                        idx
                    } else {
                        was.cell(a, b)
                    },
            decreases y1 - yy,
        {
            let mut xx: u32 = x0;
            while xx < x1
                invariant
                    y0 <= yy < y1,
                    x0 <= xx <= x1 || x1 <= x0 == xx,
                    y1 <= self.height,
                    x1 <= self.width,
                    was.wf(),
                    self.wf(),
                    self.same_shape(&was),
                    forall|a: int, b: int|
                        was.covers(a, b) ==> #[trigger] self.cell(a, b) == if x0 <= a < x1 && y0
                            <= b < yy || x0 <= a < xx && b == yy {
                            idx
                        } else {
                            was.cell(a, b)
                        },
                decreases x1 - xx,
            {
                proof {
                    crate::map::lemma_cell_index(
                        xx as int,
                        yy as int,
                        self.width as int,
                        self.height as int,
                    );
                    assert(self.cells.len() <= usize::MAX);
                }
                let ghost before: PaintGrid = *self;
                let i: usize = yy as usize * self.width as usize + xx as usize;
                self.cells[i] = idx;
                proof {
                    assert forall|a: int, b: int| was.covers(a, b) implies #[trigger] self.cell(
                        a,
                        b,
                    ) == if x0 <= a < x1 && y0 <= b < yy || x0 <= a < xx + 1 && b == yy {
                        idx
                    } else {
                        was.cell(a, b)
                    } by {
                        crate::map::lemma_cell_index(
                            a,
                            b,
                            self.width as int,
                            self.height as int,
                        );
                        assert(before.cell(a, b) == before.cells@[b * self.width + a]);
                        if b * self.width + a == i {
                            crate::map::lemma_cell_index_unique(
                                a,
                                b,
                                xx as int,
                                yy as int,
                                self.width as int,
                            );
                        }
                    }
                }
                xx = xx + 1;
            }
            yy = yy + 1;
        }
        proof {
            assert forall|a: int, b: int| was.covers(a, b) implies #[trigger] self.cell(a, b)
                == if same_block(r, (x as int, y as int), (a, b)) {
                idx
            } else {
                was.cell(a, b)
            } by {
                assert(a / (side as int) == a / (side as int));
                assert(b / (side as int) == b / (side as int));
            }
        }
    }
}

/// The part of a block of side `side` that lies on an axis of `extent` cells, as a half-open
/// range; `at` is a cell of the block.
fn block_span(at: u32, side: u32, extent: u32) -> (span: (u32, u32))
    requires
        side > 0,
    ensures
        span.1 <= extent,
        forall|a: int|
            0 <= a < extent ==> (span.0 <= a < span.1 <==> #[trigger] (a / (side as int)) == at as int
                / side as int),
{
    proof {
        vstd::arithmetic::div_mod::lemma_fundamental_div_mod(at as int, side as int);
        vstd::arithmetic::mul::lemma_mul_is_commutative(side as int, at as int / side as int);
        vstd::arithmetic::div_mod::lemma_mod_bound(at as int, side as int);
    }
    let start: u32 = at / side * side;
    let end: u64 = start as u64 + side as u64;
    let end: u32 = if end < extent as u64 {
        end as u32
    } else {
        extent
    };
    proof {
        let q = at as int / side as int;
        assert forall|a: int| 0 <= a < extent implies (start <= a < end <==> #[trigger] (a / (
        side as int)) == q) by {
            let d = side as int;
            vstd::arithmetic::div_mod::lemma_fundamental_div_mod(a, d);
            vstd::arithmetic::div_mod::lemma_mod_bound(a, d);
            if q * d <= a < q * d + d {
                vstd::arithmetic::div_mod::lemma_fundamental_div_mod_converse(a, d, q, a - q * d);
            }
            if a / d == q {
                vstd::arithmetic::mul::lemma_mul_is_commutative(d, q);
            }
        }
    }
    (start, end)
}

/// Top-left cell of the block that holds a cell, along one axis.
pub open spec fn block_start(at: int, r: u32) -> int {
    at / block_side(r) * block_side(r)
}

/// The grid after every block took the band of its top-left cell.
pub open spec fn is_gradient_fill(
    was: PaintGrid,
    now: PaintGrid,
    bands: Seq<u8>,
    r: u32,
) -> bool {
    &&& now.wf()
    &&& now.same_shape(&was)
    &&& forall|a: int, b: int|
        was.covers(a, b) ==> #[trigger] now.cell(a, b) == bands[block_start(b, r) * was.width
            + block_start(a, r)]
}

impl PaintGrid {
    /// Paint every cell from a height gradient: each R×R block takes the band of its top-left
    /// cell. `bands` holds the band (`1..=GRADIENT_BANDS`) of each cell's height, row-major.
    pub fn fill_from_gradient(&mut self, r: u32, bands: &Vec<u8>)
        requires
            old(self).wf(),
            bands@.len() == old(self).cells@.len(),
        ensures
            is_gradient_fill(*old(self), *final(self), bands@, r),
    {
        let side: u32 = if r == 0 {
            1
        } else {
            r
        };
        let ghost d: int = side as int;
        let ghost mut row: int = 0;
        let mut by: u32 = 0;
        while by < self.height
            invariant
                d == side == block_side(r),
                d > 0,
                row >= 0,
                by <= self.height,
                by == row * d || by == self.height <= row * d,
                self.wf(),
                self.same_shape(old(self)),
                bands@.len() == self.cells@.len(),
                forall|a: int, b: int|
                    self.covers(a, b) && b < by ==> #[trigger] self.cell(a, b)
                        == bands@[block_start(b, r) * self.width + block_start(a, r)],
            decreases self.height - by,
        {
            let ghost mut col: int = 0;
            let mut bx: u32 = 0;
            while bx < self.width
                invariant
                    d == side == block_side(r),
                    d > 0,
                    row >= 0,
                    col >= 0,
                    by < self.height,
                    by == row * d,
                    bx <= self.width,
                    bx == col * d || bx == self.width <= col * d,
                    self.wf(),
                    self.same_shape(old(self)),
                    bands@.len() == self.cells@.len(),
                    forall|a: int, b: int|
                        self.covers(a, b) && (b < by || b < by + d && a < bx)
                            ==> #[trigger] self.cell(a, b) == bands@[block_start(b, r) * self.width
                            + block_start(a, r)],
                decreases self.width - bx,
            {
                proof {
                    crate::map::lemma_cell_index(
                        bx as int,
                        by as int,
                        self.width as int,
                        self.height as int,
                    );
                    assert(bands.len() <= usize::MAX);
                }
                let ghost before: PaintGrid = *self;
                let band: u8 = bands[by as usize * self.width as usize + bx as usize];
                self.set_block(bx, by, r, band);
                proof {
                    assert forall|a: int, b: int|
                        self.covers(a, b) && (b < by || b < by + d && a < bx + d)
                            implies #[trigger] self.cell(a, b) == bands@[block_start(b, r)
                        * self.width + block_start(a, r)] by {
                        assert(before.cell(a, b) == before.cell(a, b));
                        lemma_block(a, d, col);
                        lemma_block(b, d, row);
                        lemma_block(bx as int, d, col);
                        lemma_block(by as int, d, row);
                    }
                    vstd::arithmetic::mul::lemma_mul_is_distributive_add_other_way(d, col, 1);
                    col = col + 1;
                }
                bx = if self.width - bx > side {
                    bx + side
                } else {
                    self.width
                };
            }
            proof {
                vstd::arithmetic::mul::lemma_mul_is_distributive_add_other_way(d, row, 1);
                row = row + 1;
            }
            by = if self.height - by > side {
                by + side
            } else {
                self.height
            };
        }
    }

    /// Extract the row-major index window `[x0, x1) × [y0, y1)`.
    pub fn sub_window(&self, x0: u32, y0: u32, x1: u32, y1: u32) -> (out: Vec<u8>)
        requires
            self.wf(),
            x0 <= x1 <= self.width,
            y0 <= y1 <= self.height,
        ensures
            out@.len() == (x1 - x0) * (y1 - y0),
            forall|a: int, b: int|
                x0 <= a < x1 && y0 <= b < y1 ==> out@[#[trigger] window_index(
                    (x0 as int, y0 as int, x1 as int),
                    a,
                    b,
                )] == self.cell(a, b),
    {
        let mut out: Vec<u8> = Vec::new();
        let ghost window: (int, int, int) = (x0 as int, y0 as int, x1 as int);
        let ghost span: int = x1 - x0;
        let mut y: u32 = y0;
        assert(span * (y0 - y0) == 0) by (nonlinear_arith)
            requires
                y0 - y0 == 0,
        ;
        while y < y1
            invariant
                self.wf(),
                x0 <= x1 <= self.width,
                y0 <= y <= y1 <= self.height,
                span == x1 - x0,
                window == (x0 as int, y0 as int, x1 as int),
                out@.len() == span * (y - y0),
                forall|a: int, b: int|
                    x0 <= a < x1 && y0 <= b < y ==> out@[#[trigger] window_index(window, a, b)]
                        == self.cell(a, b),
            decreases y1 - y,
        {
            let mut x: u32 = x0;
            while x < x1
                invariant
                    self.wf(),
                    x0 <= x <= x1 <= self.width,
                    y0 <= y < y1 <= self.height,
                    span == x1 - x0,
                    window == (x0 as int, y0 as int, x1 as int),
                    out@.len() == span * (y - y0) + (x - x0),
                    forall|a: int, b: int|
                        x0 <= a < x1 && y0 <= b < y || x0 <= a < x && b == y
                            ==> out@[#[trigger] window_index(window, a, b)] == self.cell(a, b),
                decreases x1 - x,
            {
                proof {
                    crate::map::lemma_cell_index(
                        x as int,
                        y as int,
                        self.width as int,
                        self.height as int,
                    );
                }
                let ghost before: Seq<u8> = out@;
                out.push(self.at(x, y));
                proof {
                    assert forall|a: int, b: int|
                        x0 <= a < x1 && y0 <= b < y || x0 <= a < x + 1 && b == y
                            implies out@[#[trigger] window_index(window, a, b)] == self.cell(
                        a,
                        b,
                    ) by {
                        vstd::arithmetic::mul::lemma_mul_is_commutative(b - y0, span);
                        vstd::arithmetic::mul::lemma_mul_is_commutative(y - y0, span);
                        if b < y {
                            crate::map::lemma_cell_index(a - x0, b - y0, span, y - y0);
                        }
                    }
                }
                x = x + 1;
            }
            y = y + 1;
            assert(span * (y - y0) == span * (y - 1 - y0) + span) by (nonlinear_arith);
        }
        out
    }
}

/// Position of cell `(a, b)` in the row-major copy of the window that starts at `(w.0, w.1)` and
/// ends before column `w.2`.
pub open spec fn window_index(w: (int, int, int), a: int, b: int) -> int {
    (b - w.1) * (w.2 - w.0) + (a - w.0)
}

proof fn lemma_block(a: int, d: int, q: int)
    requires
        d > 0,
        0 <= a,
    ensures
        q * d <= a < q * d + d ==> a / d == q,
        a < q * d ==> a / d < q,
        a / d * d <= a < a / d * d + d,
{
    vstd::arithmetic::div_mod::lemma_fundamental_div_mod(a, d);
    vstd::arithmetic::div_mod::lemma_mod_bound(a, d);
    vstd::arithmetic::mul::lemma_mul_is_commutative(d, a / d);
    if q * d <= a < q * d + d {
        vstd::arithmetic::div_mod::lemma_fundamental_div_mod_converse(a, d, q, a - q * d);
    }
    if a < q * d {
        assert(a / d < q) by (nonlinear_arith)
            requires
                a / d * d <= a,
                a < q * d,
                d > 0,
        ;
    }
}

/// The paint grid and its palette, borrowed together.
#[derive(Clone, Copy)]
pub struct PaintLayer<'a> {
    pub grid: &'a PaintGrid,
    pub palette: &'a [[u8; 4]],
}

/// A [`Colormap`] view over a paint-index grid and palette. Resolves each cell to
/// its palette color; an out-of-range index falls back to the unpainted slot 0.
pub struct PaintColormap<'a> {
    cells: &'a [u8],
    palette: &'a [[u8; 4]],
    width: u32,
    height: u32,
}

/// The palette color of an index; an index past the palette counts as unpainted.
pub open spec fn swatch(palette: Seq<[u8; 4]>, idx: u8) -> [u8; 4] {
    if idx < palette.len() {
        palette[idx as int]
    } else {
        palette[0]
    }
}

impl<'a> PaintColormap<'a> {
    #[verifier::type_invariant]
    spec fn wf(&self) -> bool {
        &&& self.palette@.len() > 0
        &&& self.cells@.len() == self.width * self.height
    }

    /// Build a colormap over `cells` (row-major, `width × height`) resolved
    /// against `palette`. `palette` must be non-empty (slot 0 is the fallback).
    pub fn new(cells: &'a [u8], palette: &'a [[u8; 4]], width: u32, height: u32) -> (map: Self)
        requires
            palette@.len() > 0,
            cells@.len() == width * height,
        ensures
            map.dims() == (width, height),
            forall|x: int, y: int| #[trigger]
                map.color_at(x, y) == swatch(palette@, cells@[y * width + x]),
    {
        PaintColormap { cells, palette, width, height }
    }
}

impl<'a> Colormap for PaintColormap<'a> {
    closed spec fn dims(&self) -> (u32, u32) {
        (self.width, self.height)
    }

    closed spec fn color_at(&self, x: int, y: int) -> [u8; 4] {
        swatch(self.palette@, self.cells@[y * self.width + x])
    }

    fn at(&self, x: u32, y: u32) -> (c: [u8; 4]) {
        proof {
            use_type_invariant(self);
            crate::map::lemma_cell_index(
                x as int,
                y as int,
                self.width as int,
                self.height as int,
            );
            assert(self.cells.len() <= usize::MAX);
        }
        let idx: usize = self.cells[y as usize * self.width as usize + x as usize] as usize;
        if idx < self.palette.len() {
            self.palette[idx]
        } else {
            self.palette[0]
        }
    }

    fn size(&self) -> (s: (u32, u32)) {
        (self.width, self.height)
    }
}

/// Index `1..=4` of the largest of the four RGBA channels, or `0` (unpainted)
/// when every channel is zero. Ties resolve to the lowest channel (R before G…).
pub open spec fn dominant(p: [u8; 4]) -> u8 {
    if p[0] == 0 && p[1] == 0 && p[2] == 0 && p[3] == 0 {
        0
    } else if p[0] >= p[1] && p[0] >= p[2] && p[0] >= p[3] {
        1
    } else if p[1] >= p[2] && p[1] >= p[3] {
        2
    } else if p[2] >= p[3] {
        3
    } else {
        4
    }
}

fn dominant_channel(p: [u8; 4]) -> (layer: u8)
    ensures
        layer == dominant(p),
{
    let mut max: u8 = p[0];
    let mut layer: u8 = 1;
    if p[1] > max {
        max = p[1];
        layer = 2;
    }
    if p[2] > max {
        max = p[2];
        layer = 3;
    }
    if p[3] > max {
        max = p[3];
        layer = 4;
    }
    if max == 0 {
        0
    } else {
        layer
    }
}

/// The source coordinate that a destination coordinate is sampled from.
pub open spec fn nearest(at: int, source: int, target: int) -> int {
    at * source / target
}

fn nearest_source(at: u32, source: u32, target: u32) -> (s: u32)
    requires
        at < target,
        source > 0,
    ensures
        s == nearest(at as int, source as int, target as int),
        s < source,
{
    proof {
        assert(0 <= at * source < target * source) by (nonlinear_arith)
            requires
                0 <= at < target,
                source > 0,
        ;
        assert(at * source <= u32::MAX * u32::MAX) by (nonlinear_arith)
            requires
                0 <= at <= u32::MAX,
                0 <= source <= u32::MAX,
        ;
        vstd::arithmetic::mul::lemma_mul_is_commutative(target as int, source as int);
        vstd::arithmetic::div_mod::lemma_multiply_divide_lt(
            at * source,
            target as int,
            source as int,
        );
        vstd::arithmetic::div_mod::lemma_div_pos_is_pos(at * source, target as int);
    }
    (at as u64 * source as u64 / target as u64) as u32
}

/// The palette indices that a splatmap gives a grid of `w × h` cells, row by row.
pub open spec fn splat_indices(img: &RgbaImage, w: int, h: int) -> Seq<u8> {
    Seq::new(
        (w * h) as nat,
        |i: int|
            dominant(
                img.pixel(
                    nearest(i % w, img.width as int, w),
                    nearest(i / w, img.height as int, h),
                ),
            ),
    )
}

/// Decode an RGBA splatmap into palette indices: each pixel's **dominant channel**
/// (argmax of R, G, B, A) selects a layer `1..=4`, the Unity/WorldPainter
/// channel-per-layer convention. The image is nearest-resampled to `dst_w × dst_h`
/// so it aligns with the height field regardless of its native size. A fully
/// transparent-and-black pixel (all channels 0) maps to unpainted (0).
///
/// Returns a row-major `Vec<u8>` of `dst_w × dst_h` palette indices.
pub fn splatmap_to_indices(img: &RgbaImage, dst_w: u32, dst_h: u32) -> (out: Vec<u8>)
    requires
        img.wf(),
        dst_w > 0 && dst_h > 0 ==> img.width > 0 && img.height > 0,
    ensures
        out@ == splat_indices(img, dst_w as int, dst_h as int),
{
    let mut out: Vec<u8> = Vec::new();
    let ghost want = |i: int|
        dominant(
            img.pixel(
                nearest(i % dst_w as int, img.width as int, dst_w as int),
                nearest(i / dst_w as int, img.height as int, dst_h as int),
            ),
        );
    let mut dy: u32 = 0;
    assert(0 <= dst_w * dst_h && 0 * dst_w == 0) by (nonlinear_arith);
    while dy < dst_h
        invariant
            img.wf(),
            dst_w > 0 && dst_h > 0 ==> img.width > 0 && img.height > 0,
            dy <= dst_h,
            out@.len() == dy * dst_w,
            forall|i: int| 0 <= i < out@.len() ==> #[trigger] out@[i] == want(i),
            want == (|i: int|
                dominant(
                    img.pixel(
                        nearest(i % dst_w as int, img.width as int, dst_w as int),
                        nearest(i / dst_w as int, img.height as int, dst_h as int),
                    ),
                )),
        decreases dst_h - dy,
    {
        let mut dx: u32 = 0;
        while dx < dst_w
            invariant
                img.wf(),
                dst_w > 0 && dst_h > 0 ==> img.width > 0 && img.height > 0,
                dy < dst_h,
                dx <= dst_w,
                out@.len() == dy * dst_w + dx,
                forall|i: int| 0 <= i < out@.len() ==> #[trigger] out@[i] == want(i),
                want == (|i: int|
                    dominant(
                        img.pixel(
                            nearest(i % dst_w as int, img.width as int, dst_w as int),
                            nearest(i / dst_w as int, img.height as int, dst_h as int),
                        ),
                    )),
            decreases dst_w - dx,
        {
            let sx: u32 = nearest_source(dx, img.width, dst_w);
            let sy: u32 = nearest_source(dy, img.height, dst_h);
            proof {
                vstd::arithmetic::div_mod::lemma_fundamental_div_mod_converse(
                    dy * dst_w + dx,
                    dst_w as int,
                    dy as int,
                    dx as int,
                );
            }
            out.push(dominant_channel(img.get_pixel(sx, sy)));
            dx = dx + 1;
        }
        assert((dy + 1) * dst_w == dy * dst_w + dst_w) by (nonlinear_arith);
        dy = dy + 1;
    }
    proof {
        vstd::arithmetic::mul::lemma_mul_is_commutative(dst_w as int, dst_h as int);
        assert(out@ =~= Seq::new((dst_w * dst_h) as nat, want));
    }
    out
}

/// Resampling stretches the source over the whole target: coordinate `at` lies in the share of the
/// target that its source coordinate takes up, so source coordinates never go back as coordinates go
/// on.
pub proof fn resampling_stretches_the_source(at: int, later: int, source: int, target: int)
    requires
        0 <= at <= later < target,
        source > 0,
    ensures
        0 <= nearest(at, source, target) < source,
        nearest(at, source, target) * target <= at * source,
        at * source < (nearest(at, source, target) + 1) * target,
        nearest(at, source, target) <= nearest(later, source, target),
{
    let s = nearest(at, source, target);
    let t = nearest(later, source, target);
    vstd::arithmetic::div_mod::lemma_fundamental_div_mod(at * source, target);
    vstd::arithmetic::div_mod::lemma_mod_bound(at * source, target);
    vstd::arithmetic::mul::lemma_mul_is_commutative(target, s);
    assert((s + 1) * target == s * target + target) by (nonlinear_arith);
    assert(0 <= at * source <= later * source && at * source < source * target) by (nonlinear_arith)
        requires
            0 <= at <= later < target,
            source > 0,
    ;
    vstd::arithmetic::div_mod::lemma_div_is_ordered(at * source, later * source, target);
    vstd::arithmetic::div_mod::lemma_div_pos_is_pos(at * source, target);
    assert(s < source) by (nonlinear_arith)
        requires
            s * target <= at * source < source * target,
            target > 0,
    ;
}

/// Where the field is a whole multiple of the picture, each pixel covers a block of that many cells.
pub proof fn pixels_cover_whole_blocks(at: int, source: int, factor: int)
    requires
        source > 0,
        factor > 0,
        0 <= at < source * factor,
    ensures
        nearest(at, source, source * factor) * factor <= at,
        at < nearest(at, source, source * factor) * factor + factor,
{
    let target = source * factor;
    let s = nearest(at, source, target);
    resampling_stretches_the_source(at, at, source, target);
    assert(s * factor <= at && at < s * factor + factor) by (nonlinear_arith)
        requires
            s * (source * factor) <= at * source,
            at * source < (s + 1) * (source * factor),
            source > 0,
    ;
}

/// A splatmap is stretched over the field, and each cell gets the number of its pixel's strongest
/// channel: a cell takes the pixel in whose share of the field it lies, it is unpainted where that has
/// no channel, and otherwise no channel of the pixel is stronger than the cell's, and none before it is
/// as strong.
pub proof fn splatmap_paints_the_strongest_channel(
    img: &RgbaImage,
    w: int,
    h: int,
    x: int,
    y: int,
) -> (source: (int, int))
    requires
        img.wf(),
        img.width > 0,
        img.height > 0,
        0 <= x < w,
        0 <= y < h,
    ensures
        ({
            let (sx, sy) = source;
            let idx = splat_indices(img, w, h)[y * w + x];
            let p = img.pixels@[sy * img.width + sx];
            &&& splat_indices(img, w, h).len() == w * h
            &&& 0 <= sx < img.width
            &&& 0 <= sy < img.height
            &&& sx * w <= x * img.width < (sx + 1) * w
            &&& sy * h <= y * img.height < (sy + 1) * h
            &&& 0 <= idx <= 4
            &&& idx == 0 ==> p[0] == 0 && p[1] == 0 && p[2] == 0 && p[3] == 0
            &&& idx > 0 ==> p[idx - 1] > 0
            &&& forall|c: int| 0 <= c < 4 && idx > 0 ==> #[trigger] p[c] <= p[idx - 1]
            &&& forall|c: int| 0 <= c < idx - 1 ==> #[trigger] p[c] < p[idx - 1]
        }),
{
    let sx = nearest(x, img.width as int, w);
    let sy = nearest(y, img.height as int, h);
    resampling_stretches_the_source(x, x, img.width as int, w);
    resampling_stretches_the_source(y, y, img.height as int, h);
    crate::map::lemma_cell_index(x, y, w, h);
    vstd::arithmetic::div_mod::lemma_fundamental_div_mod_converse(y * w + x, w, y, x);
    (sx, sy)
}

/// Blocks are squares of the side asked for that lie side by side from the first cell on: two cells are in
/// the same block where both lie between the same multiples of the side on both axes.
pub proof fn blocks_lie_side_by_side(
    r: u32,
    a: (int, int),
    b: (int, int),
    column: int,
    row: int,
)
    requires
        r > 0,
        column * r <= a.0 < column * r + r,
        row * r <= a.1 < row * r + r,
    ensures
        same_block(r, a, b) <==> column * r <= b.0 < column * r + r && row * r <= b.1 < row * r + r,
{
    let d = r as int;
    vstd::arithmetic::div_mod::lemma_fundamental_div_mod_converse(a.0, d, column, a.0 - column * d);
    vstd::arithmetic::div_mod::lemma_fundamental_div_mod_converse(a.1, d, row, a.1 - row * d);
    lemma_block_of(b.0, d, column);
    lemma_block_of(b.1, d, row);
}

proof fn lemma_block_of(at: int, d: int, q: int)
    requires
        d > 0,
    ensures
        at / d == q <==> q * d <= at < q * d + d,
{
    vstd::arithmetic::div_mod::lemma_fundamental_div_mod(at, d);
    vstd::arithmetic::div_mod::lemma_mod_bound(at, d);
    vstd::arithmetic::mul::lemma_mul_is_commutative(d, at / d);
    if q * d <= at < q * d + d {
        vstd::arithmetic::div_mod::lemma_fundamental_div_mod_converse(at, d, q, at - q * d);
    }
}

/// A gradient fill gives each cell the band of the first cell of its block, so the cells of a block all
/// have one band, and with blocks of one cell each has its own.
pub proof fn gradient_fills_go_by_blocks(
    was: PaintGrid,
    now: PaintGrid,
    bands: Seq<u8>,
    r: u32,
    x: int,
    y: int,
    a: int,
    b: int,
)
    requires
        is_gradient_fill(was, now, bands, r),
        0 <= x < was.width,
        0 <= y < was.height,
        0 <= a < was.width,
        0 <= b < was.height,
    ensures
        same_block(r, (x, y), (a, b)) ==> now.cells@[y * now.width + x] == now.cells@[b * now.width
            + a],
        r <= 1 ==> now.cells@[y * now.width + x] == bands[y * now.width + x],
{
    assert(now.cell(x, y) == bands[block_start(y, r) * was.width + block_start(x, r)]);
    assert(now.cell(a, b) == bands[block_start(b, r) * was.width + block_start(a, r)]);
    if r <= 1 {
        assert(x / 1 * 1 == x && y / 1 * 1 == y);
    }
}

/// A painted cell has the color of its swatch; one whose index no swatch has counts as unpainted.
pub proof fn painted_cells_have_their_swatch(palette: Seq<[u8; 4]>, idx: u8)
    requires
        palette.len() > 0,
    ensures
        idx < palette.len() ==> swatch(palette, idx) == palette[idx as int],
        idx >= palette.len() ==> swatch(palette, idx) == palette[0],
{
}

/// A ramp's palette keeps gray as its first color, and has the ramp's colors after it, in order and opaque.
pub proof fn ramps_fill_the_palette(palette: Seq<[u8; 4]>, ramp: Seq<[u8; 3]>, i: int)
    requires
        is_gradient_palette(palette, ramp),
        0 <= i < 8,
    ensures
        palette.len() == 9,
        palette[0] == [0x80u8, 0x80u8, 0x80u8, 0xFFu8],
        palette[i + 1][0] == ramp[i][0],
        palette[i + 1][1] == ramp[i][1],
        palette[i + 1][2] == ramp[i][2],
        palette[i + 1][3] == 255,
{
    let c = palette[i + 1];
    assert(c@ == ramp[i]@.push(0xFF));
    assert(c@[0] == ramp[i]@[0] && c@[1] == ramp[i]@[1] && c@[2] == ramp[i]@[2] && c@[3] == 0xFF);
}

} // verus!
