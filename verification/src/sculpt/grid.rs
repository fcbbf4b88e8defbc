//! Quantized terrain: brick heights, one per cell.
use super::paint::DEFAULT_BRICK_COLOR;
use crate::map::{Colormap, Heightmap};
use vstd::prelude::*;

verus! {

/// A height field in brick units, row by row.
pub struct HeightGrid {
    width: u32,
    height: u32,
    cells: Vec<u32>,
}

impl HeightGrid {
    #[verifier::type_invariant]
    spec fn inv(&self) -> bool {
        self.cells@.len() == self.width * self.height
    }

    /// Build a grid from its row-major heights.
    pub fn new(width: u32, height: u32, cells: Vec<u32>) -> (grid: Self)
        requires
            cells@.len() == width * height,
        ensures
            grid.dims() == (width, height),
            forall|x: int, y: int| #[trigger] grid.height_at(x, y) == cells@[y * width + x],
    {
        HeightGrid { width, height, cells }
    }

    /// Number of cells.
    pub fn cell_count(&self) -> (count: usize)
        ensures
            count == self.dims().0 * self.dims().1,
    {
        proof {
            use_type_invariant(self);
        }
        self.cells.len()
    }

    /// The window `[x0, x1) × [y0, y1)` as a grid of its own.
    pub fn sub_grid(&self, x0: u32, y0: u32, x1: u32, y1: u32) -> (sub: Self)
        requires
            x0 <= x1 <= self.dims().0,
            y0 <= y1 <= self.dims().1,
        ensures
            sub.dims() == ((x1 - x0) as u32, (y1 - y0) as u32),
            forall|x: int, y: int|
                0 <= x < x1 - x0 && 0 <= y < y1 - y0 ==> #[trigger] sub.height_at(x, y)
                    == self.height_at(x0 + x, y0 + y),
    {
        proof {
            use_type_invariant(self);
        }
        let w: u32 = x1 - x0;
        let h: u32 = y1 - y0;
        let mut cells: Vec<u32> = Vec::new();
        let mut y: u32 = 0;
        assert(0 * w == 0) by (nonlinear_arith);
        while y < h
            invariant
                self.inv(),
                x0 + w <= self.width,
                y0 + h <= self.height,
                y <= h,
                cells@.len() == y * w,
                forall|a: int, b: int|
                    0 <= a < w && 0 <= b < y ==> cells@[#[trigger] cell_index(w as int, a, b)]
                        == self.height_at(x0 + a, y0 + b),
            decreases h - y,
        {
            let mut x: u32 = 0;
            while x < w
                invariant
                    self.inv(),
                    x0 + w <= self.width,
                    y0 + h <= self.height,
                    y < h,
                    x <= w,
                    cells@.len() == y * w + x,
                    forall|a: int, b: int|
                        0 <= a < w && 0 <= b < y || 0 <= a < x && b == y
                            ==> cells@[#[trigger] cell_index(w as int, a, b)] == self.height_at(
                            x0 + a,
                            y0 + b,
                        ),
                decreases w - x,
            {
                cells.push(self.at(x0 + x, y0 + y));
                proof {
                    assert forall|a: int, b: int|
                        0 <= a < w && 0 <= b < y || 0 <= a < x + 1 && b == y
                            implies cells@[#[trigger] cell_index(w as int, a, b)]
                        == self.height_at(x0 + a, y0 + b) by {
                        if b < y {
                            crate::map::lemma_cell_index(a, b, w as int, y as int);
                            vstd::arithmetic::mul::lemma_mul_is_commutative(w as int, y as int);
                        }
                    }
                }
                x = x + 1;
            }
            assert((y + 1) * w == y * w + w) by (nonlinear_arith);
            y = y + 1;
        }
        proof {
            vstd::arithmetic::mul::lemma_mul_is_commutative(w as int, h as int);
        }
        let sub: HeightGrid = HeightGrid { width: w, height: h, cells };
        proof {
            assert forall|a: int, b: int|
                0 <= a < x1 - x0 && 0 <= b < y1 - y0 implies #[trigger] sub.height_at(a, b)
                == self.height_at(x0 + a, y0 + b) by {
                assert(cell_index(w as int, a, b) == b * w + a);
            }
        }
        sub
    }
}

spec fn cell_index(w: int, x: int, y: int) -> int {
    y * w + x
}

impl Heightmap for HeightGrid {
    closed spec fn dims(&self) -> (u32, u32) {
        (self.width, self.height)
    }

    closed spec fn height_at(&self, x: int, y: int) -> u32 {
        self.cells@[y * self.width + x]
    }

    fn at(&self, x: u32, y: u32) -> (h: u32) {
        proof {
            use_type_invariant(self);
            crate::map::lemma_cell_index(
                x as int,
                y as int,
                self.width as int,
                self.height as int,
            );
            assert(self.cells.len() <= usize::MAX);
        }
        self.cells[y as usize * self.width as usize + x as usize]
    }

    fn size(&self) -> (s: (u32, u32)) {
        (self.width, self.height)
    }
}

/// A colormap of a single color.
pub struct FlatColormap {
    pub width: u32,
    pub height: u32,
    pub color: [u8; 4],
}

impl FlatColormap {
    /// The color of terrain that nothing colors.
    pub fn sculpt_default(width: u32, height: u32) -> (map: Self)
        ensures
            map.dims() == (width, height),
            map.color == DEFAULT_BRICK_COLOR,
    {
        FlatColormap { width, height, color: DEFAULT_BRICK_COLOR }
    }
}

impl Colormap for FlatColormap {
    open spec fn dims(&self) -> (u32, u32) {
        (self.width, self.height)
    }

    open spec fn color_at(&self, x: int, y: int) -> [u8; 4] {
        self.color
    }

    fn at(&self, _x: u32, _y: u32) -> (c: [u8; 4]) {
        self.color
    }

    fn size(&self) -> (s: (u32, u32)) {
        (self.width, self.height)
    }
}

/// The window `[x0, x1) × [y0, y1)` of a row-major mask over a field of `width` columns.
pub open spec fn mask_window(
    mask: Seq<bool>,
    width: int,
    x0: int,
    y0: int,
    x1: int,
    y1: int,
) -> Seq<bool> {
    Seq::new(
        ((x1 - x0) * (y1 - y0)) as nat,
        |i: int| mask[(y0 + i / (x1 - x0)) * width + (x0 + i % (x1 - x0))],
    )
}

/// Slice a window out of a full-field mask, so that the keep decision of a cell is the same
/// whichever tile it is meshed in.
pub fn slice_mask(mask: &Vec<bool>, width: u32, height: u32, window: (u32, u32, u32, u32)) -> (out:
    Vec<bool>)
    requires
        mask@.len() == width * height,
        window.0 <= window.2 <= width,
        window.1 <= window.3 <= height,
    ensures
        out@ == mask_window(
            mask@,
            width as int,
            window.0 as int,
            window.1 as int,
            window.2 as int,
            window.3 as int,
        ),
{
    let (x0, y0, x1, y1) = window;
    let ghost span: int = x1 - x0;
    let ghost want: Seq<bool> = mask_window(
        mask@,
        width as int,
        x0 as int,
        y0 as int,
        x1 as int,
        y1 as int,
    );
    let mut out: Vec<bool> = Vec::new();
    let mut y: u32 = y0;
    proof {
        assert((y0 - y0) * span == 0) by (nonlinear_arith)
            requires
                y0 - y0 == 0,
        ;
        assert(0 <= span * (y1 - y0)) by (nonlinear_arith)
            requires
                0 <= span,
                0 <= y1 - y0,
        ;
    }
    while y < y1
        invariant
            mask@.len() == width * height,
            x0 <= x1 <= width,
            y0 <= y <= y1 <= height,
            span == x1 - x0,
            want == mask_window(
                mask@,
                width as int,
                x0 as int,
                y0 as int,
                x1 as int,
                y1 as int,
            ),
            0 <= span * (y1 - y0),
            out@.len() == (y - y0) * span,
            forall|i: int| 0 <= i < out@.len() ==> #[trigger] out@[i] == want[i],
        decreases y1 - y,
    {
        let mut x: u32 = x0;
        while x < x1
            invariant
                mask@.len() == width * height,
                x0 <= x <= x1 <= width,
                y0 <= y < y1 <= height,
                span == x1 - x0,
                want == mask_window(
                    mask@,
                    width as int,
                    x0 as int,
                    y0 as int,
                    x1 as int,
                    y1 as int,
                ),
                0 <= span * (y1 - y0),
                out@.len() == (y - y0) * span + (x - x0),
                forall|i: int| 0 <= i < out@.len() ==> #[trigger] out@[i] == want[i],
            decreases x1 - x,
        {
            proof {
                crate::map::lemma_cell_index(x as int, y as int, width as int, height as int);
                crate::map::lemma_cell_index(x - x0, y - y0, span, y1 - y0);
                assert(mask.len() <= usize::MAX);
                vstd::arithmetic::div_mod::lemma_fundamental_div_mod_converse(
                    (y - y0) * span + (x - x0),
                    span,
                    y - y0,
                    x - x0,
                );
            }
            out.push(mask[y as usize * width as usize + x as usize]);
            x = x + 1;
        }
        assert((y + 1 - y0) * span == (y - y0) * span + span) by (nonlinear_arith);
        y = y + 1;
    }
    proof {
        vstd::arithmetic::mul::lemma_mul_is_commutative(span, y1 - y0);
        assert(out@ =~= want);
    }
    out
}

} // verus!
