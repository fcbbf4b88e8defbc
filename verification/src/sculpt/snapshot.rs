//! Snapshots of height cells, for exact undo and redo.
//!
//! A cell holds the bit pattern of its height, so restoring a snapshot is exact to the bit.
use vstd::prelude::*;

verus! {

/// The editable heights, row by row, as bit patterns.
pub struct CellField {
    pub width: u32,
    pub height: u32,
    pub cells: Vec<u32>,
}

impl CellField {
    /// Every cell of the field is there.
    pub open spec fn wf(&self) -> bool {
        self.cells@.len() == self.width * self.height
    }
}

/// A rectangle of cells: columns `x0 .. x0 + w`, rows `y0 .. y0 + h`.
#[derive(Clone, Copy, Debug, PartialEq, Eq, Structural)]
pub struct CellRect {
    pub x0: u32,
    pub y0: u32,
    pub w: u32,
    pub h: u32,
}

impl CellRect {
    /// The rectangle lies in a field of this size.
    pub open spec fn fits(self, width: u32, height: u32) -> bool {
        self.x0 + self.w <= width && self.y0 + self.h <= height
    }

    /// The rectangle holds the cell.
    pub open spec fn holds(self, x: int, y: int) -> bool {
        self.x0 <= x < self.x0 + self.w && self.y0 <= y < self.y0 + self.h
    }

    /// Position of a cell among the rectangle's cells, row by row.
    pub open spec fn index(self, x: int, y: int) -> int {
        (y - self.y0) * self.w + (x - self.x0)
    }
}

/// A pre-stroke snapshot of the cells a stroke can touch, for exact undo/redo.
/// Stores the affected rectangle and a row-major copy of its
/// cells — rect-sized, so memory is bounded by the brush footprint, not
/// the whole field.
pub struct RectSnapshot {
    pub rect: CellRect,
    pub cells: Vec<u32>,
}

/// The contents of a snapshot.
pub struct SnapshotModel {
    pub rect: CellRect,
    pub cells: Seq<u32>,
}

impl View for RectSnapshot {
    type V = SnapshotModel;

    open spec fn view(&self) -> SnapshotModel {
        SnapshotModel { rect: self.rect, cells: self.cells@ }
    }
}

impl SnapshotModel {
    /// The snapshot is complete and lies in a field of this size.
    pub open spec fn fits(self, width: u32, height: u32) -> bool {
        self.rect.fits(width, height) && self.cells.len() == self.rect.w * self.rect.h
    }

    /// The value that the snapshot has for a cell.
    pub open spec fn at(self, x: int, y: int) -> u32 {
        self.cells[self.rect.index(x, y)]
    }
}

/// The cells of a rectangle of a field that is `width` columns wide.
pub open spec fn captured(cells: Seq<u32>, width: int, rect: CellRect) -> SnapshotModel {
    SnapshotModel {
        rect,
        cells: Seq::new(
            (rect.w * rect.h) as nat,
            |i: int|
                cells[(rect.y0 + i / rect.w as int) * width + (rect.x0 + i % rect.w as int)],
        ),
    }
}

/// A field's cells with those of a snapshot put back.
pub open spec fn restored(cells: Seq<u32>, width: int, snap: SnapshotModel) -> Seq<u32> {
    Seq::new(
        cells.len(),
        |i: int|
            if snap.rect.holds(i % width, i / width) {
                snap.at(i % width, i / width)
            } else {
                cells[i]
            },
    )
}

/// Where a cell of a rectangle lies among the rectangle's cells.
pub(crate) proof fn lemma_rect_index(rect: CellRect, x: int, y: int)
    requires
        rect.holds(x, y),
    ensures
        0 <= rect.index(x, y) < rect.w * rect.h,
        rect.index(x, y) / rect.w as int == y - rect.y0,
        rect.index(x, y) % rect.w as int == x - rect.x0,
{
    crate::map::lemma_cell_index(x - rect.x0, y - rect.y0, rect.w as int, rect.h as int);
    vstd::arithmetic::div_mod::lemma_fundamental_div_mod_converse(
        rect.index(x, y),
        rect.w as int,
        y - rect.y0,
        x - rect.x0,
    );
}

/// A captured snapshot has the field's value for each of its cells.
pub(crate) proof fn lemma_captured_at(
    cells: Seq<u32>,
    width: u32,
    height: u32,
    rect: CellRect,
    x: int,
    y: int,
)
    requires
        cells.len() == width * height,
        rect.fits(width, height),
        rect.holds(x, y),
    ensures
        captured(cells, width as int, rect).at(x, y) == cells[y * width + x],
        0 <= y * width + x < cells.len(),
{
    lemma_rect_index(rect, x, y);
    crate::map::lemma_cell_index(x, y, width as int, height as int);
}

impl RectSnapshot {
    /// Capture a rectangle of `field`.
    pub fn capture(field: &CellField, rect: CellRect) -> (snap: Self)
        requires
            field.wf(),
            rect.fits(field.width, field.height),
        ensures
            snap@ == captured(field.cells@, field.width as int, rect),
            snap@.fits(field.width, field.height),
    {
        let mut cells: Vec<u32> = Vec::new();
        let ghost want: Seq<u32> = captured(field.cells@, field.width as int, rect).cells;
        let mut y: u32 = 0;
        proof {
            assert(0 <= rect.w * rect.h) by (nonlinear_arith)
                requires
                    0 <= rect.w,
                    0 <= rect.h,
            ;
            assert(0 * rect.w == 0) by (nonlinear_arith);
        }
        while y < rect.h
            invariant
                field.wf(),
                rect.fits(field.width, field.height),
                want == captured(field.cells@, field.width as int, rect).cells,
                0 <= rect.w * rect.h,
                y <= rect.h,
                cells@.len() == y * rect.w,
                forall|i: int| 0 <= i < cells@.len() ==> #[trigger] cells@[i] == want[i],
            decreases rect.h - y,
        {
            let mut x: u32 = 0;
            while x < rect.w
                invariant
                    field.wf(),
                    rect.fits(field.width, field.height),
                    want == captured(field.cells@, field.width as int, rect).cells,
                    0 <= rect.w * rect.h,
                    y < rect.h,
                    x <= rect.w,
                    cells@.len() == y * rect.w + x,
                    forall|i: int| 0 <= i < cells@.len() ==> #[trigger] cells@[i] == want[i],
                decreases rect.w - x,
            {
                proof {
                    lemma_captured_at(
                        field.cells@,
                        field.width,
                        field.height,
                        rect,
                        rect.x0 + x,
                        rect.y0 + y,
                    );
                    lemma_rect_index(rect, rect.x0 + x, rect.y0 + y);
                    crate::map::lemma_cell_index(
                        rect.x0 + x,
                        rect.y0 + y,
                        field.width as int,
                        field.height as int,
                    );
                    assert(field.cells.len() <= usize::MAX);
                }
                cells.push(
                    field.cells[(rect.y0 + y) as usize * field.width as usize + (rect.x0
                        + x) as usize],
                );
                x = x + 1;
            }
            assert((y + 1) * rect.w == y * rect.w + rect.w) by (nonlinear_arith);
            y = y + 1;
        }
        proof {
            vstd::arithmetic::mul::lemma_mul_is_commutative(rect.w as int, rect.h as int);
            assert(cells@ =~= want);
        }
        RectSnapshot { rect, cells }
    }

    /// Restore this snapshot's cells into `field`, returning a snapshot of what
    /// was there *before* the restore (so redo can re-apply). Exact restoration.
    pub fn restore_into(&self, field: &mut CellField) -> (prior: RectSnapshot)
        requires
            old(field).wf(),
            self@.fits(old(field).width, old(field).height),
        ensures
            final(field).wf(),
            final(field).width == old(field).width,
            final(field).height == old(field).height,
            final(field).cells@ == restored(old(field).cells@, old(field).width as int, self@),
            prior@ == captured(old(field).cells@, old(field).width as int, self.rect),
            prior@.fits(old(field).width, old(field).height),
    {
        let prior: RectSnapshot = RectSnapshot::capture(field, self.rect);
        let rect: CellRect = self.rect;
        let width: u32 = field.width;
        let ghost was: Seq<u32> = field.cells@;
        let ghost snap: SnapshotModel = self@;
        let ghost height: u32 = field.height;
        let mut y: u32 = 0;
        while y < rect.h
            invariant
                snap == self@,
                rect == self.rect,
                snap.fits(width, height),
                was.len() == width * height,
                field.width == width,
                field.height == height,
                field.cells@.len() == was.len(),
                y <= rect.h,
                forall|a: int, b: int|
                    0 <= a < width && 0 <= b < height ==> field.cells@[#[trigger] (b * width + a)]
                        == if rect.holds(a, b) && b < rect.y0 + y {
                        snap.at(a, b)
                    } else {
                        was[b * width + a]
                    },
            decreases rect.h - y,
        {
            let mut x: u32 = 0;
            while x < rect.w
                invariant
                    snap == self@,
                    rect == self.rect,
                    snap.fits(width, height),
                    was.len() == width * height,
                    field.width == width,
                    field.height == height,
                    field.cells@.len() == was.len(),
                    y < rect.h,
                    x <= rect.w,
                    forall|a: int, b: int|
                        0 <= a < width && 0 <= b < height ==> field.cells@[#[trigger] (b * width
                            + a)] == if rect.holds(a, b) && (b < rect.y0 + y || b == rect.y0 + y
                            && a < rect.x0 + x) {
                            snap.at(a, b)
                        } else {
                            was[b * width + a]
                        },
                decreases rect.w - x,
            {
                let ghost before: Seq<u32> = field.cells@;
                proof {
                    lemma_rect_index(rect, rect.x0 + x, rect.y0 + y);
                    crate::map::lemma_cell_index(
                        rect.x0 + x,
                        rect.y0 + y,
                        width as int,
                        height as int,
                    );
                    assert(field.cells.len() <= usize::MAX);
                    assert(self.cells.len() <= usize::MAX);
                    crate::map::lemma_cell_index(x as int, y as int, rect.w as int, rect.h as int);
                }
                let value: u32 = self.cells[y as usize * rect.w as usize + x as usize];
                let i: usize = (rect.y0 + y) as usize * width as usize + (rect.x0 + x) as usize;
                field.cells[i] = value;
                proof {
                    assert forall|a: int, b: int|
                        0 <= a < width && 0 <= b < height implies field.cells@[#[trigger] (b
                        * width + a)] == if rect.holds(a, b) && (b < rect.y0 + y || b == rect.y0
                        + y && a < rect.x0 + x + 1) {
                        snap.at(a, b)
                    } else {
                        was[b * width + a]
                    } by {
                        crate::map::lemma_cell_index(a, b, width as int, height as int);
                        assert(before[b * width + a] == before[b * width + a]);
                        if b * width + a == i {
                            crate::map::lemma_cell_index_unique(
                                a,
                                b,
                                rect.x0 + x,
                                rect.y0 + y,
                                width as int,
                            );
                        }
                    }
                }
                x = x + 1;
            }
            y = y + 1;
        }
        proof {
            assert forall|i: int| 0 <= i < was.len() implies field.cells@[i] == restored(
                was,
                width as int,
                snap,
            )[i] by {
                crate::map::lemma_cell_of_index(i, width as int, height as int);
                assert(field.cells@[i / width as int * width + i % width as int]
                    == field.cells@[i]);
            }
            assert(field.cells@ =~= restored(was, width as int, snap));
        }
        prior
    }
}

/// Restoring is its own inverse: putting back what a restore displaced gives the cells as they were
/// before it.
pub proof fn restore_is_its_own_inverse(
    cells: Seq<u32>,
    width: u32,
    height: u32,
    snap: SnapshotModel,
)
    requires
        cells.len() == width * height,
        snap.fits(width, height),
    ensures
        restored(
            restored(cells, width as int, snap),
            width as int,
            captured(cells, width as int, snap.rect),
        ) == cells,
        captured(restored(cells, width as int, snap), width as int, snap.rect) == snap,
{
    let w = width as int;
    let there = restored(cells, w, snap);
    let prior = captured(cells, w, snap.rect);
    let back = restored(there, w, prior);
    assert forall|i: int| 0 <= i < cells.len() implies back[i] == cells[i] by {
        crate::map::lemma_cell_of_index(i, w, height as int);
        let (x, y) = (i % w, i / w);
        if snap.rect.holds(x, y) {
            lemma_captured_at(cells, width, height, snap.rect, x, y);
        }
    }
    assert(back =~= cells);
    let again = captured(there, w, snap.rect);
    let rect = snap.rect;
    assert(0 <= rect.w * rect.h) by (nonlinear_arith)
        requires
            0 <= rect.w,
            0 <= rect.h,
    ;
    assert forall|i: int| 0 <= i < again.cells.len() implies again.cells[i] == snap.cells[i] by {
        crate::map::lemma_cell_of_index(i, rect.w as int, rect.h as int);
        let (x, y) = (rect.x0 + i % rect.w as int, rect.y0 + i / rect.w as int);
        lemma_captured_at(there, width, height, rect, x, y);
        crate::map::lemma_cell_index(x, y, w, height as int);
        vstd::arithmetic::div_mod::lemma_fundamental_div_mod_converse(y * w + x, w, y, x);
    }
    assert(again.cells =~= snap.cells);
    assert(again == snap);
}

/// The smallest rectangle that holds two others.
pub open spec fn join(a: CellRect, b: CellRect) -> CellRect {
    let x0 = if a.x0 < b.x0 {
        a.x0
    } else {
        b.x0
    };
    let y0 = if a.y0 < b.y0 {
        a.y0
    } else {
        b.y0
    };
    let x1 = if a.x0 + a.w > b.x0 + b.w {
        a.x0 + a.w
    } else {
        b.x0 + b.w
    };
    let y1 = if a.y0 + a.h > b.y0 + b.h {
        a.y0 + a.h
    } else {
        b.y0 + b.h
    };
    CellRect { x0, y0, w: (x1 - x0) as u32, h: (y1 - y0) as u32 }
}

/// The bounding rectangle of the snapshots of a stroke.
pub open spec fn bound(dabs: Seq<SnapshotModel>) -> CellRect
    decreases dabs.len(),
{
    if dabs.len() <= 1 {
        dabs[0].rect
    } else {
        join(bound(dabs.drop_last()), dabs.last().rect)
    }
}

/// The value that the earliest snapshot which holds a cell has for it.
pub open spec fn earliest(dabs: Seq<SnapshotModel>, x: int, y: int) -> Option<u32>
    decreases dabs.len(),
{
    if dabs.len() == 0 {
        None
    } else if dabs[0].rect.holds(x, y) {
        Some(dabs[0].at(x, y))
    } else {
        earliest(dabs.skip(1), x, y)
    }
}

/// The value of a cell before a stroke: what the earliest snapshot has for it, or what it is now
/// where none holds it.
pub open spec fn value_before(
    cells: Seq<u32>,
    width: int,
    dabs: Seq<SnapshotModel>,
    x: int,
    y: int,
) -> u32 {
    match earliest(dabs, x, y) {
        Some(v) => v,
        None => cells[y * width + x],
    }
}

/// The single snapshot of a stroke.
pub open spec fn collapsed(
    cells: Seq<u32>,
    width: int,
    rect: CellRect,
    dabs: Seq<SnapshotModel>,
) -> SnapshotModel {
    SnapshotModel {
        rect,
        cells: Seq::new(
            (rect.w * rect.h) as nat,
            |i: int|
                value_before(
                    cells,
                    width,
                    dabs,
                    rect.x0 + i % rect.w as int,
                    rect.y0 + i / rect.w as int,
                ),
        ),
    }
}

/// The contents of a list of snapshots.
pub open spec fn snapshot_models(dabs: Seq<RectSnapshot>) -> Seq<SnapshotModel> {
    Seq::new(dabs.len(), |i: int| dabs[i]@)
}

/// Every snapshot is complete and lies in a field of this size.
pub open spec fn all_fit(dabs: Seq<SnapshotModel>, width: u32, height: u32) -> bool {
    forall|i: int| 0 <= i < dabs.len() ==> (#[trigger] dabs[i]).fits(width, height)
}

/// One rectangle lies inside another.
pub open spec fn inside(inner: CellRect, outer: CellRect) -> bool {
    &&& outer.x0 <= inner.x0
    &&& outer.y0 <= inner.y0
    &&& inner.x0 + inner.w <= outer.x0 + outer.w
    &&& inner.y0 + inner.h <= outer.y0 + outer.h
}

proof fn lemma_bound(dabs: Seq<SnapshotModel>, width: u32, height: u32)
    requires
        dabs.len() > 0,
        all_fit(dabs, width, height),
    ensures
        bound(dabs).fits(width, height),
        forall|i: int| 0 <= i < dabs.len() ==> inside((#[trigger] dabs[i]).rect, bound(dabs)),
    decreases dabs.len(),
{
    assert(dabs[dabs.len() - 1].fits(width, height));
    if dabs.len() > 1 {
        let rest = dabs.drop_last();
        assert forall|i: int| 0 <= i < rest.len() implies (#[trigger] rest[i]).fits(
            width,
            height,
        ) by {
            assert(rest[i] == dabs[i]);
        }
        lemma_bound(rest, width, height);
        assert forall|i: int| 0 <= i < dabs.len() implies inside(
            (#[trigger] dabs[i]).rect,
            bound(dabs),
        ) by {
            if i < rest.len() {
                assert(rest[i] == dabs[i]);
            }
        }
    }
}

fn min(a: u32, b: u32) -> (m: u32)
    ensures
        m == if a < b {
            a
        } else {
            b
        },
{
    if a < b {
        a
    } else {
        b
    }
}

fn join_rects(a: CellRect, b: CellRect) -> (r: CellRect)
    requires
        a.x0 + a.w <= u32::MAX,
        a.y0 + a.h <= u32::MAX,
        b.x0 + b.w <= u32::MAX,
        b.y0 + b.h <= u32::MAX,
    ensures
        r == join(a, b),
{
    let x0: u32 = min(a.x0, b.x0);
    let y0: u32 = min(a.y0, b.y0);
    let x1: u32 = if a.x0 + a.w > b.x0 + b.w {
        a.x0 + a.w
    } else {
        b.x0 + b.w
    };
    let y1: u32 = if a.y0 + a.h > b.y0 + b.h {
        a.y0 + a.h
    } else {
        b.y0 + b.h
    };
    CellRect { x0, y0, w: x1 - x0, h: y1 - y0 }
}

fn bounding_rect(dabs: &Vec<RectSnapshot>, width: u32, height: u32) -> (r: CellRect)
    requires
        dabs@.len() > 0,
        all_fit(snapshot_models(dabs@), width, height),
    ensures
        r == bound(snapshot_models(dabs@)),
{
    let ghost models: Seq<SnapshotModel> = snapshot_models(dabs@);
    assert(models[0] == dabs@[0]@);
    let mut r: CellRect = dabs[0].rect;
    let mut i: usize = 1;
    assert(models.take(1)[0] == models[0]);
    while i < dabs.len()
        invariant
            models == snapshot_models(dabs@),
            all_fit(models, width, height),
            1 <= i <= models.len(),
            r == bound(models.take(i as int)),
            r.fits(width, height),
        decreases models.len() - i,
    {
        proof {
            assert(models.take(i + 1).drop_last() =~= models.take(i as int));
            assert(models.take(i + 1).last() == models[i as int]);
            assert(models[i as int].fits(width, height));
            assert(models[i as int] == dabs@[i as int]@);
        }
        r = join_rects(r, dabs[i].rect);
        i = i + 1;
    }
    assert(models.take(i as int) =~= models);
    r
}

/// Overlay `src`'s cells onto `dst` where they overlap (`src` is fully contained
/// in `dst`), keeping `src`'s values.
fn overlay_into(dst: &mut RectSnapshot, src: &RectSnapshot)
    requires
        old(dst)@.cells.len() == old(dst).rect.w * old(dst).rect.h,
        src@.cells.len() == src.rect.w * src.rect.h,
        inside(src.rect, old(dst).rect),
        old(dst).rect.x0 + old(dst).rect.w <= u32::MAX,
        old(dst).rect.y0 + old(dst).rect.h <= u32::MAX,
    ensures
        final(dst).rect == old(dst).rect,
        final(dst)@.cells.len() == old(dst)@.cells.len(),
        forall|a: int, b: int|
            old(dst).rect.holds(a, b) ==> #[trigger] final(dst)@.at(a, b) == if src.rect.holds(
                a,
                b,
            ) {
                src@.at(a, b)
            } else {
                old(dst)@.at(a, b)
            },
{
    let ghost was: SnapshotModel = dst@;
    let d: CellRect = dst.rect;
    let r: CellRect = src.rect;
    let mut y: u32 = 0;
    while y < r.h
        invariant
            d == dst.rect,
            d == was.rect,
            r == src.rect,
            was.cells.len() == d.w * d.h,
            dst@.cells.len() == d.w * d.h,
            src@.cells.len() == r.w * r.h,
            inside(r, d),
            d.x0 + d.w <= u32::MAX,
            d.y0 + d.h <= u32::MAX,
            y <= r.h,
            forall|a: int, b: int|
                d.holds(a, b) ==> #[trigger] dst@.at(a, b) == if r.holds(a, b) && b < r.y0 + y {
                    src@.at(a, b)
                } else {
                    was.at(a, b)
                },
        decreases r.h - y,
    {
        let mut x: u32 = 0;
        while x < r.w
            invariant
                d == dst.rect,
                d == was.rect,
                r == src.rect,
                was.cells.len() == d.w * d.h,
                dst@.cells.len() == d.w * d.h,
                src@.cells.len() == r.w * r.h,
                inside(r, d),
                d.x0 + d.w <= u32::MAX,
                d.y0 + d.h <= u32::MAX,
                y < r.h,
                x <= r.w,
                forall|a: int, b: int|
                    d.holds(a, b) ==> #[trigger] dst@.at(a, b) == if r.holds(a, b) && (b < r.y0
                        + y || b == r.y0 + y && a < r.x0 + x) {
                        src@.at(a, b)
                    } else {
                        was.at(a, b)
                    },
            decreases r.w - x,
        {
            let ghost before: SnapshotModel = dst@;
            let gx: u32 = r.x0 + x;
            let gy: u32 = r.y0 + y;
            proof {
                lemma_rect_index(d, gx as int, gy as int);
                lemma_rect_index(r, gx as int, gy as int);
                crate::map::lemma_cell_index(gx - d.x0, gy - d.y0, d.w as int, d.h as int);
                crate::map::lemma_cell_index(x as int, y as int, r.w as int, r.h as int);
                assert(dst.cells.len() <= usize::MAX);
                assert(src.cells.len() <= usize::MAX);
            }
            let di: usize = (gy - d.y0) as usize * d.w as usize + (gx - d.x0) as usize;
            let si: usize = y as usize * r.w as usize + x as usize;
            dst.cells[di] = src.cells[si];
            proof {
                assert forall|a: int, b: int| d.holds(a, b) implies #[trigger] dst@.at(a, b)
                    == if r.holds(a, b) && (b < r.y0 + y || b == r.y0 + y && a < r.x0 + x + 1) {
                    src@.at(a, b)
                } else {
                    was.at(a, b)
                } by {
                    lemma_rect_index(d, a, b);
                    assert(before.at(a, b) == before.cells[d.index(a, b)]);
                    if d.index(a, b) == di {
                        crate::map::lemma_cell_index_unique(
                            a - d.x0,
                            b - d.y0,
                            gx - d.x0,
                            gy - d.y0,
                            d.w as int,
                        );
                    }
                }
            }
            x = x + 1;
        }
        y = y + 1;
    }
}

/// Build the single pre-stroke snapshot from the per-dab ones, or `None`
/// if the stroke captured nothing (every dab was off-grid).
///
/// The bounding rectangle of all dabs is filled from the current (post-stroke) field — correct for
/// cells inside it that no dab touched — then each per-dab snapshot is
/// overlaid from last to first, so the earliest (= true pre-stroke) value wins
/// for any cell multiple dabs covered.
pub fn collapse_stroke_snapshots(field: &CellField, dabs: &Vec<RectSnapshot>) -> (union: Option<
    RectSnapshot,
>)
    requires
        field.wf(),
        all_fit(snapshot_models(dabs@), field.width, field.height),
    ensures
        dabs@.len() == 0 ==> union is None,
        dabs@.len() > 0 ==> (union matches Some(u) && u@ == collapsed(
            field.cells@,
            field.width as int,
            bound(snapshot_models(dabs@)),
            snapshot_models(dabs@),
        ) && u@.fits(field.width, field.height)),
{
    if dabs.len() == 0 {
        return None;
    }
    let ghost models: Seq<SnapshotModel> = snapshot_models(dabs@);
    let rect: CellRect = bounding_rect(dabs, field.width, field.height);
    proof {
        lemma_bound(models, field.width, field.height);
    }
    let mut union: RectSnapshot = RectSnapshot::capture(field, rect);
    let mut k: usize = dabs.len();
    proof {
        assert forall|a: int, b: int| rect.holds(a, b) implies #[trigger] union@.at(a, b)
            == value_before(field.cells@, field.width as int, models.skip(k as int), a, b) by {
            lemma_captured_at(field.cells@, field.width, field.height, rect, a, b);
        }
    }
    while k > 0
        invariant
            models == snapshot_models(dabs@),
            all_fit(models, field.width, field.height),
            k <= models.len(),
            union.rect == rect,
            rect == bound(models),
            rect.fits(field.width, field.height),
            union@.cells.len() == rect.w * rect.h,
            forall|i: int| 0 <= i < models.len() ==> inside((#[trigger] models[i]).rect, rect),
            forall|a: int, b: int|
                rect.holds(a, b) ==> #[trigger] union@.at(a, b) == value_before(
                    field.cells@,
                    field.width as int,
                    models.skip(k as int),
                    a,
                    b,
                ),
        decreases k,
    {
        let ghost before: SnapshotModel = union@;
        proof {
            assert(models[k - 1] == dabs@[k - 1]@);
            assert(models[k - 1].fits(field.width, field.height));
            assert(inside(models[k - 1].rect, rect));
        }
        overlay_into(&mut union, &dabs[k - 1]);
        proof {
            let longer = models.skip(k - 1);
            assert(longer.skip(1) =~= models.skip(k as int));
            assert(longer[0] == models[k - 1]);
            assert forall|a: int, b: int| rect.holds(a, b) implies #[trigger] union@.at(a, b)
                == value_before(field.cells@, field.width as int, longer, a, b) by {
                assert(before.at(a, b) == value_before(
                    field.cells@,
                    field.width as int,
                    models.skip(k as int),
                    a,
                    b,
                ));
            }
        }
        k = k - 1;
    }
    proof {
        assert(models.skip(0) =~= models);
        let want = collapsed(field.cells@, field.width as int, rect, models);
        assert(0 <= rect.w * rect.h) by (nonlinear_arith)
            requires
                0 <= rect.w,
                0 <= rect.h,
        ;
        assert forall|i: int| 0 <= i < want.cells.len() implies union@.cells[i]
            == want.cells[i] by {
            crate::map::lemma_cell_of_index(i, rect.w as int, rect.h as int);
            let (x, y) = (rect.x0 + i % rect.w as int, rect.y0 + i / rect.w as int);
            assert(rect.holds(x, y));
            assert(union@.at(x, y) == union@.cells[i]);
        }
        assert(union@.cells =~= want.cells);
    }
    Some(union)
}

/// A stroke: the fields before and after each dab, where each dab's snapshot was captured before
/// the dab edited the field, and each dab edits nothing outside its rectangle.
pub open spec fn is_stroke(
    fields: Seq<Seq<u32>>,
    width: u32,
    height: u32,
    dabs: Seq<SnapshotModel>,
) -> bool {
    &&& fields.len() == dabs.len() + 1
    &&& forall|i: int|
        0 <= i < fields.len() ==> (#[trigger] fields[i]).len() == width * height
    &&& all_fit(dabs, width, height)
    &&& forall|i: int|
        0 <= i < dabs.len() ==> #[trigger] dabs[i] == captured(
            fields[i],
            width as int,
            dabs[i].rect,
        )
    &&& forall|i: int, x: int, y: int|
        0 <= i < dabs.len() && 0 <= x < width && 0 <= y < height
            && !#[trigger] dabs[i].rect.holds(x, y) ==> fields[i + 1][y * width + x]
            == fields[i][y * width + x]
}

proof fn lemma_stroke_value(
    fields: Seq<Seq<u32>>,
    width: u32,
    height: u32,
    dabs: Seq<SnapshotModel>,
    x: int,
    y: int,
)
    requires
        is_stroke(fields, width, height, dabs),
        0 <= x < width,
        0 <= y < height,
    ensures
        value_before(fields.last(), width as int, dabs, x, y) == fields[0][y * width + x],
        earliest(dabs, x, y) is None ==> forall|i: int|
            0 <= i < dabs.len() ==> !(#[trigger] dabs[i]).rect.holds(x, y),
    decreases dabs.len(),
{
    if dabs.len() > 0 {
        if dabs[0].rect.holds(x, y) {
            lemma_captured_at(fields[0], width, height, dabs[0].rect, x, y);
        } else {
            let later = dabs.skip(1);
            let rest = fields.skip(1);
            assert forall|i: int| 0 <= i < later.len() implies (#[trigger] later[i]).fits(
                width,
                height,
            ) && later[i] == captured(rest[i], width as int, later[i].rect) by {
                assert(later[i] == dabs[i + 1]);
                assert(dabs[i + 1].fits(width, height));
            }
            assert forall|i: int, a: int, b: int|
                0 <= i < later.len() && 0 <= a < width && 0 <= b < height
                    && !#[trigger] later[i].rect.holds(a, b) implies rest[i + 1][b * width + a]
                == rest[i][b * width + a] by {
                assert(!dabs[i + 1].rect.holds(a, b));
            }
            lemma_stroke_value(rest, width, height, later, x, y);
            assert(fields[1][y * width + x] == fields[0][y * width + x]);
            if earliest(dabs, x, y) is None {
                assert forall|i: int| 0 <= i < dabs.len() implies !(
                #[trigger] dabs[i]).rect.holds(x, y) by {
                    if i > 0 {
                        assert(later[i - 1] == dabs[i]);
                    }
                }
            }
        }
    }
}

/// Undoing a stroke restores the exact field from before it, also where its dabs overlap: the
/// collapsed snapshot, put back into the field after the stroke, gives the field before the stroke.
pub proof fn stroke_undo_is_exact(
    fields: Seq<Seq<u32>>,
    width: u32,
    height: u32,
    dabs: Seq<SnapshotModel>,
)
    requires
        is_stroke(fields, width, height, dabs),
        dabs.len() > 0,
    ensures
        restored(
            fields.last(),
            width as int,
            collapsed(fields.last(), width as int, bound(dabs), dabs),
        ) == fields[0],
{
    let w = width as int;
    let rect = bound(dabs);
    let snap = collapsed(fields.last(), w, rect, dabs);
    let back = restored(fields.last(), w, snap);
    lemma_bound(dabs, width, height);
    assert(fields[fields.len() - 1].len() == width * height);
    assert forall|i: int| 0 <= i < back.len() implies back[i] == fields[0][i] by {
        crate::map::lemma_cell_of_index(i, w, height as int);
        let (x, y) = (i % w, i / w);
        lemma_stroke_value(fields, width, height, dabs, x, y);
        if rect.holds(x, y) {
            lemma_rect_index(rect, x, y);
        } else if earliest(dabs, x, y) is Some {
            lemma_earliest_held(dabs, x, y);
            let k = choose|k: int| 0 <= k < dabs.len() && (#[trigger] dabs[k]).rect.holds(x, y);
            assert(inside(dabs[k].rect, rect));
        }
    }
    assert(back =~= fields[0]);
}

proof fn lemma_earliest_held(dabs: Seq<SnapshotModel>, x: int, y: int)
    requires
        earliest(dabs, x, y) is Some,
    ensures
        exists|k: int| 0 <= k < dabs.len() && (#[trigger] dabs[k]).rect.holds(x, y),
    decreases dabs.len(),
{
    if dabs[0].rect.holds(x, y) {
        assert(dabs[0].rect.holds(x, y));
    } else {
        let rest = dabs.skip(1);
        lemma_earliest_held(rest, x, y);
        let k = choose|k: int| 0 <= k < rest.len() && (#[trigger] rest[k]).rect.holds(x, y);
        assert(dabs[k + 1] == rest[k]);
    }
}

/// A snapshot holds the cells of its rectangle, row by row.
pub proof fn snapshots_hold_their_cells(
    cells: Seq<u32>,
    width: u32,
    height: u32,
    rect: CellRect,
    x: int,
    y: int,
)
    requires
        cells.len() == width * height,
        rect.x0 + rect.w <= width,
        rect.y0 + rect.h <= height,
        rect.x0 <= x < rect.x0 + rect.w,
        rect.y0 <= y < rect.y0 + rect.h,
    ensures
        captured(cells, width as int, rect).rect == rect,
        captured(cells, width as int, rect).cells.len() == rect.w * rect.h,
        captured(cells, width as int, rect).cells[(y - rect.y0) * rect.w + (x - rect.x0)] == cells[y
            * width + x],
{
    lemma_captured_at(cells, width, height, rect, x, y);
    assert(0 <= rect.w * rect.h) by (nonlinear_arith)
        requires
            0 <= rect.w,
            0 <= rect.h,
    ;
}

/// Restoring a snapshot puts its cells back where they were and leaves all others.
pub proof fn restoring_puts_cells_back(
    cells: Seq<u32>,
    width: u32,
    height: u32,
    snap: SnapshotModel,
    x: int,
    y: int,
)
    requires
        cells.len() == width * height,
        0 <= x < width,
        0 <= y < height,
    ensures
        restored(cells, width as int, snap).len() == cells.len(),
        restored(cells, width as int, snap)[y * width + x] == if snap.rect.x0 <= x < snap.rect.x0
            + snap.rect.w && snap.rect.y0 <= y < snap.rect.y0 + snap.rect.h {
            snap.cells[(y - snap.rect.y0) * snap.rect.w + (x - snap.rect.x0)]
        } else {
            cells[y * width + x]
        },
{
    crate::map::lemma_cell_index(x, y, width as int, height as int);
    vstd::arithmetic::div_mod::lemma_fundamental_div_mod_converse(
        y * width + x,
        width as int,
        y,
        x,
    );
}

} // verus!
