//! Freedraw omit/include zones — the surface-agnostic masking core.
//!
//! A zone is a closed polygon in cell space that acts as a spatial XY
//! cookie-cutter on the export, independent of height. [`rasterize`] turns a set
//! of zones into a row-major keep-mask the mesher consumes.
//!
//! Combine rule, per cell: `keep = (inside_any_include || no_include_zones) &&
//! !inside_any_omit`. Omit wins on overlap; an empty zone set keeps everything.
//!
//! Coordinates are fixed-point: [`SUBCELLS`] to the cell, so that on which side of an edge a cell
//! lies is decided exactly.
use vstd::prelude::*;

verus! {

/// Coordinate units per cell.
pub const SUBCELLS: i32 = 256;

/// Whether a zone cuts a hole (`Omit`) or restricts the export to its interior
/// (`Include`).
#[derive(Clone, Copy, PartialEq, Eq, Debug, Structural)]
pub enum ZoneMode {
    Omit,
    Include,
}

/// A closed polygon mask. `polygon` holds vertices in cell space, in units of `1 / SUBCELLS` cell;
/// the closing edge (last → first) is implicit. Fewer than 3
/// vertices is degenerate and contains nothing.
#[derive(Debug)]
pub struct Zone {
    pub mode: ZoneMode,
    pub polygon: Vec<(i32, i32)>,
}

/// The contents of a zone.
pub struct ZoneModel {
    pub mode: ZoneMode,
    pub polygon: Seq<(i32, i32)>,
}

impl View for Zone {
    type V = ZoneModel;

    open spec fn view(&self) -> ZoneModel {
        ZoneModel { mode: self.mode, polygon: self.polygon@ }
    }
}

/// The contents of a list of zones.
pub open spec fn zone_models(zones: Seq<Zone>) -> Seq<ZoneModel> {
    Seq::new(zones.len(), |i: int| zones[i]@)
}

/// A ray from `(px, py)` toward larger `x` crosses the edge from `a` to `b`: the edge spans the
/// ray's height, by the half-open rule that a vertex at that height counts as below it, and meets
/// it to the right of the point.
pub open spec fn crosses(a: (i32, i32), b: (i32, i32), px: int, py: int) -> bool {
    &&& (a.1 > py) != (b.1 > py)
    &&& if b.1 > a.1 {
        (px - a.0) * (b.1 - a.1) < (b.0 - a.0) * (py - a.1)
    } else {
        (px - a.0) * (b.1 - a.1) > (b.0 - a.0) * (py - a.1)
    }
}

/// Number of the first `n` edges that the ray crosses; edge `i` ends in vertex `i`.
pub open spec fn crossings(poly: Seq<(i32, i32)>, px: int, py: int, n: int) -> int
    decreases n,
{
    if n <= 0 {
        0
    } else {
        let from = if n == 1 {
            poly.last()
        } else {
            poly[n - 2]
        };
        crossings(poly, px, py, n - 1) + if crosses(poly[n - 1], from, px, py) {
            1int
        } else {
            0
        }
    }
}

/// The polygon holds the point: a ray from it crosses an odd number of edges.
pub open spec fn encloses(poly: Seq<(i32, i32)>, px: int, py: int) -> bool {
    poly.len() >= 3 && crossings(poly, px, py, poly.len() as int) % 2 == 1
}

/// Coordinate of the center of cell `c`, which starts at `c * SUBCELLS`.
pub open spec fn center(c: int) -> int {
    c * 256 + 128
}

/// Some zone of the mode holds the center of the cell.
pub open spec fn in_any(zones: Seq<ZoneModel>, mode: ZoneMode, x: int, y: int) -> bool {
    exists|i: int|
        0 <= i < zones.len() && (#[trigger] zones[i]).mode == mode && encloses(
            zones[i].polygon,
            center(x),
            center(y),
        )
}

/// Some zone has the mode.
pub open spec fn has_mode(zones: Seq<ZoneModel>, mode: ZoneMode) -> bool {
    exists|i: int| 0 <= i < zones.len() && (#[trigger] zones[i]).mode == mode
}

/// The cell is exported: it lies in an include zone, where there are any, and in no omit zone.
pub open spec fn keeps(zones: Seq<ZoneModel>, x: int, y: int) -> bool {
    (in_any(zones, ZoneMode::Include, x, y) || !has_mode(zones, ZoneMode::Include)) && !in_any(
        zones,
        ZoneMode::Omit,
        x,
        y,
    )
}

fn edge_crosses(a: (i32, i32), b: (i32, i32), px: i64, py: i64) -> (c: bool)
    ensures
        c == crosses(a, b, px as int, py as int),
{
    if (a.1 as i64 > py) == (b.1 as i64 > py) {
        return false;
    }
    let rise: i128 = b.1 as i128 - a.1 as i128;
    let run: i128 = b.0 as i128 - a.0 as i128;
    let dx: i128 = px as i128 - a.0 as i128;
    let dy: i128 = py as i128 - a.1 as i128;
    proof {
        assert(-0x1_0000_0000_0000_0000 * 0x1_0000_0000 <= dx * rise <= 0x1_0000_0000_0000_0000
            * 0x1_0000_0000) by (nonlinear_arith)
            requires
                -0x1_0000_0000_0000_0000 <= dx <= 0x1_0000_0000_0000_0000,
                -0x1_0000_0000 <= rise <= 0x1_0000_0000,
        ;
        assert(-0x1_0000_0000_0000_0000 * 0x1_0000_0000 <= run * dy <= 0x1_0000_0000_0000_0000
            * 0x1_0000_0000) by (nonlinear_arith)
            requires
                -0x1_0000_0000_0000_0000 <= dy <= 0x1_0000_0000_0000_0000,
                -0x1_0000_0000 <= run <= 0x1_0000_0000,
        ;
    }
    if rise > 0 {
        dx * rise < run * dy
    } else {
        dx * rise > run * dy
    }
}

/// Even-odd ray-cast point-in-polygon. The strict `>`
/// y-comparison gives a half-open edge convention: a point lying exactly on a
/// shared edge is claimed by exactly one of two abutting polygons, so adjacent
/// zones tile every cell once with no gap or double-count. A polygon with fewer
/// than 3 vertices encloses no area.
pub fn point_in_polygon(px: i64, py: i64, poly: &Vec<(i32, i32)>) -> (inside: bool)
    ensures
        inside == encloses(poly@, px as int, py as int),
{
    if poly.len() < 3 {
        return false;
    }
    let mut inside: bool = false;
    let mut from: (i32, i32) = poly[poly.len() - 1];
    let mut i: usize = 0;
    while i < poly.len()
        invariant
            poly@.len() >= 3,
            i <= poly@.len(),
            from == if i == 0 {
                poly@.last()
            } else {
                poly@[i - 1]
            },
            inside == (crossings(poly@, px as int, py as int, i as int) % 2 == 1),
        decreases poly@.len() - i,
    {
        let to: (i32, i32) = poly[i];
        if edge_crosses(to, from, px, py) {
            inside = !inside;
        }
        from = to;
        i = i + 1;
    }
    inside
}

/// Index of the vertex after vertex `i` of a loop of `n`.
pub open spec fn after(i: int, n: int) -> int {
    if i + 1 == n {
        0
    } else {
        i + 1
    }
}

/// How a path turns at `b` on its way from `a` to `c`: twice the signed area that the three span.
pub open spec fn turn(a: (i32, i32), b: (i32, i32), c: (i32, i32)) -> int {
    (b.0 - a.0) * (c.1 - b.1) - (b.1 - a.1) * (c.0 - b.0)
}

/// The turn of a loop after its vertex `i`.
pub open spec fn loop_turn(poly: Seq<(i32, i32)>, i: int) -> int {
    let j = after(i, poly.len() as int);
    turn(poly[i], poly[j], poly[after(j, poly.len() as int)])
}

/// All turns of the loop go the same way; a loop of fewer than 3 vertices has none.
pub open spec fn turns_one_way(poly: Seq<(i32, i32)>) -> bool {
    poly.len() >= 3 && ((forall|i: int| 0 <= i < poly.len() ==> #[trigger] loop_turn(poly, i) >= 0)
        || (forall|i: int| 0 <= i < poly.len() ==> #[trigger] loop_turn(poly, i) <= 0))
}

fn turn_of(a: (i32, i32), b: (i32, i32), c: (i32, i32)) -> (t: i128)
    ensures
        t == turn(a, b, c),
{
    let (run, rise): (i128, i128) = (b.0 as i128 - a.0 as i128, b.1 as i128 - a.1 as i128);
    let (dx, dy): (i128, i128) = (c.0 as i128 - b.0 as i128, c.1 as i128 - b.1 as i128);
    proof {
        assert(-0x1_0000_0000 * 0x1_0000_0000 <= run * dy <= 0x1_0000_0000 * 0x1_0000_0000)
            by (nonlinear_arith)
            requires
                -0x1_0000_0000 <= run <= 0x1_0000_0000,
                -0x1_0000_0000 <= dy <= 0x1_0000_0000,
        ;
        assert(-0x1_0000_0000 * 0x1_0000_0000 <= rise * dx <= 0x1_0000_0000 * 0x1_0000_0000)
            by (nonlinear_arith)
            requires
                -0x1_0000_0000 <= rise <= 0x1_0000_0000,
                -0x1_0000_0000 <= dx <= 0x1_0000_0000,
        ;
    }
    run * dy - rise * dx
}

/// Whether a loop can be filled as a fan: all its turns go the same way. A fan over any other loop
/// would tint the opposite of what it masks.
pub fn is_convex(poly: &Vec<(i32, i32)>) -> (convex: bool)
    ensures
        convex == turns_one_way(poly@),
{
    let n: usize = poly.len();
    if n < 3 {
        return false;
    }
    let mut left: bool = false;
    let mut right: bool = false;
    let mut i: usize = 0;
    while i < n
        invariant
            n == poly@.len() >= 3,
            i <= n,
            left <==> exists|k: int| 0 <= k < i && #[trigger] loop_turn(poly@, k) > 0,
            right <==> exists|k: int| 0 <= k < i && #[trigger] loop_turn(poly@, k) < 0,
        decreases n - i,
    {
        let j: usize = if i + 1 == n {
            0
        } else {
            i + 1
        };
        let k: usize = if j + 1 == n {
            0
        } else {
            j + 1
        };
        let t: i128 = turn_of(poly[i], poly[j], poly[k]);
        assert(t == loop_turn(poly@, i as int));
        if t > 0 {
            left = true;
        } else if t < 0 {
            right = true;
        }
        i = i + 1;
    }
    !(left && right)
}

fn is_inside_any(zones: &Vec<Zone>, mode: ZoneMode, x: u32, y: u32) -> (b: bool)
    ensures
        b == in_any(zone_models(zones@), mode, x as int, y as int),
{
    let px: i64 = x as i64 * 256 + 128;
    let py: i64 = y as i64 * 256 + 128;
    let ghost models: Seq<ZoneModel> = zone_models(zones@);
    let mut i: usize = 0;
    while i < zones.len()
        invariant
            i <= zones@.len(),
            models == zone_models(zones@),
            px == center(x as int),
            py == center(y as int),
            forall|j: int|
                0 <= j < i ==> !((#[trigger] models[j]).mode == mode && encloses(
                    models[j].polygon,
                    px as int,
                    py as int,
                )),
        decreases zones@.len() - i,
    {
        let zone: &Zone = &zones[i];
        assert(models[i as int] == zone@);
        if zone.mode == mode && point_in_polygon(px, py, &zone.polygon) {
            return true;
        }
        i = i + 1;
    }
    false
}

fn is_any_of(zones: &Vec<Zone>, mode: ZoneMode) -> (b: bool)
    ensures
        b == has_mode(zone_models(zones@), mode),
{
    let ghost models: Seq<ZoneModel> = zone_models(zones@);
    let mut i: usize = 0;
    while i < zones.len()
        invariant
            i <= zones@.len(),
            models == zone_models(zones@),
            forall|j: int| 0 <= j < i ==> (#[trigger] models[j]).mode != mode,
        decreases zones@.len() - i,
    {
        assert(models[i as int] == zones@[i as int]@);
        if zones[i].mode == mode {
            return true;
        }
        i = i + 1;
    }
    false
}

/// The mask tells of each cell, row by row, whether it is exported.
pub open spec fn is_keep_mask(zones: Seq<ZoneModel>, width: u32, height: u32, mask: Seq<bool>) -> bool {
    mask == Seq::new(
        (width * height) as nat,
        |i: int| keeps(zones, i % width as int, i / width as int),
    )
}

/// Row-major (`width * height`) keep-mask: `true` = export this cell. Each cell
/// is classified at its center.
pub fn rasterize(zones: &Vec<Zone>, width: u32, height: u32) -> (mask: Vec<bool>)
    requires
        width * height <= usize::MAX,
    ensures
        mask@ == Seq::new(
            (width * height) as nat,
            |i: int| keeps(zone_models(zones@), i % width as int, i / width as int),
        ),
        is_keep_mask(zone_models(zones@), width, height, mask@),
{
    let has_include: bool = is_any_of(zones, ZoneMode::Include);
    let ghost models: Seq<ZoneModel> = zone_models(zones@);
    let ghost want: Seq<bool> = Seq::new(
        (width * height) as nat,
        |i: int| keeps(models, i % width as int, i / width as int),
    );
    let mut mask: Vec<bool> = Vec::new();
    let mut y: u32 = 0;
    proof {
        assert(0 <= width * height) by (nonlinear_arith)
            requires
                0 <= width,
                0 <= height,
        ;
        assert(0 * width == 0) by (nonlinear_arith);
    }
    while y < height
        invariant
            models == zone_models(zones@),
            has_include == has_mode(models, ZoneMode::Include),
            want == Seq::new(
                (width * height) as nat,
                |i: int| keeps(models, i % width as int, i / width as int),
            ),
            0 <= width * height,
            y <= height,
            mask@.len() == y * width,
            forall|i: int| 0 <= i < mask@.len() ==> #[trigger] mask@[i] == want[i],
        decreases height - y,
    {
        let mut x: u32 = 0;
        while x < width
            invariant
                models == zone_models(zones@),
                has_include == has_mode(models, ZoneMode::Include),
                want == Seq::new(
                    (width * height) as nat,
                    |i: int| keeps(models, i % width as int, i / width as int),
                ),
                0 <= width * height,
                y < height,
                x <= width,
                mask@.len() == y * width + x,
                forall|i: int| 0 <= i < mask@.len() ==> #[trigger] mask@[i] == want[i],
            decreases width - x,
        {
            let in_include: bool = is_inside_any(zones, ZoneMode::Include, x, y);
            let in_omit: bool = is_inside_any(zones, ZoneMode::Omit, x, y);
            proof {
                crate::map::lemma_cell_index(x as int, y as int, width as int, height as int);
                vstd::arithmetic::div_mod::lemma_fundamental_div_mod_converse(
                    y * width + x,
                    width as int,
                    y as int,
                    x as int,
                );
            }
            mask.push((in_include || !has_include) && !in_omit);
            x = x + 1;
        }
        assert((y + 1) * width == y * width + width) by (nonlinear_arith);
        y = y + 1;
    }
    proof {
        vstd::arithmetic::mul::lemma_mul_is_commutative(width as int, height as int);
        assert(mask@ =~= want);
    }
    mask
}

/// A mask has one entry for each cell, in the order of rows and then of columns.
pub proof fn masks_go_row_by_row(
    zones: Seq<ZoneModel>,
    width: u32,
    height: u32,
    mask: Seq<bool>,
    x: int,
    y: int,
)
    requires
        is_keep_mask(zones, width, height, mask),
        0 <= x < width,
        0 <= y < height,
    ensures
        mask.len() == width * height,
        0 <= y * width + x < mask.len(),
        mask[y * width + x] == keeps(zones, x, y),
{
    crate::map::lemma_cell_index(x, y, width as int, height as int);
    vstd::arithmetic::div_mod::lemma_fundamental_div_mod_converse(
        y * width + x,
        width as int,
        y,
        x,
    );
}

/// Without zones every cell is kept.
pub proof fn no_zones_keep_everything(x: int, y: int)
    ensures
        keeps(Seq::empty(), x, y),
{
}

/// Omit wins on overlap: a cell in an omit zone is dropped, whatever includes it.
pub proof fn omit_wins(zones: Seq<ZoneModel>, x: int, y: int)
    requires
        in_any(zones, ZoneMode::Omit, x, y),
    ensures
        !keeps(zones, x, y),
{
}

/// A degenerate loop, of fewer than three vertices, holds no cell; one alone that includes keeps
/// nothing, and one that omits drops nothing.
pub proof fn degenerate_zone_holds_nothing(zone: ZoneModel, x: int, y: int)
    requires
        zone.polygon.len() < 3,
    ensures
        keeps(seq![zone], x, y) == (zone.mode is Omit),
{
    let zones = seq![zone];
    assert(zones[0] == zone);
}

/// An edge is crossed alike from both sides: walking it one way or the other makes no difference,
/// so two loops that share an edge agree on which points lie beyond it, and a point on the edge
/// falls to exactly one of them.
pub proof fn shared_edge_is_crossed_alike(a: (i32, i32), b: (i32, i32), px: int, py: int)
    ensures
        crosses(a, b, px, py) == crosses(b, a, px, py),
{
    if (a.1 > py) != (b.1 > py) {
        let (ax, ay, bx, by) = (a.0 as int, a.1 as int, b.0 as int, b.1 as int);
        assert((px - ax) * (by - ay) - (bx - ax) * (py - ay) == -((px - bx) * (ay - by) - (ax - bx)
            * (py - by))) by (nonlinear_arith);
    }
}

/// The corners of a rectangle.
pub open spec fn rectangle(x0: i32, y0: i32, x1: i32, y1: i32) -> Seq<(i32, i32)> {
    seq![(x0, y0), (x1, y0), (x1, y1), (x0, y1)]
}

/// Abutting zones tile the plane: of two rectangles that share an edge, every point of the two
/// together lies in exactly one, points on the shared edge as well.
pub proof fn abutting_rectangles_tile(x0: i32, x1: i32, y0: i32, mid: i32, y1: i32, px: int, py: int)
    requires
        x0 < x1,
        y0 < mid < y1,
    ensures
        encloses(rectangle(x0, y0, x1, y1), px, py) <==> encloses(
            rectangle(x0, y0, x1, mid),
            px,
            py,
        ) != encloses(rectangle(x0, mid, x1, y1), px, py),
{
    lemma_in_rectangle(x0, y0, x1, y1, px, py);
    lemma_in_rectangle(x0, y0, x1, mid, px, py);
    lemma_in_rectangle(x0, mid, x1, y1, px, py);
}

proof fn lemma_in_rectangle(x0: i32, y0: i32, x1: i32, y1: i32, px: int, py: int)
    requires
        x0 < x1,
        y0 < y1,
    ensures
        encloses(rectangle(x0, y0, x1, y1), px, py) <==> x0 <= px < x1 && y0 <= py < y1,
{
    let poly = rectangle(x0, y0, x1, y1);
    reveal_with_fuel(crossings, 5);
    lemma_upright(x0, y0, y1, px, py);
    lemma_upright(x1, y0, y1, px, py);
}

proof fn lemma_upright(x: i32, y0: i32, y1: i32, px: int, py: int)
    requires
        y0 < y1,
    ensures
        crosses((x, y0), (x, y1), px, py) <==> px < x && y0 <= py < y1,
        crosses((x, y1), (x, y0), px, py) <==> px < x && y0 <= py < y1,
{
    let up = y1 - y0;
    assert(0 * (py - y0) == 0 && 0 * (py - y1) == 0) by (nonlinear_arith);
    assert((px - x) * up < 0 <==> px < x) by (nonlinear_arith)
        requires
            up > 0,
    ;
    assert((px - x) * (-up) > 0 <==> px < x) by (nonlinear_arith)
        requires
            up > 0,
    ;
}

/// Every omit zone counts: a cell whose center lies in the polygon of any of them is dropped.
pub proof fn each_omit_zone_drops_its_cells(zones: Seq<ZoneModel>, k: int, x: int, y: int)
    requires
        0 <= k < zones.len(),
        zones[k].mode is Omit,
        encloses(zones[k].polygon, x * SUBCELLS + SUBCELLS / 2, y * SUBCELLS + SUBCELLS / 2),
    ensures
        !keeps(zones, x, y),
{
    assert(zones[k].mode == ZoneMode::Omit);
}

/// Every include zone counts: a cell whose center lies in the polygon of any of them, and in that of
/// no omit zone, is kept.
pub proof fn each_include_zone_keeps_its_cells(zones: Seq<ZoneModel>, k: int, x: int, y: int)
    requires
        0 <= k < zones.len(),
        zones[k].mode is Include,
        encloses(zones[k].polygon, x * SUBCELLS + SUBCELLS / 2, y * SUBCELLS + SUBCELLS / 2),
        forall|j: int|
            0 <= j < zones.len() && (#[trigger] zones[j]).mode is Omit ==> !encloses(
                zones[j].polygon,
                x * SUBCELLS + SUBCELLS / 2,
                y * SUBCELLS + SUBCELLS / 2,
            ),
    ensures
        keeps(zones, x, y),
{
    assert(zones[k].mode == ZoneMode::Include);
}

/// Where there is an include zone, a cell that lies in none of them is dropped; where there is none, a
/// cell that lies in no omit zone is kept.
pub proof fn cells_outside_all_zones(zones: Seq<ZoneModel>, x: int, y: int)
    requires
        forall|j: int|
            0 <= j < zones.len() ==> !encloses(
                (#[trigger] zones[j]).polygon,
                x * SUBCELLS + SUBCELLS / 2,
                y * SUBCELLS + SUBCELLS / 2,
            ),
    ensures
        keeps(zones, x, y) <==> forall|j: int|
            0 <= j < zones.len() ==> (#[trigger] zones[j]).mode is Omit,
{
    if !has_mode(zones, ZoneMode::Include) {
        assert forall|j: int| 0 <= j < zones.len() implies (#[trigger] zones[j]).mode is Omit by {
            assert(zones[j].mode != ZoneMode::Include);
        }
    }
}

/// One more omit zone drops exactly the cells that lie in it and brings none back.
pub proof fn adding_an_omit_zone(zones: Seq<ZoneModel>, zone: ZoneModel, x: int, y: int)
    requires
        zone.mode is Omit,
    ensures
        keeps(zones.push(zone), x, y) == (keeps(zones, x, y) && !encloses(
            zone.polygon,
            x * SUBCELLS + SUBCELLS / 2,
            y * SUBCELLS + SUBCELLS / 2,
        )),
{
    lemma_in_more(zones, zone, ZoneMode::Omit, x, y);
    lemma_in_more(zones, zone, ZoneMode::Include, x, y);
}

/// One more include zone, beside others, drops no cell and brings back no cell outside it; the first
/// one restricts what was kept to the cells that lie in it.
pub proof fn adding_an_include_zone(zones: Seq<ZoneModel>, zone: ZoneModel, x: int, y: int)
    requires
        zone.mode is Include,
    ensures
        ({
            let inside = encloses(
                zone.polygon,
                x * SUBCELLS + SUBCELLS / 2,
                y * SUBCELLS + SUBCELLS / 2,
            );
            let now = keeps(zones.push(zone), x, y);
            &&& (exists|j: int| 0 <= j < zones.len() && (#[trigger] zones[j]).mode is Include) ==> {
                &&& keeps(zones, x, y) ==> now
                &&& !inside ==> now == keeps(zones, x, y)
            }
            &&& !(exists|j: int| 0 <= j < zones.len() && (#[trigger] zones[j]).mode is Include)
                ==> now == (keeps(zones, x, y) && inside)
        }),
{
    lemma_in_more(zones, zone, ZoneMode::Omit, x, y);
    lemma_in_more(zones, zone, ZoneMode::Include, x, y);
    assert(has_mode(zones, ZoneMode::Include) <==> exists|j: int|
        0 <= j < zones.len() && (#[trigger] zones[j]).mode is Include) by {
        if exists|j: int| 0 <= j < zones.len() && (#[trigger] zones[j]).mode is Include {
            let j = choose|j: int| 0 <= j < zones.len() && (#[trigger] zones[j]).mode is Include;
            assert(zones[j].mode == ZoneMode::Include);
        }
    }
}

proof fn lemma_in_more(zones: Seq<ZoneModel>, zone: ZoneModel, mode: ZoneMode, x: int, y: int)
    ensures
        in_any(zones.push(zone), mode, x, y) == (in_any(zones, mode, x, y) || (zone.mode == mode
            && encloses(zone.polygon, center(x), center(y)))),
        has_mode(zones.push(zone), mode) == (has_mode(zones, mode) || zone.mode == mode),
{
    let more = zones.push(zone);
    assert(more[zones.len() as int] == zone);
    assert forall|i: int| 0 <= i < zones.len() implies more[i] == #[trigger] zones[i] by {}
    if in_any(zones, mode, x, y) {
        let i = choose|i: int|
            0 <= i < zones.len() && (#[trigger] zones[i]).mode == mode && encloses(
                zones[i].polygon,
                center(x),
                center(y),
            );
        assert(more[i].mode == mode);
    }
    if has_mode(zones, mode) {
        let i = choose|i: int| 0 <= i < zones.len() && (#[trigger] zones[i]).mode == mode;
        assert(more[i].mode == mode);
    }
}

/// The order of the zones makes no difference: lists in which the same zones occur, at whatever
/// places and however often, keep the same cells.
pub proof fn zone_order_makes_no_difference(a: Seq<ZoneModel>, b: Seq<ZoneModel>, x: int, y: int)
    requires
        forall|i: int| 0 <= i < a.len() ==> b.contains(#[trigger] a[i]),
        forall|i: int| 0 <= i < b.len() ==> a.contains(#[trigger] b[i]),
    ensures
        keeps(a, x, y) == keeps(b, x, y),
{
    lemma_in_other(a, b, x, y);
    lemma_in_other(b, a, x, y);
}

proof fn lemma_in_other(a: Seq<ZoneModel>, b: Seq<ZoneModel>, x: int, y: int)
    requires
        forall|i: int| 0 <= i < a.len() ==> b.contains(#[trigger] a[i]),
    ensures
        forall|mode: ZoneMode| #[trigger] in_any(a, mode, x, y) ==> in_any(b, mode, x, y),
        forall|mode: ZoneMode| #[trigger] has_mode(a, mode) ==> has_mode(b, mode),
{
    assert forall|mode: ZoneMode| #[trigger] in_any(a, mode, x, y) implies in_any(b, mode, x, y) by {
        let i = choose|i: int|
            0 <= i < a.len() && (#[trigger] a[i]).mode == mode && encloses(
                a[i].polygon,
                center(x),
                center(y),
            );
        assert(b.contains(a[i]));
        let j = choose|j: int| 0 <= j < b.len() && b[j] == a[i];
        assert(b[j].mode == mode);
    }
    assert forall|mode: ZoneMode| #[trigger] has_mode(a, mode) implies has_mode(b, mode) by {
        let i = choose|i: int| 0 <= i < a.len() && (#[trigger] a[i]).mode == mode;
        assert(b.contains(a[i]));
        let j = choose|j: int| 0 <= j < b.len() && b[j] == a[i];
        assert(b[j].mode == mode);
    }
}

/// A rectangle holds the points between its sides, those on its left and its upper side included.
pub proof fn rectangle_holds_its_inside(x0: i32, y0: i32, x1: i32, y1: i32, px: int, py: int)
    requires
        x0 < x1,
        y0 < y1,
    ensures
        encloses(rectangle(x0, y0, x1, y1), px, py) <==> x0 <= px < x1 && y0 <= py < y1,
{
    lemma_in_rectangle(x0, y0, x1, y1, px, py);
}

/// Cutting a corner off a loop splits what it holds between the rest and the corner: a point lies in
/// the loop where it lies in exactly one of the two.
pub proof fn cutting_a_corner_splits_the_loop(poly: Seq<(i32, i32)>, px: int, py: int)
    requires
        poly.len() >= 4,
    ensures
        encloses(poly, px, py) == (encloses(poly.drop_last(), px, py) != encloses(
            seq![poly[0], poly[poly.len() - 2], poly[poly.len() - 1]],
            px,
            py,
        )),
{
    let n = poly.len() as int;
    let rest = poly.drop_last();
    let corner = seq![poly[0], poly[n - 2], poly[n - 1]];
    reveal_with_fuel(crossings, 4);
    lemma_crossings_tail(poly, rest, px, py, n - 1);
    shared_edge_is_crossed_alike(poly[0], poly[n - 2], px, py);
    shared_edge_is_crossed_alike(poly[0], poly[n - 1], px, py);
    shared_edge_is_crossed_alike(poly[n - 1], poly[n - 2], px, py);
}

proof fn lemma_crossings_tail(
    a: Seq<(i32, i32)>,
    b: Seq<(i32, i32)>,
    px: int,
    py: int,
    n: int,
)
    requires
        1 <= n <= a.len(),
        n <= b.len(),
        forall|i: int| 0 <= i < n ==> a[i] == b[i],
    ensures
        crossings(a, px, py, n) - crossings(a, px, py, 1) == crossings(b, px, py, n) - crossings(
            b,
            px,
            py,
            1,
        ),
    decreases n,
{
    if n > 1 {
        lemma_crossings_tail(a, b, px, py, n - 1);
    }
}

/// Where a loop starts makes no difference to what it holds: it may as well start at the next vertex.
pub proof fn loops_may_start_anywhere(poly: Seq<(i32, i32)>, px: int, py: int)
    requires
        poly.len() >= 1,
    ensures
        encloses(poly.drop_first().push(poly[0]), px, py) == encloses(poly, px, py),
{
    let n = poly.len() as int;
    let turned = poly.drop_first().push(poly[0]);
    assert(turned.len() == n);
    reveal_with_fuel(crossings, 2);
    if n >= 3 {
        lemma_crossings_shift(poly, turned, px, py, n - 1);
    }
}

proof fn lemma_crossings_shift(
    poly: Seq<(i32, i32)>,
    turned: Seq<(i32, i32)>,
    px: int,
    py: int,
    n: int,
)
    requires
        1 <= n < poly.len(),
        turned.len() == poly.len(),
        turned.last() == poly[0],
        forall|i: int| 0 <= i < poly.len() - 1 ==> #[trigger] turned[i] == poly[i + 1],
    ensures
        crossings(turned, px, py, n) == crossings(poly, px, py, n + 1) - crossings(poly, px, py, 1),
    decreases n,
{
    reveal_with_fuel(crossings, 2);
    assert(turned[n - 1] == poly[n]);
    if n > 1 {
        assert(turned[n - 2] == poly[n - 1]);
        lemma_crossings_shift(poly, turned, px, py, n - 1);
    }
}

/// A triangle holds the points on the inner side of its three edges and no point beyond one of them.
pub proof fn triangle_holds_its_inside(
    a: (i32, i32),
    b: (i32, i32),
    c: (i32, i32),
    px: int,
    py: int,
)
    requires
        side(a, b, c.0 as int, c.1 as int) > 0,
    ensures
        side(a, b, px, py) > 0 && side(b, c, px, py) > 0 && side(c, a, px, py) > 0 ==> encloses(
            seq![a, b, c],
            px,
            py,
        ),
        side(a, b, px, py) < 0 || side(b, c, px, py) < 0 || side(c, a, px, py) < 0 ==> !encloses(
            seq![a, b, c],
            px,
            py,
        ),
{
    let poly = seq![a, b, c];
    reveal_with_fuel(crossings, 4);
    lemma_crosses_by_side(c, a, px, py);
    lemma_crosses_by_side(a, b, px, py);
    lemma_crosses_by_side(b, c, px, py);
    shared_edge_is_crossed_alike(a, b, px, py);
    shared_edge_is_crossed_alike(b, c, px, py);
    shared_edge_is_crossed_alike(c, a, px, py);
    lemma_sides_balance(a, b, c, px, py);
}

/// On which side of the line from `a` to `b` a point lies: the sign tells the side, and 0 the line.
pub open spec fn side(a: (i32, i32), b: (i32, i32), px: int, py: int) -> int {
    (b.0 - a.0) * (py - a.1) - (b.1 - a.1) * (px - a.0)
}

/// An edge that goes up is crossed by the ray from the points on its positive side, one that goes down
/// by the ray from those on its negative side.
proof fn lemma_crosses_by_side(a: (i32, i32), b: (i32, i32), px: int, py: int)
    ensures
        a.1 <= py < b.1 ==> (crosses(a, b, px, py) <==> side(a, b, px, py) > 0),
        b.1 <= py < a.1 ==> (crosses(a, b, px, py) <==> side(a, b, px, py) < 0),
        !(a.1 <= py < b.1) && !(b.1 <= py < a.1) ==> !crosses(a, b, px, py),
{
    vstd::arithmetic::mul::lemma_mul_is_commutative(px - a.0, b.1 - a.1);
}

/// The sides that a point lies on of the three lines of a triangle add up to the triangle's own, and
/// weigh the corners so that their heights over the point cancel out.
proof fn lemma_sides_balance(a: (i32, i32), b: (i32, i32), c: (i32, i32), px: int, py: int)
    ensures
        ({
            let (ab, bc, ca) = (side(a, b, px, py), side(b, c, px, py), side(c, a, px, py));
            &&& ab + bc + ca == side(a, b, c.0 as int, c.1 as int)
            &&& bc * (a.1 - py) + ca * (b.1 - py) + ab * (c.1 - py) == 0
        }),
        product_signs(side(b, c, px, py), a.1 - py),
        product_signs(side(c, a, px, py), b.1 - py),
        product_signs(side(a, b, px, py), c.1 - py),
        a.1 == b.1 && b.1 == c.1 ==> side(a, b, c.0 as int, c.1 as int) == 0,
{
    let (ax, ay) = (a.0 - px, a.1 - py);
    let (bx, by) = (b.0 - px, b.1 - py);
    let (cx, cy) = (c.0 - px, c.1 - py);
    lemma_side_about(a, b, px, py);
    lemma_side_about(b, c, px, py);
    lemma_side_about(c, a, px, py);
    assert(side(a, b, c.0 as int, c.1 as int) == (bx - ax) * (cy - ay) - (by - ay) * (cx - ax));
    assert((bx - ax) * (cy - ay) - (by - ay) * (cx - ax) == (ax * by - bx * ay) + (bx * cy - cx
        * by) + (cx * ay - ax * cy)) by (nonlinear_arith);
    assert((bx * cy - cx * by) * ay + (cx * ay - ax * cy) * by + (ax * by - bx * ay) * cy == 0)
        by (nonlinear_arith);
    lemma_signs(side(b, c, px, py), a.1 - py);
    lemma_signs(side(c, a, px, py), b.1 - py);
    lemma_signs(side(a, b, px, py), c.1 - py);
}

proof fn lemma_side_about(a: (i32, i32), b: (i32, i32), px: int, py: int)
    ensures
        side(a, b, px, py) == (a.0 - px) * (b.1 - py) - (b.0 - px) * (a.1 - py),
{
    let (ax, ay, bx, by) = (a.0 - px, a.1 - py, b.0 - px, b.1 - py);
    assert((bx - ax) * (-ay) - (by - ay) * (-ax) == ax * by - bx * ay) by (nonlinear_arith);
}

/// How the sign of a product follows from those of its factors.
spec fn product_signs(s: int, u: int) -> bool {
    &&& s > 0 && u > 0 ==> s * u > 0
    &&& s >= 0 && u > 0 ==> s * u >= 0
    &&& s >= 0 && u <= 0 ==> s * u <= 0
    &&& s > 0 && u < 0 ==> s * u < 0
    &&& s < 0 && u > 0 ==> s * u < 0
    &&& s <= 0 && u > 0 ==> s * u <= 0
    &&& s <= 0 && u <= 0 ==> s * u >= 0
}

proof fn lemma_signs(s: int, u: int)
    by (nonlinear_arith)
    ensures
        s > 0 && u > 0 ==> s * u > 0,
        s >= 0 && u > 0 ==> s * u >= 0,
        s >= 0 && u <= 0 ==> s * u <= 0,
        s > 0 && u < 0 ==> s * u < 0,
        s < 0 && u > 0 ==> s * u < 0,
        s <= 0 && u > 0 ==> s * u <= 0,
        s <= 0 && u <= 0 ==> s * u >= 0,
{
}

/// A loop can be filled as a fan where it never turns both ways: not where it turns left after one vertex
/// and right after another, and always where it is a triangle.
pub proof fn convex_loops_turn_one_way(poly: Seq<(i32, i32)>, i: int, j: int)
    requires
        poly.len() >= 3,
        0 <= i < poly.len(),
        0 <= j < poly.len(),
    ensures
        ({
            let n = poly.len() as int;
            let (a, b, c) = (poly[i], poly[(i + 1) % n], poly[(i + 2) % n]);
            let (d, e, f) = (poly[j], poly[(j + 1) % n], poly[(j + 2) % n]);
            side(a, b, c.0 as int, c.1 as int) > 0 && side(d, e, f.0 as int, f.1 as int) < 0
                ==> !turns_one_way(poly)
        }),
        poly.len() == 3 ==> turns_one_way(poly),
{
    let n = poly.len() as int;
    lemma_turn_is_side(poly, i);
    lemma_turn_is_side(poly, j);
    if n == 3 {
        lemma_turn_is_side(poly, 0);
        lemma_turn_is_side(poly, 1);
        lemma_turn_is_side(poly, 2);
        let (a, b, c) = (poly[0], poly[1], poly[2]);
        lemma_side_turns(a, b, c);
        lemma_side_turns(b, c, a);
        assert(loop_turn(poly, 0) == loop_turn(poly, 1) == loop_turn(poly, 2));
    }
}

proof fn lemma_turn_is_side(poly: Seq<(i32, i32)>, i: int)
    requires
        poly.len() >= 3,
        0 <= i < poly.len(),
    ensures
        ({
            let n = poly.len() as int;
            let c = poly[(i + 2) % n];
            loop_turn(poly, i) == side(poly[i], poly[(i + 1) % n], c.0 as int, c.1 as int)
        }),
{
    let n = poly.len() as int;
    let j = after(i, n);
    let k = after(j, n);
    lemma_wrap(i + 1, n);
    lemma_wrap(i + 2, n);
    let (a, b, c) = (poly[i], poly[j], poly[k]);
    let (ax, ay, bx, by, cx, cy) = (
        a.0 as int,
        a.1 as int,
        b.0 as int,
        b.1 as int,
        c.0 as int,
        c.1 as int,
    );
    assert((bx - ax) * (cy - by) - (by - ay) * (cx - bx) == (bx - ax) * (cy - ay) - (by - ay) * (cx
        - ax)) by (nonlinear_arith);
}

/// A triangle spans the same area from each of its corners.
proof fn lemma_side_turns(a: (i32, i32), b: (i32, i32), c: (i32, i32))
    ensures
        side(a, b, c.0 as int, c.1 as int) == side(b, c, a.0 as int, a.1 as int),
{
    let (ax, ay, bx, by, cx, cy) = (
        a.0 as int,
        a.1 as int,
        b.0 as int,
        b.1 as int,
        c.0 as int,
        c.1 as int,
    );
    assert((bx - ax) * (cy - ay) - (by - ay) * (cx - ax) == (cx - bx) * (ay - by) - (cy - by) * (ax
        - bx)) by (nonlinear_arith);
}

proof fn lemma_wrap(i: int, n: int)
    requires
        0 < n,
        0 <= i < 2 * n,
    ensures
        i % n == if i < n {
            i
        } else {
            i - n
        },
{
    if i < n {
        vstd::arithmetic::div_mod::lemma_small_mod(i as nat, n as nat);
    } else {
        vstd::arithmetic::div_mod::lemma_fundamental_div_mod_converse(i, n, 1, i - n);
    }
}

} // verus!
