//! Paint-bucket fill.
use super::paint::PaintGrid;
use vstd::prelude::*;

verus! {

/// The cell lies in a grid of `w` columns and `h` rows.
pub open spec fn in_grid(w: int, h: int, c: (int, int)) -> bool {
    0 <= c.0 < w && 0 <= c.1 < h
}

/// The row-major marks mark the cell.
pub open spec fn marked(marks: Seq<bool>, w: int, c: (int, int)) -> bool {
    marks[c.1 * w + c.0]
}

/// The cells share an edge.
pub open spec fn adjacent(a: (int, int), b: (int, int)) -> bool {
    ||| a.1 == b.1 && (a.0 == b.0 + 1 || b.0 == a.0 + 1)
    ||| a.0 == b.0 && (a.1 == b.1 + 1 || b.1 == a.1 + 1)
}

/// A walk over marked cells in which each step crosses an edge.
pub open spec fn is_walk(marks: Seq<bool>, w: int, h: int, walk: Seq<(int, int)>) -> bool {
    &&& walk.len() > 0
    &&& forall|i: int|
        0 <= i < walk.len() ==> in_grid(w, h, #[trigger] walk[i]) && marked(marks, w, walk[i])
    &&& forall|i: int, j: int|
        0 <= i && j == i + 1 && j < walk.len() ==> adjacent(#[trigger] walk[i], #[trigger] walk[j])
}

/// A walk over marked cells leads from `start` to `c`.
pub open spec fn connected(
    marks: Seq<bool>,
    w: int,
    h: int,
    start: (int, int),
    c: (int, int),
) -> bool {
    exists|walk: Seq<(int, int)>| #[trigger]
        is_walk(marks, w, h, walk) && walk[0] == start && walk.last() == c
}

/// The cells that a fill from `start` matches: the marked cells, for a contiguous fill only those
/// in one 4-connected region with the start.
pub open spec fn fill_region(
    marks: Seq<bool>,
    w: int,
    h: int,
    start: (int, int),
    contiguous: bool,
) -> Set<(int, int)> {
    Set::new(
        |c: (int, int)|
            in_grid(w, h, c) && marked(marks, w, c) && (contiguous ==> connected(
                marks,
                w,
                h,
                start,
                c,
            )),
    )
}

/// A resolution block holds both the cell and a cell of the region.
pub open spec fn in_blocks_of(region: Set<(int, int)>, res: u32, c: (int, int)) -> bool {
    exists|f: (int, int)| #[trigger]
        region.contains(f) && super::paint::same_block(res, f, c)
}

/// The grid after `idx` was written into every block that a cell of the region lies in.
pub open spec fn is_filled(
    was: PaintGrid,
    now: PaintGrid,
    region: Set<(int, int)>,
    res: u32,
    idx: u8,
) -> bool {
    &&& now.wf()
    &&& now.same_shape(&was)
    &&& forall|a: int, b: int|
        was.covers(a, b) ==> #[trigger] now.cell(a, b) == if in_blocks_of(region, res, (a, b)) {
            idx
        } else {
            was.cell(a, b)
        }
}

pub(crate) proof fn lemma_fill_one(
    was: PaintGrid,
    before: PaintGrid,
    now: PaintGrid,
    region: Set<(int, int)>,
    res: u32,
    idx: u8,
    c: (int, int),
)
    requires
        is_filled(was, before, region, res, idx),
        now.wf(),
        now.same_shape(&before),
        forall|a: int, b: int|
            before.covers(a, b) ==> #[trigger] now.cell(a, b) == if super::paint::same_block(
                res,
                c,
                (a, b),
            ) {
                idx
            } else {
                before.cell(a, b)
            },
    ensures
        is_filled(was, now, region.insert(c), res, idx),
{
    assert forall|a: int, b: int| was.covers(a, b) implies #[trigger] now.cell(a, b)
        == if in_blocks_of(region.insert(c), res, (a, b)) {
        idx
    } else {
        was.cell(a, b)
    } by {
        assert(before.cell(a, b) == before.cell(a, b));
        let grown = region.insert(c);
        if super::paint::same_block(res, c, (a, b)) {
            assert(grown.contains(c));
        } else if in_blocks_of(region, res, (a, b)) {
            let f = choose|f: (int, int)| #[trigger]
                region.contains(f) && super::paint::same_block(res, f, (a, b));
            assert(grown.contains(f));
        } else if in_blocks_of(grown, res, (a, b)) {
            let f = choose|f: (int, int)| #[trigger]
                grown.contains(f) && super::paint::same_block(res, f, (a, b));
            assert(region.contains(f));
        }
    }
}

/// Number of cells that the flood has not seen yet.
spec fn unseen(visited: Seq<bool>) -> nat
    decreases visited.len(),
{
    if visited.len() == 0 {
        0
    } else {
        unseen(visited.drop_last()) + if visited.last() {
            0nat
        } else {
            1nat
        }
    }
}

proof fn lemma_unseen_update(visited: Seq<bool>, i: int)
    requires
        0 <= i < visited.len(),
        !visited[i],
    ensures
        unseen(visited) == unseen(visited.update(i, true)) + 1,
    decreases visited.len(),
{
    let after = visited.update(i, true);
    if i == visited.len() - 1 {
        assert(after.drop_last() =~= visited.drop_last());
    } else {
        assert(after.drop_last() =~= visited.drop_last().update(i, true));
        lemma_unseen_update(visited.drop_last(), i);
    }
}

spec fn cell_of(p: (u32, u32)) -> (int, int) {
    (p.0 as int, p.1 as int)
}

/// `order` lists the visited cells, each once.
spec fn lists_visited(visited: Seq<bool>, order: Seq<(u32, u32)>, w: int, h: int) -> bool {
    &&& visited.len() == w * h
    &&& forall|i: int| 0 <= i < order.len() ==> in_grid(w, h, cell_of(#[trigger] order[i]))
    &&& forall|i: int, j: int| 0 <= i < j < order.len() ==> #[trigger] order[i] != #[trigger] order[j]
    &&& forall|i: int| 0 <= i < order.len() ==> marked(visited, w, cell_of(#[trigger] order[i]))
    &&& forall|c: (int, int)|
        in_grid(w, h, c) && #[trigger] marked(visited, w, c) ==> order.contains(
            (c.0 as u32, c.1 as u32),
        )
}

/// Put a cell at the end of the list unless it is in the list already.
fn visit(visited: &mut Vec<bool>, order: &mut Vec<(u32, u32)>, w: u32, h: u32, x: u32, y: u32)
    requires
        lists_visited(old(visited)@, old(order)@, w as int, h as int),
        x < w,
        y < h,
    ensures
        lists_visited(final(visited)@, final(order)@, w as int, h as int),
        final(order)@ == old(order)@ || final(order)@ == old(order)@.push((x, y)),
        marked(final(visited)@, w as int, (x as int, y as int)),
        forall|c: (int, int)|
            in_grid(w as int, h as int, c) && #[trigger] marked(old(visited)@, w as int, c)
                ==> marked(final(visited)@, w as int, c),
        unseen(final(visited)@) + final(order)@.len() == unseen(old(visited)@)
            + old(order)@.len(),
{
    proof {
        crate::map::lemma_cell_index(x as int, y as int, w as int, h as int);
        assert(visited.len() <= usize::MAX);
    }
    let i: usize = y as usize * w as usize + x as usize;
    if !visited[i] {
        let ghost was: Seq<bool> = visited@;
        let ghost before: Seq<(u32, u32)> = order@;
        visited[i] = true;
        order.push((x, y));
        proof {
            lemma_unseen_update(was, i as int);
            let c = (x as int, y as int);
            assert(!marked(was, w as int, c));
            assert forall|d: (int, int)|
                in_grid(w as int, h as int, d) && #[trigger] marked(
                    was,
                    w as int,
                    d,
                ) implies marked(visited@, w as int, d) by {
                crate::map::lemma_cell_index(d.0, d.1, w as int, h as int);
            }
            assert forall|k: int| 0 <= k < order@.len() implies marked(
                visited@,
                w as int,
                cell_of(#[trigger] order@[k]),
            ) by {
                if k < before.len() {
                    assert(order@[k] == before[k]);
                }
            }
            assert forall|k: int, j: int| 0 <= k < j < order@.len() implies #[trigger] order@[k]
                != #[trigger] order@[j] by {
                assert(order@[k] == before[k]);
                if j == before.len() {
                    assert(marked(was, w as int, cell_of(before[k])));
                }
            }
            assert forall|d: (int, int)|
                in_grid(w as int, h as int, d) && #[trigger] marked(
                    visited@,
                    w as int,
                    d,
                ) implies order@.contains((d.0 as u32, d.1 as u32)) by {
                if d == c {
                    assert(order@[before.len() as int] == (x, y));
                } else {
                    crate::map::lemma_cell_index(d.0, d.1, w as int, h as int);
                    if d.1 * w + d.0 == i {
                        crate::map::lemma_cell_index_unique(
                            d.0,
                            d.1,
                            x as int,
                            y as int,
                            w as int,
                        );
                    }
                    assert(marked(was, w as int, d));
                    let k = before.index_of((d.0 as u32, d.1 as u32));
                    assert(order@[k] == before[k]);
                }
            }
        }
    }
}

/// What the flood has found so far: `done` holds the matching cells among the first `head` of the
/// list.
spec fn flood_state(
    marks: Seq<bool>,
    visited: Seq<bool>,
    order: Seq<(u32, u32)>,
    head: int,
    done: Set<(int, int)>,
    w: int,
    h: int,
    start: (int, int),
) -> bool {
    &&& lists_visited(visited, order, w, h)
    &&& marked(visited, w, start)
    &&& forall|c: (int, int)| #[trigger]
        done.contains(c) ==> in_grid(w, h, c) && connected(marks, w, h, start, c)
    &&& forall|c: (int, int)| #[trigger] done.contains(c) ==> is_among(order, head, c)
    &&& forall|i: int|
        0 <= i < head && marked(marks, w, cell_of(#[trigger] order[i])) ==> done.contains(
            cell_of(order[i]),
        )
    &&& forall|i: int|
        0 <= i < order.len() ==> cell_of(#[trigger] order[i]) == start || has_neighbor(
            done,
            cell_of(order[i]),
        )
}

#[verifier::opaque]
spec fn is_among(order: Seq<(u32, u32)>, head: int, c: (int, int)) -> bool {
    exists|i: int| 0 <= i < head && cell_of(#[trigger] order[i]) == c
}

#[verifier::opaque]
spec fn has_neighbor(done: Set<(int, int)>, c: (int, int)) -> bool {
    exists|d: (int, int)| #[trigger] done.contains(d) && adjacent(d, c)
}

/// Every neighbor of a cell in `done` has been visited.
spec fn is_closed(visited: Seq<bool>, done: Set<(int, int)>, w: int, h: int) -> bool {
    forall|d: (int, int), n: (int, int)| #[trigger]
        done.contains(d) && in_grid(w, h, n) && adjacent(d, n) ==> #[trigger] marked(visited, w, n)
}

proof fn lemma_connected_step(
    marks: Seq<bool>,
    w: int,
    h: int,
    start: (int, int),
    d: (int, int),
    c: (int, int),
)
    requires
        connected(marks, w, h, start, d),
        adjacent(d, c),
        in_grid(w, h, c),
        marked(marks, w, c),
    ensures
        connected(marks, w, h, start, c),
{
    let walk = choose|walk: Seq<(int, int)>| #[trigger]
        is_walk(marks, w, h, walk) && walk[0] == start && walk.last() == d;
    let longer = walk.push(c);
    assert forall|i: int, j: int| 0 <= i && j == i + 1 && j < longer.len() implies adjacent(
        #[trigger] longer[i],
        #[trigger] longer[j],
    ) by {
        if j < walk.len() {
            assert(longer[i] == walk[i] && longer[j] == walk[j]);
        } else {
            assert(longer[i] == walk.last());
        }
    }
    assert(is_walk(marks, w, h, longer));
    assert(longer.last() == c);
}

proof fn lemma_connected_start(marks: Seq<bool>, w: int, h: int, start: (int, int))
    requires
        in_grid(w, h, start),
        marked(marks, w, start),
    ensures
        connected(marks, w, h, start, start),
{
    let walk = seq![start];
    assert(is_walk(marks, w, h, walk));
    assert(walk.last() == start);
}

/// When nothing is left in the list, `done` holds every cell that a walk from the start reaches.
proof fn lemma_flood_complete(
    marks: Seq<bool>,
    visited: Seq<bool>,
    order: Seq<(u32, u32)>,
    done: Set<(int, int)>,
    w: int,
    h: int,
    start: (int, int),
    walk: Seq<(int, int)>,
    n: int,
)
    requires
        flood_state(marks, visited, order, order.len() as int, done, w, h, start),
        is_closed(visited, done, w, h),
        w <= u32::MAX,
        h <= u32::MAX,
        is_walk(marks, w, h, walk),
        walk[0] == start,
        0 <= n < walk.len(),
    ensures
        done.contains(walk[n]),
    decreases n,
{
    let c = walk[n];
    if n > 0 {
        lemma_flood_complete(marks, visited, order, done, w, h, start, walk, n - 1);
        assert(adjacent(walk[n - 1], walk[n]));
    }
    assert(marked(visited, w, c));
    let i = order.index_of((c.0 as u32, c.1 as u32));
    assert(cell_of(order[i]) == c);
}

/// The visited, the listed and the painted state after the cell at `head` was taken.
proof fn lemma_flood_step(
    marks: Seq<bool>,
    visited: Seq<bool>,
    order: Seq<(u32, u32)>,
    head: int,
    done: Set<(int, int)>,
    w: int,
    h: int,
    start: (int, int),
)
    requires
        flood_state(marks, visited, order, head, done, w, h, start),
        0 <= head < order.len(),
        in_grid(w, h, start),
    ensures
        !done.contains(cell_of(order[head])),
        marked(marks, w, cell_of(order[head])) ==> flood_state(
            marks,
            visited,
            order,
            head + 1,
            done.insert(cell_of(order[head])),
            w,
            h,
            start,
        ),
        !marked(marks, w, cell_of(order[head])) ==> flood_state(
            marks,
            visited,
            order,
            head + 1,
            done,
            w,
            h,
            start,
        ),
{
    let c = cell_of(order[head]);
    assert(!done.contains(c)) by {
        if done.contains(c) {
            assert(is_among(order, head, c));
            reveal(is_among);
            let i = choose|i: int| 0 <= i < head && cell_of(#[trigger] order[i]) == c;
            assert(order[i] != order[head]);
        }
    }
    assert forall|d: (int, int)| #[trigger] done.contains(d) implies is_among(
        order,
        head + 1,
        d,
    ) by {
        assert(is_among(order, head, d));
        reveal(is_among);
        let i = choose|i: int| 0 <= i < head && cell_of(#[trigger] order[i]) == d;
        assert(cell_of(order[i]) == d);
    }
    if marked(marks, w, c) {
        let grown = done.insert(c);
        assert(connected(marks, w, h, start, c)) by {
            if c == start {
                lemma_connected_start(marks, w, h, start);
            } else {
                assert(has_neighbor(done, c));
                reveal(has_neighbor);
                let d = choose|d: (int, int)| #[trigger] done.contains(d) && adjacent(d, c);
                lemma_connected_step(marks, w, h, start, d, c);
            }
        }
        assert forall|d: (int, int)| #[trigger] grown.contains(d) implies is_among(
            order,
            head + 1,
            d,
        ) by {
            if d == c {
                reveal(is_among);
                assert(cell_of(order[head]) == c);
            } else {
                assert(done.contains(d));
            }
        }
        assert forall|d: (int, int)| #[trigger] grown.contains(d) implies in_grid(w, h, d)
            && connected(marks, w, h, start, d) by {
            if d != c {
                assert(done.contains(d));
            }
        }
        assert forall|i: int| 0 <= i < order.len() implies cell_of(#[trigger] order[i]) == start
            || has_neighbor(grown, cell_of(order[i])) by {
            if cell_of(order[i]) != start {
                assert(has_neighbor(done, cell_of(order[i])));
                reveal(has_neighbor);
                let d = choose|d: (int, int)| #[trigger]
                    done.contains(d) && adjacent(d, cell_of(order[i]));
                assert(grown.contains(d));
            }
        }
        assert forall|i: int|
            0 <= i < head + 1 && marked(marks, w, cell_of(#[trigger] order[i])) implies grown.contains(
        cell_of(order[i])) by {
            if i < head {
                assert(done.contains(cell_of(order[i])));
            }
        }
    }
}

/// `order2` continues `order` with neighbors of the cell `c`.
spec fn extends_by_neighbors(
    order: Seq<(u32, u32)>,
    order2: Seq<(u32, u32)>,
    c: (int, int),
) -> bool {
    &&& order.len() <= order2.len()
    &&& forall|i: int| 0 <= i < order.len() ==> #[trigger] order2[i] == order[i]
    &&& forall|i: int|
        order.len() <= i < order2.len() ==> adjacent(c, cell_of(#[trigger] order2[i]))
}

/// Whatever was visited stays visited.
spec fn keeps_visited(visited: Seq<bool>, visited2: Seq<bool>, w: int, h: int) -> bool {
    forall|d: (int, int)|
        in_grid(w, h, d) && #[trigger] marked(visited, w, d) ==> marked(visited2, w, d)
}

/// Every neighbor of `c` has been visited.
spec fn neighbors_visited(visited: Seq<bool>, w: int, h: int, c: (int, int)) -> bool {
    forall|n: (int, int)|
        in_grid(w, h, n) && adjacent(c, n) ==> #[trigger] marked(visited, w, n)
}

fn visit_neighbors(
    visited: &mut Vec<bool>,
    order: &mut Vec<(u32, u32)>,
    w: u32,
    h: u32,
    x: u32,
    y: u32,
)
    requires
        lists_visited(old(visited)@, old(order)@, w as int, h as int),
        x < w,
        y < h,
    ensures
        lists_visited(final(visited)@, final(order)@, w as int, h as int),
        extends_by_neighbors(old(order)@, final(order)@, (x as int, y as int)),
        keeps_visited(old(visited)@, final(visited)@, w as int, h as int),
        neighbors_visited(final(visited)@, w as int, h as int, (x as int, y as int)),
        unseen(final(visited)@) + final(order)@.len() == unseen(old(visited)@)
            + old(order)@.len(),
{
    if x > 0 {
        visit(visited, order, w, h, x - 1, y);
    }
    let ghost v1: Seq<bool> = visited@;
    if x + 1 < w {
        visit(visited, order, w, h, x + 1, y);
    }
    let ghost v2: Seq<bool> = visited@;
    if y > 0 {
        visit(visited, order, w, h, x, y - 1);
    }
    let ghost v3: Seq<bool> = visited@;
    if y + 1 < h {
        visit(visited, order, w, h, x, y + 1);
    }
    proof {
        assert forall|d: (int, int)|
            in_grid(w as int, h as int, d) && #[trigger] marked(
                old(visited)@,
                w as int,
                d,
            ) implies marked(visited@, w as int, d) by {
            assert(marked(v1, w as int, d));
            assert(marked(v2, w as int, d));
            assert(marked(v3, w as int, d));
        }
        assert forall|n: (int, int)|
            in_grid(w as int, h as int, n) && adjacent(
                (x as int, y as int),
                n,
            ) implies #[trigger] marked(visited@, w as int, n) by {
            if n == (x - 1, y as int) {
                assert(marked(v1, w as int, n));
            }
            if n == (x - 1, y as int) || n == (x + 1, y as int) {
                assert(marked(v2, w as int, n));
            }
            if n.1 == y || n == (x as int, y - 1) {
                assert(marked(v3, w as int, n));
            }
        }
    }
}

/// Growing the list by neighbors of a found cell keeps the state, and closes the found cells over
/// their neighbors.
proof fn lemma_flood_grow(
    marks: Seq<bool>,
    visited: Seq<bool>,
    order: Seq<(u32, u32)>,
    visited2: Seq<bool>,
    order2: Seq<(u32, u32)>,
    head: int,
    done: Set<(int, int)>,
    w: int,
    h: int,
    start: (int, int),
    c: (int, int),
)
    requires
        flood_state(marks, visited, order, head, done.insert(c), w, h, start),
        is_closed(visited, done, w, h),
        in_grid(w, h, start),
        0 <= head <= order.len(),
        lists_visited(visited2, order2, w, h),
        extends_by_neighbors(order, order2, c),
        keeps_visited(visited, visited2, w, h),
        neighbors_visited(visited2, w, h, c),
    ensures
        flood_state(marks, visited2, order2, head, done.insert(c), w, h, start),
        is_closed(visited2, done.insert(c), w, h),
{
    let grown = done.insert(c);
    assert(grown.contains(c));
    assert forall|d: (int, int)| #[trigger] grown.contains(d) implies is_among(
        order2,
        head,
        d,
    ) by {
        assert(is_among(order, head, d));
        reveal(is_among);
        let i = choose|i: int| 0 <= i < head && cell_of(#[trigger] order[i]) == d;
        assert(cell_of(order2[i]) == d);
    }
    assert forall|i: int|
        0 <= i < head && marked(marks, w, cell_of(#[trigger] order2[i])) implies grown.contains(
    cell_of(order2[i])) by {
        assert(order2[i] == order[i]);
    }
    assert forall|i: int| 0 <= i < order2.len() implies cell_of(#[trigger] order2[i]) == start
        || has_neighbor(grown, cell_of(order2[i])) by {
        if i < order.len() {
            assert(order2[i] == order[i]);
        } else {
            reveal(has_neighbor);
            assert(grown.contains(c) && adjacent(c, cell_of(order2[i])));
        }
    }
    assert forall|d: (int, int), n: (int, int)| #[trigger]
        grown.contains(d) && in_grid(w, h, n) && adjacent(d, n) implies #[trigger] marked(
        visited2,
        w,
        n,
    ) by {
        if d != c {
            assert(done.contains(d));
            assert(marked(visited, w, n));
        }
    }
}

impl PaintGrid {
    /// Paint-bucket fill from `(sx, sy)`: write `idx` into the cells that `matching` marks, the
    /// cells whose height is close enough to the start cell's. `contiguous` is a 4-connected flood
    /// (fills the touched plateau/step only); otherwise a global fill (every matching cell,
    /// anywhere). Writes snap to the splat resolution `res`. Returns the matched-cell count.
    pub fn flood_fill(
        &mut self,
        sx: u32,
        sy: u32,
        idx: u8,
        matching: &Vec<bool>,
        contiguous: bool,
        res: u32,
    ) -> (filled: usize)
        requires
            old(self).wf(),
            matching@.len() == old(self).cells@.len(),
        ensures
            !old(self).covers(sx as int, sy as int) ==> filled == 0 && *final(self) == *old(self),
            old(self).covers(sx as int, sy as int) ==> {
                let region = fill_region(
                    matching@,
                    old(self).width as int,
                    old(self).height as int,
                    (sx as int, sy as int),
                    contiguous,
                );
                &&& region.finite()
                &&& filled == region.len()
                &&& is_filled(*old(self), *final(self), region, res, idx)
            },
    {
        if sx >= self.width || sy >= self.height {
            return 0;
        }
        if contiguous {
            self.flood_connected(sx, sy, idx, matching, res)
        } else {
            self.flood_all(sx, sy, idx, matching, res)
        }
    }

    fn flood_all(
        &mut self,
        sx: u32,
        sy: u32,
        idx: u8,
        matching: &Vec<bool>,
        res: u32,
    ) -> (filled: usize)
        requires
            old(self).wf(),
            matching@.len() == old(self).cells@.len(),
        ensures
            ({
                let region = fill_region(
                    matching@,
                    old(self).width as int,
                    old(self).height as int,
                    (sx as int, sy as int),
                    false,
                );
                &&& region.finite()
                &&& filled == region.len()
                &&& is_filled(*old(self), *final(self), region, res, idx)
            }),
    {
        let w: u32 = self.width;
        let h: u32 = self.height;
        let ghost was: PaintGrid = *self;
        let ghost mut done: Set<(int, int)> = Set::empty();
        let mut filled: usize = 0;
        let mut y: u32 = 0;
        assert(is_filled(was, *self, done, res, idx));
        assert(0 * w == 0) by (nonlinear_arith);
        while y < h
            invariant
                was.wf(),
                was.width == w,
                was.height == h,
                self.wf(),
                self.same_shape(&was),
                matching@.len() == w * h,
                y <= h,
                filled <= y * w,
                done.finite(),
                filled == done.len(),
                is_filled(was, *self, done, res, idx),
                forall|c: (int, int)| #[trigger]
                    done.contains(c) <==> in_grid(w as int, y as int, c) && marked(
                        matching@,
                        w as int,
                        c,
                    ),
            decreases h - y,
        {
            let mut x: u32 = 0;
            while x < w
                invariant
                    was.wf(),
                    was.width == w,
                    was.height == h,
                    self.wf(),
                    self.same_shape(&was),
                    matching@.len() == w * h,
                    y < h,
                    x <= w,
                    filled <= y * w + x,
                    done.finite(),
                    filled == done.len(),
                    is_filled(was, *self, done, res, idx),
                    forall|c: (int, int)| #[trigger]
                        done.contains(c) <==> (in_grid(w as int, y as int, c) || 0 <= c.0 < x
                            && c.1 == y) && marked(matching@, w as int, c),
                decreases w - x,
            {
                proof {
                    crate::map::lemma_cell_index(x as int, y as int, w as int, h as int);
                    assert(matching.len() <= usize::MAX);
                }
                if matching[y as usize * w as usize + x as usize] {
                    let ghost before: PaintGrid = *self;
                    self.set_block(x, y, res, idx);
                    proof {
                        lemma_fill_one(
                            was,
                            before,
                            *self,
                            done,
                            res,
                            idx,
                            (x as int, y as int),
                        );
                        assert(!done.contains((x as int, y as int)));
                        done = done.insert((x as int, y as int));
                    }
                    filled = filled + 1;
                }
                x = x + 1;
            }
            assert((y + 1) * w == y * w + w) by (nonlinear_arith);
            y = y + 1;
        }
        proof {
            assert(done =~= fill_region(
                matching@,
                w as int,
                h as int,
                (sx as int, sy as int),
                false,
            ));
        }
        filled
    }

    fn flood_connected(
        &mut self,
        sx: u32,
        sy: u32,
        idx: u8,
        matching: &Vec<bool>,
        res: u32,
    ) -> (filled: usize)
        requires
            old(self).wf(),
            matching@.len() == old(self).cells@.len(),
            old(self).covers(sx as int, sy as int),
        ensures
            ({
                let region = fill_region(
                    matching@,
                    old(self).width as int,
                    old(self).height as int,
                    (sx as int, sy as int),
                    true,
                );
                &&& region.finite()
                &&& filled == region.len()
                &&& is_filled(*old(self), *final(self), region, res, idx)
            }),
    {
        let w: u32 = self.width;
        let h: u32 = self.height;
        let ghost was: PaintGrid = *self;
        let ghost start: (int, int) = (sx as int, sy as int);
        let ghost mut done: Set<(int, int)> = Set::empty();
        let mut visited: Vec<bool> = vec![false; self.cells.len()];
        let mut order: Vec<(u32, u32)> = Vec::new();
        proof {
            assert forall|c: (int, int)|
                in_grid(w as int, h as int, c) implies !#[trigger] marked(
                visited@,
                w as int,
                c,
            ) by {
                crate::map::lemma_cell_index(c.0, c.1, w as int, h as int);
            }
        }
        visit(&mut visited, &mut order, w, h, sx, sy);
        proof {
            assert(order@ =~= seq![(sx, sy)]) by {
                let i = order@.index_of((sx, sy));
                assert(order@[i] == (sx, sy));
            }
            assert(is_filled(was, *self, done, res, idx));
        }
        let mut filled: usize = 0;
        let mut head: usize = 0;
        while head < order.len()
            invariant
                was.wf(),
                was.width == w,
                was.height == h,
                self.wf(),
                self.same_shape(&was),
                matching@.len() == w * h,
                in_grid(w as int, h as int, start),
                head <= order@.len(),
                filled <= head,
                done.finite(),
                filled == done.len(),
                is_filled(was, *self, done, res, idx),
                flood_state(
                    matching@,
                    visited@,
                    order@,
                    head as int,
                    done,
                    w as int,
                    h as int,
                    start,
                ),
                is_closed(visited@, done, w as int, h as int),
            decreases unseen(visited@) + order@.len() - head,
        {
            let (x, y) = order[head];
            let ghost c: (int, int) = (x as int, y as int);
            assert(cell_of(order@[head as int]) == c);
            proof {
                lemma_flood_step(
                    matching@,
                    visited@,
                    order@,
                    head as int,
                    done,
                    w as int,
                    h as int,
                    start,
                );
                crate::map::lemma_cell_index(x as int, y as int, w as int, h as int);
                assert(matching.len() <= usize::MAX);
            }
            head = head + 1;
            if matching[y as usize * w as usize + x as usize] {
                let ghost before: PaintGrid = *self;
                self.set_block(x, y, res, idx);
                let ghost visited_before: Seq<bool> = visited@;
                let ghost order_before: Seq<(u32, u32)> = order@;
                visit_neighbors(&mut visited, &mut order, w, h, x, y);
                proof {
                    lemma_fill_one(was, before, *self, done, res, idx, c);
                    lemma_flood_grow(
                        matching@,
                        visited_before,
                        order_before,
                        visited@,
                        order@,
                        head as int,
                        done,
                        w as int,
                        h as int,
                        start,
                        c,
                    );
                    done = done.insert(c);
                }
                filled = filled + 1;
            }
        }
        proof {
            let region = fill_region(matching@, w as int, h as int, start, true);
            assert forall|c: (int, int)| #[trigger] region.contains(c) implies done.contains(c) by {
                let walk = choose|walk: Seq<(int, int)>| #[trigger]
                    is_walk(matching@, w as int, h as int, walk) && walk[0] == start
                        && walk.last() == c;
                lemma_flood_complete(
                    matching@,
                    visited@,
                    order@,
                    done,
                    w as int,
                    h as int,
                    start,
                    walk,
                    walk.len() - 1,
                );
            }
            assert forall|c: (int, int)| #[trigger] done.contains(c) implies region.contains(c) by {
                let walk = choose|walk: Seq<(int, int)>| #[trigger]
                    is_walk(matching@, w as int, h as int, walk) && walk[0] == start
                        && walk.last() == c;
                assert(marked(matching@, w as int, walk[walk.len() - 1]));
            }
            assert(done =~= region);
        }
        filled
    }
}

/// Two cells are one step apart, along a row or along a column.
pub open spec fn one_step(a: (int, int), b: (int, int)) -> bool {
    (a.0 - b.0) * (a.0 - b.0) + (a.1 - b.1) * (a.1 - b.1) == 1
}

proof fn lemma_one_step(a: (int, int), b: (int, int))
    ensures
        adjacent(a, b) <==> one_step(a, b),
{
    let (dx, dy) = (a.0 - b.0, a.1 - b.1);
    assert(dx * dx >= 0 && dy * dy >= 0) by (nonlinear_arith);
    assert(dx * dx == 0 <==> dx == 0) by (nonlinear_arith);
    assert(dy * dy == 0 <==> dy == 0) by (nonlinear_arith);
    assert(dx * dx == 1 <==> dx == 1 || dx == -1) by (nonlinear_arith);
    assert(dy * dy == 1 <==> dy == 1 || dy == -1) by (nonlinear_arith);
}

/// A fill takes in matching cells of the grid and no others. Where it need not be contiguous it takes
/// in all of them.
pub proof fn fills_take_in_matching_cells(
    marks: Seq<bool>,
    w: int,
    h: int,
    start: (int, int),
    contiguous: bool,
    c: (int, int),
)
    ensures
        fill_region(marks, w, h, start, contiguous).contains(c) ==> {
            &&& 0 <= c.0 < w
            &&& 0 <= c.1 < h
            &&& marks[c.1 * w + c.0]
        },
        0 <= c.0 < w && 0 <= c.1 < h && marks[c.1 * w + c.0] ==> fill_region(
            marks,
            w,
            h,
            start,
            false,
        ).contains(c),
{
}

/// A contiguous fill starts at its start and spreads: where the start matches it is taken in, and so is
/// every matching cell that is one step away from a cell that is.
pub proof fn contiguous_fills_spread(
    marks: Seq<bool>,
    w: int,
    h: int,
    start: (int, int),
    c: (int, int),
    d: (int, int),
)
    requires
        0 <= c.0 < w,
        0 <= c.1 < h,
        marks[c.1 * w + c.0],
    ensures
        c == start ==> fill_region(marks, w, h, start, true).contains(c),
        fill_region(marks, w, h, start, true).contains(d) && one_step(c, d) ==> fill_region(
            marks,
            w,
            h,
            start,
            true,
        ).contains(c),
{
    if c == start {
        let walk = seq![c];
        assert(is_walk(marks, w, h, walk));
        assert(walk[0] == start && walk.last() == c);
    }
    if fill_region(marks, w, h, start, true).contains(d) && one_step(c, d) {
        lemma_one_step(c, d);
        lemma_connected_step(marks, w, h, start, d, c);
    }
}

/// A contiguous fill spreads no further than by single steps from its start: a set of cells that holds
/// the start and every matching cell one step away from one of its own holds the whole fill.
pub proof fn contiguous_fills_spread_no_further(
    marks: Seq<bool>,
    w: int,
    h: int,
    start: (int, int),
    cells: Set<(int, int)>,
    c: (int, int),
)
    requires
        cells.contains(start),
        forall|a: (int, int), b: (int, int)|
            cells.contains(a) && #[trigger] one_step(a, b) && 0 <= b.0 < w && 0 <= b.1 < h
                && marks[b.1 * w + b.0] ==> cells.contains(b),
        fill_region(marks, w, h, start, true).contains(c),
    ensures
        cells.contains(c),
{
    let walk = choose|walk: Seq<(int, int)>| #[trigger]
        is_walk(marks, w, h, walk) && walk[0] == start && walk.last() == c;
    lemma_walk_stays(marks, w, h, walk, cells, walk.len() - 1);
}

proof fn lemma_walk_stays(
    marks: Seq<bool>,
    w: int,
    h: int,
    walk: Seq<(int, int)>,
    cells: Set<(int, int)>,
    n: int,
)
    requires
        is_walk(marks, w, h, walk),
        cells.contains(walk[0]),
        forall|a: (int, int), b: (int, int)|
            cells.contains(a) && #[trigger] one_step(a, b) && 0 <= b.0 < w && 0 <= b.1 < h
                && marks[b.1 * w + b.0] ==> cells.contains(b),
        0 <= n < walk.len(),
    ensures
        cells.contains(walk[n]),
    decreases n,
{
    if n > 0 {
        lemma_walk_stays(marks, w, h, walk, cells, n - 1);
        assert(adjacent(walk[n - 1], walk[n]));
        lemma_one_step(walk[n - 1], walk[n]);
        assert(in_grid(w, h, walk[n]) && marked(marks, w, walk[n]));
    }
}

/// A fill paints the cells that it took in and changes none outside their blocks; with blocks of one
/// cell it paints exactly what it took in.
pub proof fn fills_paint_what_they_took_in(
    was: PaintGrid,
    now: PaintGrid,
    region: Set<(int, int)>,
    res: u32,
    idx: u8,
    x: int,
    y: int,
)
    requires
        is_filled(was, now, region, res, idx),
        0 <= x < was.width,
        0 <= y < was.height,
    ensures
        now.width == was.width,
        now.height == was.height,
        region.contains((x, y)) ==> now.cells@[y * now.width + x] == idx,
        res <= 1 && !region.contains((x, y)) ==> now.cells@[y * now.width + x]
            == was.cells@[y * was.width + x],
        now.cells@[y * now.width + x] != was.cells@[y * was.width + x] ==> now.cells@[y * now.width
            + x] == idx && exists|f: (int, int)| #[trigger]
            region.contains(f) && super::paint::same_block(res, f, (x, y)),
{
    assert(now.cell(x, y) == if in_blocks_of(region, res, (x, y)) {
        idx
    } else {
        was.cell(x, y)
    });
    if region.contains((x, y)) {
        assert(super::paint::same_block(res, (x, y), (x, y)));
    }
    if res <= 1 && in_blocks_of(region, res, (x, y)) {
        let f = choose|f: (int, int)| #[trigger]
            region.contains(f) && super::paint::same_block(res, f, (x, y));
        assert(super::paint::block_side(res) == 1);
        vstd::arithmetic::div_mod::lemma_div_basics_2(f.0);
        vstd::arithmetic::div_mod::lemma_div_basics_2(f.1);
        vstd::arithmetic::div_mod::lemma_div_basics_2(x);
        vstd::arithmetic::div_mod::lemma_div_basics_2(y);
        assert(f.0 == x && f.1 == y);
    }
}

} // verus!
