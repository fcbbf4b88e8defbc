//! Export of a layer stack: one save per layer.
use super::convert::{
    format_error, mesh_field, mesh_quietly, BuildError, MeshSettings, OutputOptions,
    MAX_GRID_BRICKS,
};
use super::grid::{FlatColormap, HeightGrid};
use super::layers::LayerStack;
use super::parts::{plan_layer_parts, PartPlan};
use crate::brick::Brick;
use crate::map::{Colormap, Heightmap};
use crate::opt::generate::Progress;
use crate::opt::limits::MAX_LEVEL;
use crate::text::{decimal, from_chars, same_text, to_chars};
use vstd::prelude::*;
use vstd::string::StringExecFns;

verus! {

/// Characters that a file name keeps.
pub open spec fn is_name_char(c: char) -> bool {
    ||| 'a' <= c <= 'z'
    ||| 'A' <= c <= 'Z'
    ||| '0' <= c <= '9'
    ||| c == '-' || c == '_'
}

/// A name with every other character replaced by `_`.
pub open spec fn sanitized(name: Seq<char>) -> Seq<char> {
    name.map_values(
        |c: char|
            if is_name_char(c) {
                c
            } else {
                '_'
            },
    )
}

/// Turn a name into one that a file can have.
pub fn sanitize_name(name: &str) -> (safe: String)
    ensures
        safe@ == sanitized(name@),
{
    let chars: Vec<char> = to_chars(name);
    let mut out: Vec<char> = Vec::new();
    let mut i: usize = 0;
    while i < chars.len()
        invariant
            chars@ == name@,
            i <= chars@.len(),
            out@ == sanitized(chars@.take(i as int)),
        decreases chars@.len() - i,
    {
        let c: char = chars[i];
        let keep: bool = ('a' <= c && c <= 'z') || ('A' <= c && c <= 'Z') || ('0' <= c && c <= '9')
            || c == '-' || c == '_';
        out.push(
            if keep {
                c
            } else {
                '_'
            },
        );
        i = i + 1;
        assert(out@ =~= sanitized(chars@.take(i as int)));
    }
    assert(chars@.take(i as int) =~= name@);
    from_chars(&out)
}

/// The text with `k` underscores after it.
pub open spec fn padded(text: Seq<char>, k: nat) -> Seq<char> {
    text + Seq::new(k, |i: int| '_')
}

/// With `k` underscores after it, and with no fewer, the name is free.
pub open spec fn frees(text: Seq<char>, taken: Set<Seq<char>>, k: nat) -> bool {
    &&& !taken.contains(sanitized(padded(text, k)))
    &&& forall|j: nat| j < k ==> #[trigger] taken.contains(sanitized(padded(text, j)))
}

/// The name with the part's number in it.
pub open spec fn numbered(source: Seq<char>, layer: Seq<char>, number: int) -> Seq<char> {
    source + "_"@ + crate::text::decimal_chars(number as nat) + "_"@ + layer
}

/// The name of a part's save: the source and the layer, with the part's number between them when
/// that name is taken, and with as many underscores after it as make that name free.
pub open spec fn part_stem(
    source: Seq<char>,
    layer: Seq<char>,
    number: int,
    taken: Set<Seq<char>>,
) -> Seq<char> {
    let plain = source + "_"@ + layer;
    if taken.contains(sanitized(plain)) {
        let name = numbered(source, layer, number);
        padded(name, choose|k: nat| #[trigger] frees(name, taken, k))
    } else {
        plain
    }
}

/// The names in a list of texts.
pub open spec fn texts(list: Seq<String>) -> Set<Seq<char>> {
    Set::new(|t: Seq<char>| exists|i: int| 0 <= i < list.len() && (#[trigger] list[i])@ == t)
}

fn is_taken(list: &Vec<String>, name: &str) -> (taken: bool)
    ensures
        taken == texts(list@).contains(name@),
{
    let mut i: usize = 0;
    while i < list.len()
        invariant
            i <= list@.len(),
            forall|j: int| 0 <= j < i ==> (#[trigger] list@[j])@ != name@,
        decreases list@.len() - i,
    {
        if same_text(list[i].as_str(), name) {
            return true;
        }
        i = i + 1;
    }
    false
}

proof fn lemma_texts_push(list: Seq<String>, s: String)
    ensures
        texts(list.push(s)) == texts(list).insert(s@),
{
    assert forall|t: Seq<char>| texts(list.push(s)).contains(t) <==> texts(list).insert(
        s@,
    ).contains(t) by {
        if texts(list).contains(t) {
            let i = choose|i: int| 0 <= i < list.len() && (#[trigger] list[i])@ == t;
            assert(list.push(s)[i]@ == t);
        }
        if t == s@ {
            assert(list.push(s)[list.len() as int]@ == t);
        }
        if texts(list.push(s)).contains(t) && t != s@ {
            let i = choose|i: int|
                0 <= i < list.push(s).len() && (#[trigger] list.push(s)[i])@ == t;
            assert(list[i]@ == t);
        }
    }
    assert(texts(list.push(s)) =~= texts(list).insert(s@));
}

/// Number of characters of the longest text.
fn longest(list: &Vec<String>) -> (most: usize)
    ensures
        forall|t: Seq<char>| texts(list@).contains(t) ==> t.len() <= most,
{
    let mut most: usize = 0;
    let mut i: usize = 0;
    while i < list.len()
        invariant
            i <= list@.len(),
            forall|j: int| 0 <= j < i ==> (#[trigger] list@[j])@.len() <= most,
        decreases list@.len() - i,
    {
        let chars: Vec<char> = to_chars(list[i].as_str());
        if chars.len() > most {
            most = chars.len();
        }
        i = i + 1;
    }
    most
}

/// The least padding that frees a name is unique.
proof fn lemma_frees_once(text: Seq<char>, taken: Set<Seq<char>>, j: nat, k: nat)
    requires
        frees(text, taken, j),
        frees(text, taken, k),
    ensures
        j == k,
{
    if j < k {
        assert(taken.contains(sanitized(padded(text, j))));
    } else if k < j {
        assert(taken.contains(sanitized(padded(text, k))));
    }
}

/// A name is free once it is longer than all that are taken.
proof fn lemma_some_padding_frees(text: Seq<char>, taken: Set<Seq<char>>, most: nat, from: nat) -> (k:
    nat)
    requires
        forall|t: Seq<char>| #[trigger] taken.contains(t) ==> t.len() <= most,
        forall|j: nat| j < from ==> #[trigger] taken.contains(sanitized(padded(text, j))),
    ensures
        frees(text, taken, k),
    decreases most + 1 - from,
{
    if taken.contains(sanitized(padded(text, from))) {
        assert(sanitized(padded(text, from)).len() <= most);
        lemma_some_padding_frees(text, taken, most, from + 1)
    } else {
        from
    }
}

/// The name of a part is free.
proof fn lemma_part_stem_is_free(
    source: Seq<char>,
    layer: Seq<char>,
    number: int,
    taken: Set<Seq<char>>,
    most: nat,
)
    requires
        forall|t: Seq<char>| #[trigger] taken.contains(t) ==> t.len() <= most,
    ensures
        !taken.contains(sanitized(part_stem(source, layer, number, taken))),
{
    let name = numbered(source, layer, number);
    let k = lemma_some_padding_frees(name, taken, most, 0);
    assert(frees(name, taken, k));
}

/// Choose a part's name and note it as taken.
fn claim_stem(taken: &mut Vec<String>, source: &str, layer: &str, number: u64) -> (stem: String)
    ensures
        stem@ == part_stem(source@, layer@, number as int, texts(old(taken)@)),
        texts(final(taken)@) == texts(old(taken)@).insert(sanitized(stem@)),
{
    let mut plain: String = source.to_owned();
    plain.append("_");
    plain.append(layer);
    let safe: String = sanitize_name(plain.as_str());
    if !is_taken(taken, safe.as_str()) {
        proof {
            lemma_texts_push(taken@, safe);
        }
        taken.push(safe);
        return plain;
    }
    let most: usize = longest(taken);
    let mut stem: String = source.to_owned();
    stem.append("_");
    stem.append(decimal(number).as_str());
    stem.append("_");
    stem.append(layer);
    let ghost name: Seq<char> = stem@;
    let ghost names: Set<Seq<char>> = texts(taken@);
    let ghost mut k: nat = 0;
    let mut safe: String = sanitize_name(stem.as_str());
    assert(padded(name, 0) =~= name);
    while is_taken(taken, safe.as_str())
        invariant
            *taken == *old(taken),
            names == texts(taken@),
            forall|t: Seq<char>| names.contains(t) ==> t.len() <= most,
            stem@ == padded(name, k),
            safe@ == sanitized(stem@),
            forall|j: nat| j < k ==> #[trigger] names.contains(sanitized(padded(name, j))),
        decreases most + 1 - stem@.len(),
    {
        assert(names.contains(safe@));
        assert(safe@.len() == stem@.len());
        stem.append("_");
        proof {
            reveal_strlit("_");
            assert(padded(name, k + 1) =~= padded(name, k) + "_"@);
            k = k + 1;
        }
        safe = sanitize_name(stem.as_str());
    }
    proof {
        assert(frees(name, names, k));
        lemma_frees_once(name, names, k, choose|j: nat| #[trigger] frees(name, names, j));
        lemma_texts_push(taken@, safe);
    }
    taken.push(safe);
    stem
}

/// The plan's box lies in the field and its bricks in the machine integers.
pub open spec fn plan_fits(plan: PartPlan, grid: HeightGrid, settings: MeshSettings) -> bool {
    let (x0, y0, x1, y1) = plan.bbox;
    &&& x0 <= x1 <= grid.dims().0
    &&& y0 <= y1 <= grid.dims().1
    &&& 2 * ((x1 - x0) * settings.size) + plan.offset.0 <= i32::MAX
    &&& 2 * ((y1 - y0) * settings.size) + plan.offset.1 <= i32::MAX
}

/// The plan's keep-mask has an entry for each cell of its box.
pub open spec fn is_masked_whole(plan: PartPlan) -> bool {
    let (x0, y0, x1, y1) = plan.bbox;
    plan.keep_local@.len() == (x1 - x0) * (y1 - y0)
}

/// What meshing a planned part comes to: the mesh of the part's window under its keep-mask, in the
/// default color, at its offset.
pub open spec fn is_part_outcome<F: Fn(Progress) -> bool>(
    plan: PartPlan,
    grid: HeightGrid,
    settings: MeshSettings,
    skip_floor: bool,
    progress: F,
    outcome: Result<Vec<Brick>, BuildError>,
) -> bool {
    exists|sub: HeightGrid, colors: FlatColormap|
        #[trigger] super::convert::is_window_of(sub, grid, part_window(plan))
            && #[trigger] is_default_color(colors, sub.dims()) && super::convert::is_meshed(
            sub,
            colors,
            settings,
            skip_floor,
            plan.offset,
            Some(plan.keep_local@),
            progress,
            outcome,
        )
}

/// What meshing a planned part for an export comes to: as [`is_part_outcome`] says, without a word
/// about its progress.
pub open spec fn is_part_meshed<G: Fn() -> bool>(
    plan: PartPlan,
    grid: HeightGrid,
    settings: MeshSettings,
    skip_floor: bool,
    cancelled: G,
    outcome: Result<Vec<Brick>, BuildError>,
) -> bool {
    exists|sub: HeightGrid, colors: FlatColormap|
        #[trigger] super::convert::is_window_of(sub, grid, part_window(plan))
            && #[trigger] is_default_color(colors, sub.dims())
            && super::convert::is_quietly_meshed(
            sub,
            colors,
            settings,
            skip_floor,
            plan.offset,
            Some(plan.keep_local@),
            cancelled,
            outcome,
        )
}

pub open spec fn is_default_color(colors: FlatColormap, dims: (u32, u32)) -> bool {
    colors.dims() == dims && colors.color == super::paint::DEFAULT_BRICK_COLOR
}

/// The cells of a part.
pub open spec fn part_window(plan: PartPlan) -> super::convert::Window {
    super::convert::Window {
        x0: plan.bbox.0 as int,
        y0: plan.bbox.1 as int,
        x1: plan.bbox.2 as int,
        y1: plan.bbox.3 as int,
    }
}

/// Mesh one planned part into bricks at its absolute world offset. Meshes the
/// bbox sub-field with the part's keep-mask, so only the layer's owned cells emit
/// — every emitted cell lands at the same absolute world slot a single full-field
/// mesh would place it (shared pitch + shared global offset).
pub fn build_part_bricks<F: Fn(Progress) -> bool>(
    plan: &PartPlan,
    grid: &HeightGrid,
    settings: &MeshSettings,
    skip_floor: bool,
    progress: F,
) -> (outcome: Result<Vec<Brick>, BuildError>)
    requires
        crate::opt::generate::takes_reports(progress),
        super::convert::field_fits(*grid, *settings),
        plan_fits(*plan, *grid, *settings),
    ensures
        is_part_outcome(*plan, *grid, *settings, skip_floor, progress, outcome),
{
    let sub: HeightGrid = part_grid(plan, grid, settings);
    let (w, h) = sub.size();
    let colors: FlatColormap = FlatColormap::sculpt_default(w, h);
    assert(is_default_color(colors, sub.dims()));
    mesh_field(
        &sub,
        &colors,
        settings,
        skip_floor,
        plan.offset,
        Some(plan.keep_local.as_slice()),
        progress,
    )
}

/// The cells of a part as a grid of their own.
fn part_grid(plan: &PartPlan, grid: &HeightGrid, settings: &MeshSettings) -> (sub: HeightGrid)
    requires
        super::convert::field_fits(*grid, *settings),
        plan_fits(*plan, *grid, *settings),
    ensures
        super::convert::is_window_of(sub, *grid, part_window(*plan)),
        super::convert::field_fits(sub, *settings),
{
    let (x0, y0, x1, y1) = plan.bbox;
    let sub: HeightGrid = grid.sub_grid(x0, y0, x1, y1);
    proof {
        super::convert::lemma_axis_window(
            x0 as int,
            x1 as int,
            grid.dims().0 as int,
            settings.size as int,
        );
        super::convert::lemma_axis_window(
            y0 as int,
            y1 as int,
            grid.dims().1 as int,
            settings.size as int,
        );
        assert forall|x: int, y: int|
            0 <= x < sub.dims().0 && 0 <= y < sub.dims().1 implies #[trigger] sub.height_at(x, y)
            <= MAX_LEVEL by {
            assert(grid.height_at(x0 + x, y0 + y) <= MAX_LEVEL);
        }
    }
    sub
}

/// Mesh one planned part for an export.
fn mesh_part<G: Fn() -> bool>(
    plan: &PartPlan,
    grid: &HeightGrid,
    settings: &MeshSettings,
    skip_floor: bool,
    cancelled: &G,
) -> (outcome: Result<Vec<Brick>, BuildError>)
    requires
        call_requires(*cancelled, ()),
        super::convert::field_fits(*grid, *settings),
        plan_fits(*plan, *grid, *settings),
        is_masked_whole(*plan),
    ensures
        is_part_meshed(*plan, *grid, *settings, skip_floor, *cancelled, outcome),
{
    let sub: HeightGrid = part_grid(plan, grid, settings);
    let (w, h) = sub.size();
    let colors: FlatColormap = FlatColormap::sculpt_default(w, h);
    assert(is_default_color(colors, sub.dims()));
    mesh_quietly(
        &sub,
        &colors,
        settings,
        skip_floor,
        plan.offset,
        Some(plan.keep_local.as_slice()),
        cancelled,
    )
}

/// What one exported part wrote: the source layer, its brick count, and what writing it returned.
pub struct PartOutcome<T> {
    pub layer_name: String,
    pub brick_count: usize,
    pub written: T,
}

/// What became of one part: its bricks, and what writing them returned. A part without bricks is
/// not written.
pub struct PartTrace<T> {
    pub bricks: Vec<Brick>,
    pub written: Option<T>,
}

/// The names that the first `n` parts took.
pub open spec fn taken_names<T>(
    source: Seq<char>,
    plans: Seq<PartPlan>,
    trace: Seq<PartTrace<T>>,
    n: int,
) -> Set<Seq<char>>
    decreases n,
{
    if n <= 0 {
        Set::empty()
    } else {
        let before = taken_names(source, plans, trace, n - 1);
        if trace[n - 1].bricks@.len() == 0 {
            before
        } else {
            before.insert(
                sanitized(part_stem(source, plans[n - 1].layer_name@, n, before)),
            )
        }
    }
}

/// The name that part `i` is written under.
pub open spec fn name_of<T>(
    source: Seq<char>,
    plans: Seq<PartPlan>,
    trace: Seq<PartTrace<T>>,
    i: int,
) -> Seq<char> {
    part_stem(source, plans[i].layer_name@, i + 1, taken_names(source, plans, trace, i))
}

/// Writing the bricks under the name returned `r`.
pub open spec fn was_written<T, W: Fn(&str, Vec<Brick>) -> Result<T, BuildError>>(
    write: W,
    name: Seq<char>,
    bricks: Vec<Brick>,
    r: Result<T, BuildError>,
) -> bool {
    exists|s: &str| s@ == name && #[trigger] call_ensures(write, (s, bricks), r)
}

/// Part `i` was meshed and, unless it has no bricks, written under its name.
pub open spec fn is_exported<
    T,
    G: Fn() -> bool,
    W: Fn(&str, Vec<Brick>) -> Result<T, BuildError>,
>(
    plans: Seq<PartPlan>,
    grid: HeightGrid,
    settings: MeshSettings,
    skip_floor: bool,
    source: Seq<char>,
    cancelled: G,
    write: W,
    trace: Seq<PartTrace<T>>,
    i: int,
) -> bool {
    let part = trace[i];
    &&& is_part_meshed(plans[i], grid, settings, skip_floor, cancelled, Ok(part.bricks))
    &&& part.bricks@.len() <= MAX_GRID_BRICKS
    &&& match part.written {
        None => part.bricks@.len() == 0,
        Some(w) => part.bricks@.len() > 0 && was_written(
            write,
            name_of(source, plans, trace, i),
            part.bricks,
            Ok(w),
        ),
    }
}

/// The outcomes report the written parts among the first `n`, in order.
pub open spec fn reports<T>(
    plans: Seq<PartPlan>,
    trace: Seq<PartTrace<T>>,
    n: int,
    outcomes: Seq<PartOutcome<T>>,
) -> bool
    decreases n,
{
    if n <= 0 {
        outcomes.len() == 0
    } else {
        match trace[n - 1].written {
            None => reports(plans, trace, n - 1, outcomes),
            Some(w) => {
                &&& outcomes.len() > 0
                &&& outcomes.last().layer_name@ == plans[n - 1].layer_name@
                &&& outcomes.last().brick_count == trace[n - 1].bricks@.len()
                &&& outcomes.last().written == w
                &&& reports(plans, trace, n - 1, outcomes.drop_last())
            },
        }
    }
}

/// All parts of the trace were exported.
pub open spec fn all_exported<
    T,
    G: Fn() -> bool,
    W: Fn(&str, Vec<Brick>) -> Result<T, BuildError>,
>(
    plans: Seq<PartPlan>,
    grid: HeightGrid,
    settings: MeshSettings,
    skip_floor: bool,
    source: Seq<char>,
    cancelled: G,
    write: W,
    trace: Seq<PartTrace<T>>,
) -> bool {
    forall|i: int|
        0 <= i < trace.len() ==> #[trigger] is_exported(
            plans,
            grid,
            settings,
            skip_floor,
            source,
            cancelled,
            write,
            trace,
            i,
        )
}

/// How an export ends after the parts of the trace: with a report when no part is left, or with the
/// error of the next part. The callback is told before each part how many are done, and at the end
/// that all are.
pub open spec fn export_ends<
    T,
    R: Fn(usize, usize),
    G: Fn() -> bool,
    W: Fn(&str, Vec<Brick>) -> Result<T, BuildError>,
>(
    plans: Seq<PartPlan>,
    grid: HeightGrid,
    settings: MeshSettings,
    skip_floor: bool,
    source: Seq<char>,
    report: R,
    cancelled: G,
    write: W,
    trace: Seq<PartTrace<T>>,
    outcome: Result<Vec<PartOutcome<T>>, BuildError>,
) -> bool {
    let n = trace.len() as int;
    match outcome {
        Ok(outcomes) => {
            &&& n == plans.len()
            &&& reports(plans, trace, n, outcomes@)
            &&& super::convert::is_told(report, n, n)
        },
        Err(e) => {
            &&& n < plans.len()
            &&& super::convert::is_told(report, n - 1, plans.len() as int)
            &&& {
                ||| e is Cancelled && call_ensures(cancelled, (), true)
                ||| super::convert::is_told(report, n, plans.len() as int) && part_refused(
                    plans,
                    grid,
                    settings,
                    skip_floor,
                    source,
                    cancelled,
                    write,
                    trace,
                    e,
                )
            }
        },
    }
}

/// The next part was meshed, but has too many bricks or could not be written.
pub open spec fn part_refused<
    T,
    G: Fn() -> bool,
    W: Fn(&str, Vec<Brick>) -> Result<T, BuildError>,
>(
    plans: Seq<PartPlan>,
    grid: HeightGrid,
    settings: MeshSettings,
    skip_floor: bool,
    source: Seq<char>,
    cancelled: G,
    write: W,
    trace: Seq<PartTrace<T>>,
    e: BuildError,
) -> bool {
    let n = trace.len() as int;
    exists|bricks: Vec<Brick>|
        #[trigger] is_part_meshed(
            plans[n],
            grid,
            settings,
            skip_floor,
            cancelled,
            Ok(bricks),
        ) && if bricks@.len() > MAX_GRID_BRICKS {
            e matches BuildError::TooManyBricks { count, max } && count == bricks@.len() && max
                == MAX_GRID_BRICKS
        } else {
            bricks@.len() > 0 && was_written(
                write,
                name_of(source, plans, trace, n),
                bricks,
                Err(e),
            )
        }
}

/// What exporting planned parts comes to.
pub open spec fn is_export_outcome<
    T,
    R: Fn(usize, usize),
    G: Fn() -> bool,
    W: Fn(&str, Vec<Brick>) -> Result<T, BuildError>,
>(
    plans: Seq<PartPlan>,
    grid: HeightGrid,
    settings: MeshSettings,
    skip_floor: bool,
    source: Seq<char>,
    report: R,
    cancelled: G,
    write: W,
    outcome: Result<Vec<PartOutcome<T>>, BuildError>,
) -> bool {
    if plans.len() == 0 {
        outcome matches Err(BuildError::BrdbWrite(e)) && e@
            == "no layer has a selection to export — pick some boxes first"@
    } else {
        exists|trace: Seq<PartTrace<T>>|
            #[trigger] all_exported(
                plans,
                grid,
                settings,
                skip_floor,
                source,
                cancelled,
                write,
                trace,
            ) && export_ends(
                plans,
                grid,
                settings,
                skip_floor,
                source,
                report,
                cancelled,
                write,
                trace,
                outcome,
            )
    }
}

/// A length that no taken name exceeds.
proof fn lemma_names_are_short<T>(
    source: Seq<char>,
    plans: Seq<PartPlan>,
    trace: Seq<PartTrace<T>>,
    n: int,
) -> (most: nat)
    ensures
        forall|t: Seq<char>| #[trigger]
            taken_names(source, plans, trace, n).contains(t) ==> t.len() <= most,
    decreases n,
{
    if n <= 0 {
        0
    } else {
        let before = lemma_names_are_short(source, plans, trace, n - 1);
        let next = name_of(source, plans, trace, n - 1).len();
        if next > before {
            next
        } else {
            before
        }
    }
}

proof fn lemma_names_stay_taken<T>(
    source: Seq<char>,
    plans: Seq<PartPlan>,
    trace: Seq<PartTrace<T>>,
    i: int,
    n: int,
)
    requires
        0 <= i < n,
        trace[i].bricks@.len() > 0,
    ensures
        taken_names(source, plans, trace, n).contains(
            sanitized(name_of(source, plans, trace, i)),
        ),
    decreases n,
{
    if i < n - 1 {
        lemma_names_stay_taken(source, plans, trace, i, n - 1);
    }
}

/// No part clobbers another: the names that parts with bricks are written under differ, also once
/// they are made safe for files.
pub proof fn part_names_are_distinct<T>(
    source: Seq<char>,
    plans: Seq<PartPlan>,
    trace: Seq<PartTrace<T>>,
    i: int,
    j: int,
)
    requires
        0 <= i < j < trace.len(),
        trace[i].bricks@.len() > 0,
        trace[j].bricks@.len() > 0,
    ensures
        sanitized(name_of(source, plans, trace, i)) != sanitized(
            name_of(source, plans, trace, j),
        ),
{
    lemma_names_stay_taken(source, plans, trace, i, j);
    let most = lemma_names_are_short(source, plans, trace, j);
    lemma_part_stem_is_free(
        source,
        plans[j].layer_name@,
        j + 1,
        taken_names(source, plans, trace, j),
        most,
    );
}

/// Later parts do not change which names the first `n` took.
proof fn lemma_taken_names_push<T>(
    source: Seq<char>,
    plans: Seq<PartPlan>,
    trace: Seq<PartTrace<T>>,
    part: PartTrace<T>,
    n: int,
)
    requires
        n <= trace.len(),
    ensures
        taken_names(source, plans, trace.push(part), n) == taken_names(source, plans, trace, n),
    decreases n,
{
    if n > 0 {
        lemma_taken_names_push(source, plans, trace, part, n - 1);
    }
}

/// Later parts do not change the report of the first `n`.
proof fn lemma_reports_push<T>(
    plans: Seq<PartPlan>,
    trace: Seq<PartTrace<T>>,
    part: PartTrace<T>,
    n: int,
    outcomes: Seq<PartOutcome<T>>,
)
    requires
        n <= trace.len(),
        reports(plans, trace, n, outcomes),
    ensures
        reports(plans, trace.push(part), n, outcomes),
    decreases n,
{
    if n > 0 {
        match trace[n - 1].written {
            None => lemma_reports_push(plans, trace, part, n - 1, outcomes),
            Some(w) => lemma_reports_push(plans, trace, part, n - 1, outcomes.drop_last()),
        }
    }
}

/// One more part was exported.
proof fn lemma_exported_push<
    T,
    G: Fn() -> bool,
    W: Fn(&str, Vec<Brick>) -> Result<T, BuildError>,
>(
    plans: Seq<PartPlan>,
    grid: HeightGrid,
    settings: MeshSettings,
    skip_floor: bool,
    source: Seq<char>,
    cancelled: G,
    write: W,
    trace: Seq<PartTrace<T>>,
    part: PartTrace<T>,
)
    requires
        all_exported(plans, grid, settings, skip_floor, source, cancelled, write, trace),
        is_part_meshed(
            plans[trace.len() as int],
            grid,
            settings,
            skip_floor,
            cancelled,
            Ok(part.bricks),
        ),
        part.bricks@.len() <= MAX_GRID_BRICKS,
        match part.written {
            None => part.bricks@.len() == 0,
            Some(w) => part.bricks@.len() > 0 && was_written(
                write,
                name_of(source, plans, trace, trace.len() as int),
                part.bricks,
                Ok(w),
            ),
        },
    ensures
        all_exported(
            plans,
            grid,
            settings,
            skip_floor,
            source,
            cancelled,
            write,
            trace.push(part),
        ),
{
    let longer = trace.push(part);
    assert forall|i: int| 0 <= i < longer.len() implies #[trigger] is_exported(
        plans,
        grid,
        settings,
        skip_floor,
        source,
        cancelled,
        write,
        longer,
        i,
    ) by {
        lemma_taken_names_push(source, plans, trace, part, i);
        if i < trace.len() {
            assert(is_exported(
                plans,
                grid,
                settings,
                skip_floor,
                source,
                cancelled,
                write,
                trace,
                i,
            ));
        }
    }
}

/// Export planned parts: mesh each, and hand its name and bricks to `write`.
fn export_parts<
    T,
    R: Fn(usize, usize),
    G: Fn() -> bool,
    W: Fn(&str, Vec<Brick>) -> Result<T, BuildError>,
>(
    plans: &Vec<PartPlan>,
    grid: &HeightGrid,
    settings: &MeshSettings,
    skip_floor: bool,
    source: &str,
    report: R,
    cancelled: G,
    write: W,
) -> (outcome: Result<Vec<PartOutcome<T>>, BuildError>)
    requires
        forall|n: usize, of: usize| #[trigger] call_requires(report, (n, of)),
        call_requires(cancelled, ()),
        forall|s: &str, b: Vec<Brick>| #[trigger] call_requires(write, (s, b)),
        super::convert::field_fits(*grid, *settings),
        forall|i: int|
            0 <= i < plans@.len() ==> plan_fits(#[trigger] plans@[i], *grid, *settings)
                && is_masked_whole(plans@[i]),
    ensures
        is_export_outcome(
            plans@,
            *grid,
            *settings,
            skip_floor,
            source@,
            report,
            cancelled,
            write,
            outcome,
        ),
{
    if plans.len() == 0 {
        return Err(
            BuildError::BrdbWrite(
                "no layer has a selection to export — pick some boxes first".to_owned(),
            ),
        );
    }
    let mut outcomes: Vec<PartOutcome<T>> = Vec::new();
    let mut taken: Vec<String> = Vec::new();
    let ghost mut trace: Seq<PartTrace<T>> = Seq::empty();
    assert(texts(taken@) =~= Set::<Seq<char>>::empty());
    let mut i: usize = 0;
    while i < plans.len()
        invariant
            forall|n: usize, of: usize| #[trigger] call_requires(report, (n, of)),
            call_requires(cancelled, ()),
            forall|s: &str, b: Vec<Brick>| #[trigger] call_requires(write, (s, b)),
            super::convert::field_fits(*grid, *settings),
            forall|k: int|
                0 <= k < plans@.len() ==> plan_fits(#[trigger] plans@[k], *grid, *settings)
                    && is_masked_whole(plans@[k]),
            super::convert::is_told(report, i - 1, plans@.len() as int),
            plans@.len() > 0,
            i <= plans@.len(),
            trace.len() == i,
            texts(taken@) == taken_names(source@, plans@, trace, i as int),
            reports(plans@, trace, i as int, outcomes@),
            all_exported(
                plans@,
                *grid,
                *settings,
                skip_floor,
                source@,
                cancelled,
                write,
                trace,
            ),
        decreases plans@.len() - i,
    {
        if cancelled() {
            return Err(BuildError::Cancelled);
        }
        let plan: &PartPlan = &plans[i];
        report(i, plans.len());
        let bricks: Vec<Brick> = match mesh_part(plan, grid, settings, skip_floor, &cancelled) {
            Ok(bricks) => bricks,
            Err(e) => {
                return Err(e);
            },
        };
        let count: usize = bricks.len();
        let ghost before: Seq<PartTrace<T>> = trace;
        let ghost names: Set<Seq<char>> = texts(taken@);
        let ghost reported: Seq<PartOutcome<T>> = outcomes@;
        if count > MAX_GRID_BRICKS {
            return Err(BuildError::TooManyBricks { count, max: MAX_GRID_BRICKS });
        }
        if count == 0 {
            proof {
                let part: PartTrace<T> = PartTrace { bricks, written: None };
                lemma_exported_push(
                    plans@,
                    *grid,
                    *settings,
                    skip_floor,
                    source@,
                    cancelled,
                    write,
                    trace,
                    part,
                );
                lemma_taken_names_push(source@, plans@, trace, part, i as int);
                lemma_reports_push(plans@, trace, part, i as int, outcomes@);
                trace = trace.push(part);
            }
        } else {
            let stem: String = claim_stem(
                &mut taken,
                source,
                plan.layer_name.as_str(),
                i as u64 + 1,
            );
            let ghost kept: Vec<Brick> = bricks;
            let written: T = match write(stem.as_str(), bricks) {
                Ok(w) => {
                    assert(was_written(write, stem@, kept, Ok(w)));
                    w
                },
                Err(e) => {
                    assert(was_written(write, stem@, kept, Err(e)));
                    assert(is_part_meshed(
                        plans@[i as int],
                        *grid,
                        *settings,
                        skip_floor,
                        cancelled,
                        Ok(kept),
                    ));
                    return Err(e);
                },
            };
            proof {
                let part: PartTrace<T> = PartTrace { bricks: kept, written: Some(written) };
                lemma_exported_push(
                    plans@,
                    *grid,
                    *settings,
                    skip_floor,
                    source@,
                    cancelled,
                    write,
                    trace,
                    part,
                );
                lemma_taken_names_push(source@, plans@, trace, part, i as int);
                lemma_reports_push(plans@, trace, part, i as int, outcomes@);
                trace = trace.push(part);
            }
            outcomes.push(
                PartOutcome { layer_name: plan.layer_name.clone(), brick_count: count, written },
            );
            assert(outcomes@.drop_last() =~= reported);
        }
        i = i + 1;
    }
    report(plans.len(), plans.len());
    Ok(outcomes)
}

/// Each of the plans is the part of a layer.
proof fn lemma_plan_of_layer(
    layers: Seq<super::layers::Layer>,
    fw: u32,
    fh: u32,
    size: u16,
    n: int,
    plans: Seq<PartPlan>,
    p: int,
) -> (k: int)
    requires
        super::parts::are_parts(layers, fw, fh, size, n, plans),
        0 <= p < plans.len(),
    ensures
        0 <= k < n,
        super::parts::is_part(layers, layers[k], fw, fh, size, plans[p]),
    decreases n,
{
    if super::parts::exports(layers, layers[n - 1], fw, fh) {
        if p == plans.len() - 1 {
            n - 1
        } else {
            lemma_plan_of_layer(layers, fw, fh, size, n - 1, plans.drop_last(), p)
        }
    } else {
        lemma_plan_of_layer(layers, fw, fh, size, n - 1, plans, p)
    }
}

proof fn lemma_plans_fit(
    layers: Seq<super::layers::Layer>,
    grid: HeightGrid,
    settings: MeshSettings,
    plans: Seq<PartPlan>,
)
    requires
        super::convert::field_fits(grid, settings),
        super::parts::are_parts(
            layers,
            grid.dims().0,
            grid.dims().1,
            settings.size,
            layers.len() as int,
            plans,
        ),
    ensures
        forall|i: int|
            0 <= i < plans.len() ==> plan_fits(#[trigger] plans[i], grid, settings)
                && is_masked_whole(plans[i]),
{
    let (fw, fh) = grid.dims();
    assert forall|i: int| 0 <= i < plans.len() implies plan_fits(
        #[trigger] plans[i],
        grid,
        settings,
    ) && is_masked_whole(plans[i]) by {
        let k = lemma_plan_of_layer(
            layers,
            fw,
            fh,
            settings.size,
            layers.len() as int,
            plans,
            i,
        );
        super::convert::lemma_window_offset(
            grid.dims(),
            part_window(plans[i]),
            settings.size,
        );
        assert(super::parts::is_part(layers, layers[k], fw, fh, settings.size, plans[i]));
    }
}

/// What exporting a layer stack comes to.
pub open spec fn is_layer_export<
    T,
    R: Fn(usize, usize),
    G: Fn() -> bool,
    W: Fn(&str, Vec<Brick>) -> Result<T, BuildError>,
>(
    stack: LayerStack,
    grid: HeightGrid,
    settings: MeshSettings,
    skip_floor: bool,
    source: Seq<char>,
    report: R,
    cancelled: G,
    write: W,
    outcome: Result<Vec<PartOutcome<T>>, BuildError>,
) -> bool {
    let (fw, fh) = grid.dims();
    ||| exists|plans: Seq<PartPlan>|
        #[trigger] super::parts::are_parts(
            stack.layers@,
            fw,
            fh,
            settings.size,
            stack.layers@.len() as int,
            plans,
        ) && is_export_outcome(
            plans,
            grid,
            settings,
            skip_floor,
            source,
            report,
            cancelled,
            write,
            outcome,
        )
    ||| outcome matches Err(e) && exists|
        k: int,
        before: Seq<PartPlan>,
        bbox: (u32, u32, u32, u32),
    |
        #[trigger] super::parts::first_misfit(
            stack.layers@,
            fw,
            fh,
            settings.size,
            k,
            before,
            bbox,
        ) && (e matches BuildError::BrdbWrite(text) && text@ == super::parts::extent_text(
            stack.layers@[k].name@,
        ))
}

/// Export every visible, non-empty layer as its own pre-positioned save: mesh each part and hand
/// its name and its bricks to `write`. Names are `{source}_{layer}`, disambiguated on collision, so
/// that no part clobbers another. An all-floor or fully omitted part meshes to nothing and is skipped
/// rather than written. `report` is told how many parts of how many are done.
pub fn export_layer_parts<
    T,
    R: Fn(usize, usize),
    G: Fn() -> bool,
    W: Fn(&str, Vec<Brick>) -> Result<T, BuildError>,
>(
    stack: &LayerStack,
    grid: &HeightGrid,
    out: OutputOptions,
    settings: &MeshSettings,
    source: &str,
    report: R,
    cancelled: G,
    write: W,
) -> (outcome: Result<Vec<PartOutcome<T>>, BuildError>)
    requires
        forall|n: usize, of: usize| #[trigger] call_requires(report, (n, of)),
        call_requires(cancelled, ()),
        forall|s: &str, b: Vec<Brick>| #[trigger] call_requires(write, (s, b)),
        super::convert::field_fits(*grid, *settings),
    ensures
        !super::convert::has_format(out) ==> super::convert::is_format_error(outcome),
        super::convert::has_format(out) ==> is_layer_export(
            *stack,
            *grid,
            *settings,
            out.skip_floor,
            source@,
            report,
            cancelled,
            write,
            outcome,
        ),
{
    if !out.brdb && !out.brz {
        return Err(format_error());
    }
    let (width, height) = grid.size();
    let _count: usize = grid.cell_count();
    match plan_layer_parts(stack, width, height, settings.size) {
        Ok(plans) => {
            proof {
                lemma_plans_fit(stack.layers@, *grid, *settings, plans@);
            }
            export_parts(
                &plans,
                grid,
                settings,
                out.skip_floor,
                source,
                report,
                cancelled,
                write,
            )
        },
        Err(e) => Err(e),
    }
}

/// A safe name has as many characters as the name, all of them letters, digits, `-` or `_`, and keeps those
/// that already were.
pub proof fn safe_names_keep_safe_characters(name: Seq<char>, i: int)
    requires
        0 <= i < name.len(),
    ensures
        sanitized(name).len() == name.len(),
        ({
            let c = sanitized(name)[i];
            'a' <= c <= 'z' || 'A' <= c <= 'Z' || '0' <= c <= '9' || c == '-' || c == '_'
        }),
        'a' <= name[i] <= 'z' || 'A' <= name[i] <= 'Z' || '0' <= name[i] <= '9' || name[i] == '-'
            ==> sanitized(name)[i] == name[i],
        sanitized(name)[i] != name[i] ==> sanitized(name)[i] == '_',
{
}

/// A part is named after its source and its layer, unless another part took that name.
pub proof fn parts_are_named_after_their_layers(
    source: Seq<char>,
    layer: Seq<char>,
    number: int,
    taken: Set<Seq<char>>,
)
    ensures
        !taken.contains(sanitized(source + "_"@ + layer)) ==> part_stem(source, layer, number, taken)
            == source + "_"@ + layer,
{
}

} // verus!
