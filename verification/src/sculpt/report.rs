//! What the workspace tells about an export: estimates, warnings and results.
use super::convert::MAX_GRID_BRICKS;
use super::estimate::{ExportEstimate, ExportGate};
use super::export::PartOutcome;
use super::written::WriteResult;
use crate::text::{decimal, to_chars, trim};
use vstd::prelude::*;
use vstd::string::StringExecFns;

verus! {

/// The warning that an estimate calls for. Worlds over the cap of a single mesh are split, so a
/// world over its cap exceeds what even stitched tiles may hold.
pub open spec fn warning_text(est: ExportEstimate) -> Option<Seq<char>> {
    if est.over_brick_cap {
        Some(
            "Over the "@ + crate::text::decimal_chars(MAX_GRID_BRICKS as nat)
                + "-brick cap — shrink the canvas or lower the scale."@,
        )
    } else if !est.fits_ram {
        Some(
            "Estimated peak RAM exceeds what's free — shrink the canvas or lower the scale."@,
        )
    } else {
        None
    }
}

/// The characters of a message, where there is one.
pub open spec fn message_view(message: Option<String>) -> Option<Seq<char>> {
    match message {
        Some(text) => Some(text@),
        None => None,
    }
}

/// Warn about an estimate that is over budget.
pub fn estimate_warning(est: ExportEstimate) -> (warning: Option<String>)
    ensures
        message_view(warning) == warning_text(est),
{
    if est.over_brick_cap {
        let mut text: String = "Over the ".to_owned();
        text.append(decimal(MAX_GRID_BRICKS as u64).as_str());
        text.append("-brick cap — shrink the canvas or lower the scale.");
        Some(text)
    } else if !est.fits_ram {
        Some(
            "Estimated peak RAM exceeds what's free — shrink the canvas or lower the scale.".to_owned(),
        )
    } else {
        None
    }
}

/// Tell that a world is split into tiles, where it is.
pub fn tiling_notice(tiled: bool, est: ExportEstimate) -> (notice: Option<String>)
    ensures
        message_view(notice) == if tiled {
            Some(
                "Big world — auto-split into "@ + crate::text::decimal_chars(
                    est.tile_count as nat,
                ) + " stitched tiles on export."@,
            )
        } else {
            None
        },
{
    if tiled {
        let mut text: String = "Big world — auto-split into ".to_owned();
        text.append(decimal(est.tile_count as u64).as_str());
        text.append(" stitched tiles on export.");
        Some(text)
    } else {
        None
    }
}

/// Why an export cannot start, one line for each reason.
pub fn gate_messages(gate: ExportGate) -> (lines: Vec<&'static str>)
    ensures
        lines@ == (if gate.name_empty {
            seq!["• Output name is empty"]
        } else {
            seq![]
        }) + (if gate.no_format {
            seq!["• Select at least one output format"]
        } else {
            seq![]
        }) + (if gate.over_budget {
            seq!["• Over the brick/RAM budget (see the Export estimate)"]
        } else {
            seq![]
        }),
{
    let mut lines: Vec<&'static str> = Vec::new();
    if gate.name_empty {
        lines.push("• Output name is empty");
    }
    if gate.no_format {
        lines.push("• Select at least one output format");
    }
    if gate.over_budget {
        lines.push("• Over the brick/RAM budget (see the Export estimate)");
    }
    lines
}

/// The file name of an exported heightmap with this stem.
pub open spec fn heightmap_name(stem: Seq<char>) -> Seq<char> {
    (if stem.len() == 0 {
        "heightmap"@
    } else {
        stem
    }) + ".png"@
}

/// The file name of an exported heightmap with this stem; without one it is named `heightmap`.
pub fn heightmap_file_name(stem: &str) -> (name: String)
    ensures
        name@ == heightmap_name(stem@),
{
    let mut name: String = if to_chars(stem).len() == 0 {
        "heightmap".to_owned()
    } else {
        stem.to_owned()
    };
    name.append(".png");
    name
}

/// The file name that is offered for a heightmap export under the output name that was typed in.
pub fn suggested_heightmap_name(output_name: &str) -> (name: String)
    ensures
        name@ == heightmap_name(crate::text::trimmed(output_name@)),
{
    heightmap_file_name(trim(output_name).as_str())
}

/// Number of bricks of the first `n` parts.
pub open spec fn part_bricks(parts: Seq<PartOutcome<WriteResult>>, n: int) -> int
    decreases n,
{
    if n <= 0 {
        0
    } else {
        part_bricks(parts, n - 1) + parts[n - 1].brick_count
    }
}

/// Number of the first `n` parts that were installed.
pub open spec fn installed_parts(parts: Seq<PartOutcome<WriteResult>>, n: int) -> int
    decreases n,
{
    if n <= 0 {
        0
    } else {
        installed_parts(parts, n - 1) + if parts[n - 1].written.installed_path is Some {
            1int
        } else {
            0
        }
    }
}

/// Number of the first `n` parts whose install was skipped.
pub open spec fn warned_parts(parts: Seq<PartOutcome<WriteResult>>, n: int) -> int
    decreases n,
{
    if n <= 0 {
        0
    } else {
        warned_parts(parts, n - 1) + if parts[n - 1].written.install_warning is Some {
            1int
        } else {
            0
        }
    }
}

proof fn lemma_bricks_grow(parts: Seq<PartOutcome<WriteResult>>, n: int, m: int)
    requires
        0 <= n <= m <= parts.len(),
    ensures
        0 <= part_bricks(parts, n) <= part_bricks(parts, m),
    decreases m,
{
    if n < m {
        lemma_bricks_grow(parts, n, m - 1);
    } else if m > 0 {
        lemma_bricks_grow(parts, n - 1, m - 1);
    }
}

/// The line that tells about exported parts.
pub open spec fn parts_text(
    parts: Seq<PartOutcome<WriteResult>>,
    dir: Option<Seq<char>>,
) -> Seq<char> {
    let n = parts.len() as int;
    let counts = "✔ "@ + crate::text::decimal_chars(parts.len()) + " part(s) · "@
        + crate::text::decimal_chars(part_bricks(parts, n) as nat) + " bricks · "@
        + crate::text::decimal_chars(installed_parts(parts, n) as nat) + " installed"@;
    let place = if n > 0 {
        counts + (match dir {
            Some(d) => " → "@ + d,
            None => Seq::empty(),
        }) + "  (e.g. “"@ + parts[0].layer_name@ + "”)"@
    } else {
        counts
    };
    if warned_parts(parts, n) > 0 {
        place + " · "@ + crate::text::decimal_chars(warned_parts(parts, n) as nat)
            + " install warning(s)"@
    } else {
        place
    }
}

/// Tell about exported parts: how many, with how many bricks, how many were installed, the directory
/// of the first one with its layer's name, and how many installs were skipped.
pub fn parts_message(parts: &Vec<PartOutcome<WriteResult>>, dir: Option<&str>) -> (text: String)
    requires
        part_bricks(parts@, parts@.len() as int) <= u64::MAX,
    ensures
        text@ == parts_text(
            parts@,
            match dir {
                Some(d) => Some(d@),
                None => None,
            },
        ),
{
    let mut bricks: u64 = 0;
    let mut installed: u64 = 0;
    let mut warned: u64 = 0;
    let mut i: usize = 0;
    while i < parts.len()
        invariant
            i <= parts@.len(),
            part_bricks(parts@, parts@.len() as int) <= u64::MAX,
            bricks == part_bricks(parts@, i as int),
            installed == installed_parts(parts@, i as int),
            installed <= i,
            warned == warned_parts(parts@, i as int),
            warned <= i,
        decreases parts@.len() - i,
    {
        let part: &PartOutcome<WriteResult> = &parts[i];
        proof {
            assert(parts.len() <= usize::MAX);
            lemma_bricks_grow(parts@, i + 1, parts@.len() as int);
        }
        bricks = bricks + part.brick_count as u64;
        if part.written.installed_path.is_some() {
            installed = installed + 1;
        }
        if part.written.install_warning.is_some() {
            warned = warned + 1;
        }
        i = i + 1;
    }
    let mut text: String = "✔ ".to_owned();
    text.append(decimal(parts.len() as u64).as_str());
    text.append(" part(s) · ");
    text.append(decimal(bricks).as_str());
    text.append(" bricks · ");
    text.append(decimal(installed).as_str());
    text.append(" installed");
    if parts.len() > 0 {
        let ghost counts: Seq<char> = text@;
        if let Some(d) = dir {
            text.append(" → ");
            text.append(d);
        }
        assert(text@ =~= counts + (match dir {
            Some(d) => " → "@ + d@,
            None => Seq::empty(),
        }));
        text.append("  (e.g. “");
        text.append(parts[0].layer_name.as_str());
        text.append("”)");
    }
    if warned > 0 {
        text.append(" · ");
        text.append(decimal(warned).as_str());
        text.append(" install warning(s)");
    }
    text
}

/// Number of splat blocks of side `r` along an axis.
pub fn splat_cells(extent: u32, r: u32) -> (cells: u32)
    ensures
        cells == (extent + super::paint::block_side(r) - 1) / super::paint::block_side(r),
{
    let side: u64 = if r == 0 {
        1
    } else {
        r as u64
    };
    let total: u64 = extent as u64 + (side - 1);
    proof {
        let top = extent as int * side as int;
        assert(total <= extent * side || extent == 0) by (nonlinear_arith)
            requires
                total == extent + (side - 1),
                side >= 1,
        ;
        if extent == 0 {
            vstd::arithmetic::div_mod::lemma_basic_div(total as int, side as int);
        } else {
            vstd::arithmetic::div_mod::lemma_div_is_ordered(total as int, top, side as int);
            vstd::arithmetic::div_mod::lemma_div_multiples_vanish(extent as int, side as int);
            vstd::arithmetic::mul::lemma_mul_is_commutative(extent as int, side as int);
        }
    }
    (total / side) as u32
}

/// The label of a splat resolution on a field of `width × height` cells.
pub fn splat_label(width: u32, height: u32, r: u32) -> (label: String)
    ensures
        label@ == "≈ "@ + crate::text::decimal_chars(
            ((width + super::paint::block_side(r) - 1) / super::paint::block_side(r)) as nat,
        ) + " × "@ + crate::text::decimal_chars(
            ((height + super::paint::block_side(r) - 1) / super::paint::block_side(r)) as nat,
        ) + " splat cells ("@ + crate::text::decimal_chars(super::paint::block_side(r) as nat)
            + " terrain-cell block)"@,
{
    let side: u32 = if r == 0 {
        1
    } else {
        r
    };
    let mut label: String = "≈ ".to_owned();
    label.append(decimal(splat_cells(width, r) as u64).as_str());
    label.append(" × ");
    label.append(decimal(splat_cells(height, r) as u64).as_str());
    label.append(" splat cells (");
    label.append(decimal(side as u64).as_str());
    label.append(" terrain-cell block)");
    label
}

/// What a report counts: one more part adds its bricks, and counts as installed where it has a destination
/// and as skipped where it has a warning.
pub proof fn reports_count_each_part(
    parts: Seq<PartOutcome<WriteResult>>,
    part: PartOutcome<WriteResult>,
)
    ensures
        ({
            let more = parts.push(part);
            let (n, m) = (parts.len() as int, more.len() as int);
            &&& part_bricks(more, m) == part_bricks(parts, n) + part.brick_count
            &&& part.written.installed_path is Some ==> installed_parts(more, m) == installed_parts(
                parts,
                n,
            ) + 1
            &&& part.written.installed_path is None ==> installed_parts(more, m) == installed_parts(
                parts,
                n,
            )
            &&& part.written.install_warning is Some ==> warned_parts(more, m) == warned_parts(
                parts,
                n,
            ) + 1
            &&& part.written.install_warning is None ==> warned_parts(more, m) == warned_parts(
                parts,
                n,
            )
        }),
{
    lemma_counts_push(parts, part, parts.len() as int);
}

proof fn lemma_counts_push(
    parts: Seq<PartOutcome<WriteResult>>,
    part: PartOutcome<WriteResult>,
    n: int,
)
    requires
        0 <= n <= parts.len(),
    ensures
        part_bricks(parts.push(part), n) == part_bricks(parts, n),
        installed_parts(parts.push(part), n) == installed_parts(parts, n),
        warned_parts(parts.push(part), n) == warned_parts(parts, n),
    decreases n,
{
    if n > 0 {
        lemma_counts_push(parts, part, n - 1);
    }
}

/// A warning comes exactly with an estimate that does not fit, and tells of the cap where that is exceeded.
pub proof fn warnings_come_with_misfits(est: ExportEstimate)
    ensures
        warning_text(est) is Some <==> est.over_brick_cap || !est.fits_ram,
{
}

} // verus!
