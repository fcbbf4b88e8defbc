use heightmap::save::SaveFormat;
use heightmap::sculpt::convert::OutputOptions;
use heightmap::sculpt::estimate::{
    convert_gate, plan_export, single_mesh_estimate, tiled_estimate, ExportGate, MAX_BRICKS,
};
use heightmap::sculpt::export::PartOutcome;
use heightmap::sculpt::report::{
    estimate_warning, gate_messages, heightmap_file_name, parts_message, splat_cells, splat_label,
    suggested_heightmap_name, tiling_notice,
};
use heightmap::sculpt::state::SculptState;
use heightmap::sculpt::tiling::tiles_on_axis;
use heightmap::sculpt::written::{selected_formats, WriteResult};

const RAM_RESERVE_BYTES_LOCAL: u64 = 12 * 1024 * 1024 * 1024;

/// The export estimate gates over-budget fields: a field whose
/// single-mesh brick ceiling exceeds [`MAX_BRICKS`] reports
/// `over_brick_cap` and `!fits_ram`; a tiny field with ample RAM fits.
#[test]
fn export_estimate_gates_over_budget() {
    let ample_ram = 64u64 * 1024 * 1024 * 1024;
    // A small field: well under the brick cap and the RAM budget → fits.
    let small = single_mesh_estimate(64 * 64, ample_ram);
    assert!(!small.over_brick_cap, "a 4 k-cell field is far under the brick cap");
    assert!(small.fits_ram, "a tiny mesh must fit with 64 GiB free");
    assert_eq!(small.est_bricks, 64 * 64, "est is the cell-count ceiling");

    // A field whose cell count exceeds the per-mesh brick cap → over_brick_cap,
    // and the button-gating predicate `!fits_ram` trips regardless of RAM.
    let huge_cells = MAX_BRICKS as u64 + 1;
    let huge = single_mesh_estimate(huge_cells, ample_ram);
    assert!(huge.over_brick_cap, "exceeding MAX_BRICKS must flag over_brick_cap");
    assert!(!huge.fits_ram, "over the brick cap must gate the Export button");

    // Same modest field but with almost no RAM free → fails the RAM budget.
    let starved = single_mesh_estimate(200_000, RAM_RESERVE_BYTES_LOCAL + 1);
    assert!(!starved.fits_ram, "a peak over (available - reserve) must not fit");
}

/// The TILED estimate gates on the AGGREGATE cap: tile count is
/// `ceil(w/tile)·ceil(h/tile)`; a field whose stitched union exceeds
/// the aggregate cap (not the per-mesh `MAX_BRICKS`) flags `over_brick_cap` and
/// `!fits_ram`. A field that trips the single-mesh cap but stitches under the
/// grid cap FITS when tiled.
#[test]
fn tiled_export_estimate_gates_over_budget() {
    let ample_ram = 256u64 * 1024 * 1024 * 1024;

    // Tile count math: a 1000×500 field at tile 256 → ceil(1000/256)=4 cols,
    // ceil(500/256)=2 rows = 8 tiles.
    assert_eq!(tiles_on_axis(1000, 256), 4, "ceil(1000/256) = 4 columns");
    assert_eq!(tiles_on_axis(500, 256), 2, "ceil(500/256) = 2 rows");
    let est = tiled_estimate(1000, 500, 256, ample_ram);
    assert_eq!(est.tile_count, 8, "4×2 = 8 tiles");
    assert!(!est.over_brick_cap, "a 0.5 M-cell field stitches well under MAX_GRID_BRICKS");
    assert!(est.fits_ram, "8 modest tiles must fit with 256 GiB free");

    // A field that exceeds the per-mesh MAX_BRICKS as a SINGLE mesh, but whose
    // tiled stitch is still under MAX_GRID_BRICKS → tiling is the remedy: the
    // single estimate gates, the tiled estimate fits.
    let big_side = 2000u32; // 4 M cells > MAX_BRICKS(2 M)
    let single = single_mesh_estimate(u64::from(big_side) * u64::from(big_side), ample_ram);
    assert!(single.over_brick_cap, "4 M cells over the per-mesh cap as one mesh");
    let tiled = tiled_estimate(big_side, big_side, 256, ample_ram);
    assert!(
        !tiled.over_brick_cap && tiled.fits_ram,
        "the same field tiled stitches under MAX_GRID_BRICKS and fits — tiling is the remedy",
    );

    // A field whose tiled stitch itself blows MAX_GRID_BRICKS → over the
    // aggregate cap, gated even when tiled.
    let huge_side = 30_000u32;
    let huge = tiled_estimate(huge_side, huge_side, 256, ample_ram);
    assert!(huge.over_brick_cap, "a stitch past MAX_GRID_BRICKS must flag over_brick_cap");
    assert!(!huge.fits_ram, "over the aggregate cap must gate the Export button even when tiled");
}

#[test]
fn worlds_that_do_not_fit_are_tiled() {
    let ram = 256u64 << 30;
    assert!(!plan_export(100, 100, 256, false, ram).tiled);
    assert!(plan_export(100, 100, 256, true, ram).tiled);
    let plan = plan_export(2000, 2000, 256, false, ram);
    assert!(plan.tiled);
    assert_eq!(plan.estimate, tiled_estimate(2000, 2000, 256, ram));

    let mut state = SculptState::new();
    let est = state.refresh_plan(2000, 2000);
    assert!(state.tile_export);
    assert_eq!(est.tile_count, 64);
    assert_eq!(
        tiling_notice(true, est).as_deref(),
        Some("Big world — auto-split into 64 stitched tiles on export.")
    );
    assert_eq!(tiling_notice(false, est), None);
}

#[test]
fn estimates_saturate() {
    let est = tiled_estimate(u32::MAX, u32::MAX, u32::MAX, u64::MAX);
    assert_eq!(est.tile_count, 1);
    assert_eq!(est.peak_bytes, u64::MAX);
    assert!(est.over_brick_cap && !est.fits_ram);
    assert_eq!(single_mesh_estimate(10, u64::MAX).peak_bytes, 10 * 64 + 10 * 256 * 3);
}

#[test]
fn warnings_name_what_is_over() {
    let over = single_mesh_estimate(3_000_000, u64::MAX);
    assert_eq!(
        estimate_warning(over).as_deref(),
        Some("Over the 50000000-brick cap — shrink the canvas or lower the scale.")
    );
    let starved = single_mesh_estimate(200_000, 0);
    assert_eq!(
        estimate_warning(starved).as_deref(),
        Some("Estimated peak RAM exceeds what's free — shrink the canvas or lower the scale.")
    );
    assert_eq!(estimate_warning(single_mesh_estimate(1, u64::MAX)), None);
}

fn out(brdb: bool, brz: bool) -> OutputOptions {
    OutputOptions { brdb, brz, ..OutputOptions::default() }
}

#[test]
fn an_export_needs_a_name_a_format_and_room() {
    let fits = single_mesh_estimate(1, u64::MAX);
    assert!(convert_gate("world", out(true, false), fits).enabled());
    let blank = convert_gate(" \t\u{3000}", out(false, false), single_mesh_estimate(1, 0));
    assert_eq!(blank, ExportGate { name_empty: true, no_format: true, over_budget: true });
    assert!(!blank.enabled());
    assert_eq!(
        gate_messages(blank),
        vec![
            "• Output name is empty",
            "• Select at least one output format",
            "• Over the brick/RAM budget (see the Export estimate)",
        ]
    );
    assert!(gate_messages(convert_gate("x", out(false, true), fits)).is_empty());
}

#[test]
fn heightmaps_are_named_after_the_output() {
    assert_eq!(suggested_heightmap_name("  hills "), "hills.png");
    assert_eq!(suggested_heightmap_name("   "), "heightmap.png");
    assert_eq!(heightmap_file_name("a b"), "a b.png");
}

#[test]
fn formats_are_written_worlds_first() {
    assert_eq!(selected_formats(out(true, true)), vec![SaveFormat::Brdb, SaveFormat::Brz]);
    assert_eq!(selected_formats(out(false, true)), vec![SaveFormat::Brz]);
    assert!(selected_formats(out(false, false)).is_empty());
}

#[test]
fn a_write_result_keeps_the_first_install() {
    let mut r = WriteResult::new();
    r.record(SaveFormat::Brz, "a.brz".to_string(), "/tmp", Some(Err("exists".to_string())));
    assert_eq!(r.primary_path(), "a.brz");
    r.record(SaveFormat::Brdb, "a.brdb".to_string(), "/tmp", Some(Ok("W/a.brdb".to_string())));
    r.record(SaveFormat::Brz, "b.brz".to_string(), "/tmp", Some(Ok("P/b.brz".to_string())));
    assert_eq!(r.primary_path(), "a.brdb");
    assert_eq!(r.installed_path.as_deref(), Some("W/a.brdb"));
    assert_eq!(
        r.install_warning.as_deref(),
        Some("install of a.brz skipped (exists) — the save remains in /tmp")
    );
    assert_eq!(r.extra_paths, vec!["a.brz", "b.brz"]);
}

#[test]
fn exported_parts_are_summed_up() {
    let part = |name: &str, brick_count, installed: bool| {
        let mut written = WriteResult::new();
        let install = if installed { Ok("x".to_string()) } else { Err("y".to_string()) };
        written.record(SaveFormat::Brz, "p".to_string(), "d", Some(install));
        PartOutcome { layer_name: name.to_string(), brick_count, written }
    };
    let parts = vec![part("Base", 10, true), part("Layer 1", 5, false)];
    assert_eq!(
        parts_message(&parts, Some("/out")),
        "✔ 2 part(s) · 15 bricks · 1 installed → /out  (e.g. “Base”) · 1 install warning(s)"
    );
    assert_eq!(parts_message(&vec![], Some("/out")), "✔ 0 part(s) · 0 bricks · 0 installed");
}

#[test]
fn splat_blocks_are_counted_rounded_up() {
    assert_eq!(splat_cells(10, 4), 3);
    assert_eq!(splat_cells(8, 4), 2);
    assert_eq!(splat_cells(0, 4), 0);
    assert_eq!(splat_cells(7, 0), 7);
    assert_eq!(splat_label(10, 8, 4), "≈ 3 × 2 splat cells (4 terrain-cell block)");
}
