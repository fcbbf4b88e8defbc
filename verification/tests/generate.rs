use brdb::assets::bricks::PB_DEFAULT_TILE;
use heightmap::brick::{Brick, BrickSize, BrickType, Material, Position};
use heightmap::map::{ColormapPNG, RgbaImage};
use heightmap::opt::column::{emit_column_bricks, BrickColumn};
use heightmap::opt::generate::{quads_to_bricks, TaggedQuad};
use heightmap::opt::limits::is_map_fitting;
use heightmap::opt::{gen_greedy_heightmap, GreedyQuad, MAX_BRICK_UNITS};
use heightmap::sculpt::grid::HeightGrid;
use heightmap::util::GenOptions;

fn test_options(stud: bool) -> GenOptions {
    GenOptions {
        size: 5,
        scale: 1,
        asset: PB_DEFAULT_TILE.to_string(),
        cull: false,
        micro: false,
        stud,
        snap: false,
        img: false,
        glow: false,
        hdmap: false,
        lrgb: false,
        nocollide: false,
        quadtree: false,
        greedy: true,
        fill_to_base: false,
        skip_floor: false,
        omit_below_h: 0,
        max_brick_units: MAX_BRICK_UNITS,
    }
}

fn brick_height(brick: &Brick) -> u16 {
    match &brick.asset {
        BrickType::Procedural { size, .. } => size.z,
        other => panic!("expected procedural brick, got {other:?}"),
    }
}

/// Procedural footprint+height of a brick, for position-independent equality
/// (`Brick` derives no `PartialEq`, so we compare the load-bearing fields the
/// offset/centering actually drive).
fn brick_geom(b: &Brick) -> (Position, BrickSize) {
    match &b.asset {
        BrickType::Procedural { size, .. } => (b.position, *size),
        other => panic!("expected procedural brick, got {other:?}"),
    }
}

#[test]
fn skip_floor_default_off_is_byte_identical() {
    // The additive `skip_floor` flag, default-OFF, must leave the
    // fill_to_base terrain path byte-identical. A fixed quad set (some quads
    // AT the base plane `min_height`, which `skip_floor=true` would drop) is
    // meshed through `quads_to_bricks` with `skip_floor=false`, then compared
    // against an INDEPENDENT re-derivation of the loop without the flag —
    // the same desired_height formula + `emit_column_bricks`, with NO skip.
    // Equality proves the flag is a no-op when off (locks the default).
    let mut options = test_options(false);
    options.fill_to_base = true; // exercise the fill branch the skip gates on
    options.skip_floor = false; // the contract under test
    let (width, height) = (8u32, 6u32);
    let min_height = 7u32;
    let quads: Vec<TaggedQuad> = vec![
        // h == min_height (7): the would-be-skipped floor column.
        (GreedyQuad { x: 0, y: 0, w: 3, h: 2 }, 7, [1, 2, 3, 255]),
        (GreedyQuad { x: 3, y: 0, w: 2, h: 4 }, 40, [4, 5, 6, 255]),
        (GreedyQuad { x: 5, y: 2, w: 3, h: 3 }, 19, [7, 8, 9, 255]),
    ];
    let offset = (-(width as i32 * options.size as i32), -(height as i32 * options.size as i32));

    let actual = quads_to_bricks(
        quads.clone(),
        &options,
        width,
        height,
        min_height,
        Some(offset),
        &|_| true,
    )
    .expect("quads_to_bricks with skip_floor=false must mesh");

    // Independent reference: the loop without a skip branch.
    let mut reference = Vec::new();
    for (quad, h, color) in &quads {
        let desired_height = if options.fill_to_base && !options.img {
            (((*h as i32 - min_height as i32).max(0)) * options.scale as i32 / 2).max(2)
        } else {
            (options.scale * 2) as i32
        };
        emit_column_bricks(
            &mut reference,
            &options,
            BrickColumn {
                z: (options.scale * h) as i32,
                desired_height,
                size_x: quad.w as u16 * options.size,
                size_y: quad.h as u16 * options.size,
                pos_x: quad.x as i32 * options.size as i32 * 2
                    + quad.w as i32 * options.size as i32
                    + offset.0,
                pos_y: quad.y as i32 * options.size as i32 * 2
                    + quad.h as i32 * options.size as i32
                    + offset.1,
                color: *color,
            },
        );
    }

    assert!(!reference.is_empty(), "fixture must emit bricks");
    assert_eq!(
        actual.len(),
        reference.len(),
        "skip_floor=false must emit the same brick count as the loop without a skip branch",
    );
    let actual_geom: Vec<_> = actual.iter().map(brick_geom).collect();
    let reference_geom: Vec<_> = reference.iter().map(brick_geom).collect();
    assert_eq!(
        actual_geom, reference_geom,
        "skip_floor=false must be byte-identical to the loop without a skip branch (including the floor column)",
    );
}

#[test]
fn single_box_offset_unchanged() {
    // The `offset = None` default of quads_to_bricks must reproduce the
    // centering the function used to compute internally
    // (`-(width*size), -(height*size)`) byte-for-byte. A fixed quad set is
    // meshed twice — once with None, once with the explicit centered offset —
    // and the two outputs must be identical position-and-size. This locks the
    // single-box identity guarantee against the grid-offset refactor.
    let options = test_options(false);
    let (width, height) = (8u32, 6u32);
    let quads: Vec<TaggedQuad> = vec![
        (GreedyQuad { x: 0, y: 0, w: 3, h: 2 }, 10, [1, 2, 3, 255]),
        (GreedyQuad { x: 3, y: 0, w: 2, h: 4 }, 40, [4, 5, 6, 255]),
        (GreedyQuad { x: 5, y: 2, w: 3, h: 3 }, 7, [7, 8, 9, 255]),
    ];

    let from_none = quads_to_bricks(quads.clone(), &options, width, height, 0, None, &|_| true)
            .expect("None offset must mesh");

    let centered = (
        -(width as i32 * options.size as i32),
        -(height as i32 * options.size as i32),
    );
    let from_explicit = quads_to_bricks(
        quads,
        &options,
        width,
        height,
        0,
        Some(centered),
        &|_| true,
    )
    .expect("explicit centered offset must mesh");

    assert_eq!(
        from_none.len(),
        from_explicit.len(),
        "None and explicit-centered offsets must emit the same brick count",
    );
    assert!(!from_none.is_empty(), "fixture must emit bricks");
    let none_geom: Vec<_> = from_none.iter().map(brick_geom).collect();
    let explicit_geom: Vec<_> = from_explicit.iter().map(brick_geom).collect();
    assert_eq!(
        none_geom, explicit_geom,
        "offset=None must be byte-identical to the prior internal centering",
    );

    // Independently confirm the centering matches the documented formula on
    // the first quad's first brick (guards against both paths sharing a bug).
    // First quad is at (x=0, y=0, w=3, h=2): pos = quad*size*2 + dim*size +
    // offset; the x*size*2 / y*size*2 terms are 0 here (quad origin).
    let size = options.size as i32;
    let first = &from_none[0];
    assert_eq!(
        first.position.x,
        3 * size + centered.0,
        "centered pos_x must follow the quad/offset formula",
    );
    assert_eq!(
        first.position.y,
        2 * size + centered.1,
        "centered pos_y must follow the quad/offset formula",
    );
}

#[test]
fn explicit_offset_translates_by_delta() {
    // Grid mode passes a per-tile world offset; emitted positions must shift
    // by exactly the difference between two offsets (pure translation), which
    // is what makes tiles abut at integer pitch.
    let options = test_options(false);
    let (width, height) = (4u32, 4u32);
    let quads: Vec<TaggedQuad> =
        vec![(GreedyQuad { x: 1, y: 1, w: 2, h: 2 }, 12, [9, 9, 9, 255])];

    let base = quads_to_bricks(
        quads.clone(),
        &options,
        width,
        height,
        0,
        Some((0, 0)),
        &|_| true,
    )
    .expect("mesh at origin offset");
    let shifted = quads_to_bricks(
        quads,
        &options,
        width,
        height,
        0,
        Some((1000, -2000)),
        &|_| true,
    )
    .expect("mesh at shifted offset");

    assert_eq!(base.len(), shifted.len());
    for (b, s) in base.iter().zip(&shifted) {
        assert_eq!(s.position.x, b.position.x + 1000);
        assert_eq!(s.position.y, b.position.y - 2000);
        assert_eq!(s.position.z, b.position.z, "offset must not touch Z");
    }
}

#[test]
fn emit_column_bricks_splits_tall_columns_at_250() {
    let options = test_options(false);
    let mut bricks = Vec::new();
    emit_column_bricks(
        &mut bricks,
        &options,
        BrickColumn {
            z: 1200,
            desired_height: 600,
            size_x: 10,
            size_y: 15,
            pos_x: 7,
            pos_y: -3,
            color: [10, 20, 30, 255],
        },
    );

    let heights: Vec<u16> = bricks.iter().map(brick_height).collect();
    assert_eq!(
        heights,
        vec![250, 250, 100],
        "600 must split at the 250 cap"
    );
    assert_eq!(
        heights.iter().map(|&h| h as i32).sum::<i32>(),
        600,
        "stacked bricks must preserve the total column height"
    );

    // Each brick's grid Z drops by 2x the previous brick's height; the
    // stored position Z is base_height - 5 + (z - height).
    let base = options.base_height() - 5;
    assert_eq!(bricks[0].position.z, base + 1200 - 250);
    assert_eq!(bricks[1].position.z, base + (1200 - 500) - 250);
    assert_eq!(bricks[2].position.z, base + (1200 - 1000) - 100);
    for b in &bricks {
        assert_eq!((b.position.x, b.position.y), (7, -3));
    }
}

#[test]
fn emit_column_bricks_rounds_odd_heights_to_parity() {
    // Non-stud parity is 2: a desired height of 3 must round up to 4.
    let options = test_options(false);
    let mut bricks = Vec::new();
    emit_column_bricks(
        &mut bricks,
        &options,
        BrickColumn {
            z: 6,
            desired_height: 3,
            size_x: 5,
            size_y: 5,
            pos_x: 0,
            pos_y: 0,
            color: [0, 0, 0, 255],
        },
    );
    let heights: Vec<u16> = bricks.iter().map(brick_height).collect();
    assert_eq!(heights, vec![4], "odd height must round up to parity 2");
}

#[test]
fn emit_column_bricks_respects_stud_minimum() {
    // Stud parity is 5: a desired height of 2 must become at least 5.
    let options = test_options(true);
    let mut bricks = Vec::new();
    emit_column_bricks(
        &mut bricks,
        &options,
        BrickColumn {
            z: 10,
            desired_height: 2,
            size_x: 5,
            size_y: 5,
            pos_x: 0,
            pos_y: 0,
            color: [0, 0, 0, 255],
        },
    );
    let heights: Vec<u16> = bricks.iter().map(brick_height).collect();
    assert_eq!(heights, vec![5], "stud bricks must be at least 5 tall");
}

#[test]
fn stud_columns_keep_to_the_height_cap() {
    let options = test_options(true);
    let heights = |desired_height: i32| -> Vec<u16> {
        let mut bricks = Vec::new();
        let column = BrickColumn {
            z: 2000,
            desired_height,
            size_x: 5,
            size_y: 5,
            pos_x: 0,
            pos_y: 0,
            color: [0, 0, 0, 255],
        };
        emit_column_bricks(&mut bricks, &options, column);
        bricks.iter().map(brick_height).collect()
    };
    assert_eq!(heights(249), vec![250], "249 rounds up to the cap, not past it");
    assert_eq!(heights(7), vec![10]);
    assert_eq!(heights(250), vec![250]);
    assert_eq!(heights(251), vec![250, 5]);
}

#[test]
fn emit_column_bricks_uses_validated_material_and_collision() {
    // The greedy-path semantics validated in-game: non-glow bricks get
    // PLASTIC at intensity 5, and tool collision stays at its default.
    let options = test_options(false);
    let mut bricks = Vec::new();
    emit_column_bricks(
        &mut bricks,
        &options,
        BrickColumn {
            z: 4,
            desired_height: 2,
            size_x: 5,
            size_y: 5,
            pos_x: 0,
            pos_y: 0,
            color: [1, 2, 3, 255],
        },
    );
    assert_eq!(bricks.len(), 1);
    assert_eq!(bricks[0].material, Material::Plastic);
    assert_eq!(bricks[0].material_intensity, 5);
    assert!(bricks[0].collision.player);
    assert!(bricks[0].collision.tool);
    assert_eq!(
        (bricks[0].color.r, bricks[0].color.g, bricks[0].color.b),
        (1, 2, 3)
    );
}

/// A uniform field merges maximally, so it stresses the per-quad cell cap.
fn uniform_maps(width: u32, height: u32) -> (HeightGrid, ColormapPNG) {
    let cells = (width * height) as usize;
    let picture = RgbaImage { width, height, pixels: vec![[128, 128, 128, 255]; cells] };
    (HeightGrid::new(width, height, vec![20; cells]), ColormapPNG::from_image(picture, true))
}

/// A merged brick's world footprint is `quad_cells * options.size`. The
/// per-quad cell cap must shrink as `size` (= horizontal_scale * 5) grows so
/// no brick exceeds `MAX_BRICK_UNITS` — the in-game-render limit (bigger bricks
/// silently drop in Brickadia → gaps). At `size = 35` a wide flat band merges
/// up to `floor(MAX_BRICK_UNITS/35)` cells: the cap is exercised (the largest
/// brick fills the budget to within one cell) but never overruns it.
#[test]
fn greedy_merges_never_exceed_the_brick_unit_cap() {
    let (map, colors) = uniform_maps(800, 4);
    let mut options = test_options(false);
    options.size = 35; // horizontal scale 7 (× 5 units/stud)
    options.fill_to_base = true;
    let cell_size = options.size; // captured before `options` moves into the mesher
    let bricks =
        gen_greedy_heightmap(&map, &colors, options, Some(0), Some((0, 0)), |_| true, None)
            .expect("greedy mesh must succeed");
    assert!(!bricks.is_empty(), "a uniform field must emit bricks");
    let mut max_axis = 0u16;
    for b in &bricks {
        let (_, size) = brick_geom(b);
        assert!(
            size.x <= MAX_BRICK_UNITS && size.y <= MAX_BRICK_UNITS,
            "merged brick {}×{} units exceeds MAX_BRICK_UNITS ({})",
            size.x,
            size.y,
            MAX_BRICK_UNITS,
        );
        max_axis = max_axis.max(size.x).max(size.y);
    }
    // The cap is actually exercised: the largest brick fills the budget to
    // within one cell (`floor(cap/size)*size`), proving merges aren't
    // artificially small — yet none overruns `MAX_BRICK_UNITS`.
    assert!(
        max_axis > MAX_BRICK_UNITS - cell_size,
        "a wide flat band must merge up to the cap (within one cell), got {max_axis}",
    );
}

/// The same cap holds for micro bricks at horizontal scale > 1 (`size > 1`):
/// micro's larger merge budget must still scale down with `size` so a merged
/// micro brick never exceeds `MAX_BRICK_UNITS` either.
#[test]
fn greedy_micro_merges_never_exceed_the_brick_unit_cap() {
    let (map, colors) = uniform_maps(800, 4);
    let mut options = test_options(false);
    options.micro = true;
    options.size = 40; // micro at horizontal scale 40 (× 1 unit/stud)
    options.fill_to_base = true;
    let bricks =
        gen_greedy_heightmap(&map, &colors, options, Some(0), Some((0, 0)), |_| true, None)
            .expect("greedy micro mesh must succeed");
    assert!(!bricks.is_empty(), "a uniform field must emit bricks");
    for b in &bricks {
        let (_, size) = brick_geom(b);
        assert!(
            size.x <= MAX_BRICK_UNITS && size.y <= MAX_BRICK_UNITS,
            "merged micro brick {}×{} units exceeds MAX_BRICK_UNITS ({})",
            size.x,
            size.y,
            MAX_BRICK_UNITS,
        );
    }
}

/// Fresh greedy options for the keep-mask tests: fill_to_base on (so every
/// kept cell emits a column) and a small fixed canvas.
fn mask_test_options() -> GenOptions {
    let mut o = test_options(false);
    o.fill_to_base = true;
    o
}

fn geom_of(bricks: &[Brick]) -> Vec<(Position, BrickSize)> {
    bricks.iter().map(brick_geom).collect()
}

#[test]
fn keep_mask_none_is_byte_identical() {
    // The identity guard: an all-`true` mask must mesh byte-identically to
    // `None`, so the masking machinery is provably inert by default.
    let (map, colors) = uniform_maps(8, 4);
    let none = gen_greedy_heightmap(
        &map, &colors, mask_test_options(), Some(0), Some((0, 0)), |_| true, None,
    )
    .expect("None mesh");
    let all_true = vec![true; 8 * 4];
    let masked = gen_greedy_heightmap(
        &map, &colors, mask_test_options(), Some(0), Some((0, 0)), |_| true, Some(&all_true),
    )
    .expect("all-true mesh");
    assert!(!none.is_empty(), "fixture must emit bricks");
    assert_eq!(geom_of(&none), geom_of(&masked), "all-true mask == None");
}

#[test]
fn keep_mask_all_false_emits_no_bricks() {
    // Every cell masked out → no occupancy in any plane → zero bricks.
    let (map, colors) = uniform_maps(8, 4);
    let mask = vec![false; 8 * 4];
    let bricks = gen_greedy_heightmap(
        &map, &colors, mask_test_options(), Some(0), Some((0, 0)), |_| true, Some(&mask),
    )
    .expect("all-false mesh");
    assert!(bricks.is_empty(), "a fully-masked field emits nothing");
}

#[test]
fn keep_mask_partial_changes_geometry() {
    // Keep only the left half (x < 4). The mesh must differ from the full
    // field and still emit bricks — proof the mask drops real geometry.
    let (map, colors) = uniform_maps(8, 4);
    let mut mask = vec![false; 8 * 4];
    for y in 0..4 {
        for x in 0..4 {
            mask[y * 8 + x] = true;
        }
    }
    let full = gen_greedy_heightmap(
        &map, &colors, mask_test_options(), Some(0), Some((0, 0)), |_| true, None,
    )
    .expect("full mesh");
    let masked = gen_greedy_heightmap(
        &map, &colors, mask_test_options(), Some(0), Some((0, 0)), |_| true, Some(&mask),
    )
    .expect("half-masked mesh");
    assert!(!masked.is_empty(), "half a field still emits bricks");
    assert_ne!(geom_of(&full), geom_of(&masked), "masking must change the mesh");
}

#[test]
fn keep_mask_wrong_length_is_a_checked_error() {
    let (map, colors) = uniform_maps(8, 4);
    let mask = vec![true; 8 * 4 - 1]; // one short
    let result = gen_greedy_heightmap(
        &map, &colors, mask_test_options(), Some(0), Some((0, 0)), |_| true, Some(&mask),
    );
    // `.err()` (Option) sidesteps `expect_err`, which would need the Ok type
    // `Vec<Brick>` to be Debug (brdb::Brick is not).
    assert!(result.is_err(), "a mask length mismatch must error, not panic");
    let err = result.err().expect("checked above");
    assert!(err.contains("keep_mask length"), "informative error: {err}");
}

#[test]
fn maps_that_would_overflow_are_told_apart() {
    let (heights, colors) = uniform_maps(4, 3);
    assert!(is_map_fitting(&heights, &colors, &test_options(false)));

    // A quadtree needs cells of at least one unit.
    let mut flat = test_options(false);
    flat.greedy = false;
    flat.size = 0;
    assert!(!is_map_fitting(&heights, &colors, &flat));
    flat.size = 5;
    assert!(is_map_fitting(&heights, &colors, &flat));

    // Columns as high as `u32` goes do not fit the positions of bricks.
    let tall = HeightGrid::new(1, 1, vec![u32::MAX]);
    assert!(!is_map_fitting(&tall, &colors, &test_options(false)));
}
