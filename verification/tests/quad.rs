use brdb::assets::bricks::PB_DEFAULT_TILE;
use heightmap::brick::BrickType;
use heightmap::map::{ColormapPNG, RgbaImage};
use heightmap::opt::{gen_opt_heightmap, gen_quad_heightmap, Progress, QuadTree, CANCELLED_MSG, MAX_BRICK_UNITS};
use heightmap::sculpt::grid::HeightGrid;
use heightmap::util::GenOptions;
use std::cell::RefCell;

/// Maps with these heights and colors, row by row.
fn maps(
    width: u32,
    height: u32,
    heights: Vec<u32>,
    colors: Vec<[u8; 4]>,
) -> (HeightGrid, ColormapPNG) {
    let picture = RgbaImage { width, height, pixels: colors };
    (HeightGrid::new(width, height, heights), ColormapPNG::from_image(picture, true))
}

fn uniform(width: u32, height: u32, h: u32, color: [u8; 4]) -> (HeightGrid, ColormapPNG) {
    let cells = (width * height) as usize;
    maps(width, height, vec![h; cells], vec![color; cells])
}

/// Four colors of which no two are the same.
fn four_colors() -> Vec<[u8; 4]> {
    vec![[255, 0, 0, 255], [0, 255, 0, 255], [0, 0, 255, 255], [255, 255, 0, 255]]
}

fn test_options() -> GenOptions {
    GenOptions {
        size: 5,
        scale: 1,
        asset: PB_DEFAULT_TILE.to_string(),
        cull: false,
        micro: false,
        stud: false,
        snap: false,
        img: false,
        glow: false,
        hdmap: false,
        lrgb: false,
        nocollide: false,
        quadtree: true,
        greedy: false,
        fill_to_base: false,
        skip_floor: false,
        omit_below_h: 0,
        max_brick_units: MAX_BRICK_UNITS,
    }
}

#[test]
fn new_builds_one_tile_per_pixel() {
    let (map, colors) = maps(2, 2, vec![1, 2, 3, 4], four_colors());
    let quad = QuadTree::new(&map, &colors).expect("quadtree build");

    assert_eq!(quad.tiles.len(), 4, "2x2 map must produce 4 tiles");
    for tile in quad.tiles.iter() {
        let (x, y) = tile.center;
        assert_eq!(tile.height, 1 + x + y * 2);
        assert_eq!(tile.color, four_colors()[(x + y * 2) as usize]);
        assert_eq!(tile.size, (1, 1));
        assert!(tile.parent.is_none());
    }
}

#[test]
fn new_rejects_mismatched_dimensions() {
    let (hm, _) = uniform(2, 2, 1, [255, 0, 0, 255]);
    let (_, cm) = uniform(3, 2, 1, [255, 0, 0, 255]);
    assert!(QuadTree::new(&hm, &cm).is_err());
}

#[test]
fn into_bricks_covers_every_unmerged_tile() {
    // Distinct colors prevent any merge, so a 2x2 map must yield exactly
    // 4 bricks at the 4 centered footprint positions.
    let (map, colors) = maps(2, 2, vec![1; 4], four_colors());
    let quad = QuadTree::new(&map, &colors).expect("quadtree build");
    let bricks = quad.into_bricks(test_options(), 2, 2);

    assert_eq!(bricks.len(), 4);
    let mut positions: Vec<(i32, i32)> = bricks
        .iter()
        .map(|b| (b.position.x, b.position.y))
        .collect();
    positions.sort_unstable();
    assert_eq!(positions, vec![(-5, -5), (-5, 5), (5, -5), (5, 5)]);
}

#[test]
fn line_optimize_merges_a_uniform_row() {
    let (map, colors) = uniform(4, 1, 1, [128, 128, 128, 255]);
    let mut quad = QuadTree::new(&map, &colors).expect("quadtree build");

    let unmerged = quad.into_bricks(test_options(), 4, 1).len();
    assert_eq!(unmerged, 4, "before optimization every pixel is a brick");

    let merged = quad.line_optimize(test_options().size as u32);
    assert!(merged > 0, "uniform row must merge at least one tile");
    assert_eq!(quad.line_optimize(test_options().size as u32), 0);

    let bricks = quad.into_bricks(test_options(), 4, 1);
    assert_eq!(bricks.len(), 1, "uniform 4x1 row must merge into one brick");
}

/// A uniform square merges into one brick of its footprint.
#[test]
fn a_uniform_square_is_one_brick() {
    let (map, colors) = uniform(4, 4, 3, [9, 8, 7, 255]);
    let bricks = gen_opt_heightmap(&map, &colors, test_options(), None, None, |_| true)
        .expect("must generate");
    assert_eq!(bricks.len(), 1);
    assert_eq!((bricks[0].position.x, bricks[0].position.y), (0, 0));
    match &bricks[0].asset {
        BrickType::Procedural { size, .. } => assert_eq!((size.x, size.y), (20, 20)),
        other => panic!("expected a procedural brick, got {other:?}"),
    }
}

/// The option decides between the two meshers.
#[test]
fn greedy_option_selects_the_greedy_mesher() {
    let (map, colors) = uniform(3, 1, 3, [9, 8, 7, 255]);
    let seen = RefCell::new(Vec::new());
    let mut options = test_options();
    options.greedy = true;
    gen_opt_heightmap(&map, &colors, options, None, None, |p| {
        seen.borrow_mut().push(p);
        true
    })
    .expect("must generate");
    assert!(seen.borrow().contains(&Progress::PlanesBuilt));
}

#[test]
fn a_stopped_run_is_cancelled() {
    let (map, colors) = uniform(2, 2, 3, [9, 8, 7, 255]);
    let quad = gen_quad_heightmap(&map, &colors, test_options(), None, None, |_| false);
    assert_eq!(quad.err().as_deref(), Some(CANCELLED_MSG));
    let mut options = test_options();
    options.greedy = true;
    let greedy = gen_opt_heightmap(&map, &colors, options, None, None, |_| false);
    assert_eq!(greedy.err().as_deref(), Some(CANCELLED_MSG));
}

#[test]
fn mismatched_maps_are_refused() {
    let (map, _) = uniform(2, 2, 3, [9, 8, 7, 255]);
    let (_, colors) = uniform(2, 3, 3, [9, 8, 7, 255]);
    let quad = gen_opt_heightmap(&map, &colors, test_options(), None, None, |_| true);
    let mut options = test_options();
    options.greedy = true;
    let greedy = gen_opt_heightmap(&map, &colors, options, None, None, |_| true);
    assert_eq!(quad.err(), greedy.err());
}

/// What a run reports, asked to stop at the first report that `stop` picks.
fn reports_until(options: GenOptions, stop: impl Fn(&Progress) -> bool) -> (Vec<Progress>, bool) {
    let (map, colors) = uniform(4, 4, 3, [9, 8, 7, 255]);
    let seen = RefCell::new(Vec::new());
    let result = gen_opt_heightmap(&map, &colors, options, None, None, |p| {
        let go = !stop(&p);
        seen.borrow_mut().push(p);
        go
    });
    if let Err(e) = &result {
        assert_eq!(e.as_str(), CANCELLED_MSG);
    }
    (seen.into_inner(), result.is_ok())
}

/// A run ends at the very report that is answered with a stop, whichever it is.
#[test]
fn every_report_can_stop_the_run() {
    for greedy in [false, true] {
        let options = || GenOptions { greedy, ..test_options() };
        let (all, done) = reports_until(options(), |_| false);
        assert!(done, "nothing stopped the run");
        assert_eq!(all.first(), Some(&Progress::Start));
        assert_eq!(all.last(), Some(&Progress::Finished));
        let kinds: Vec<bool> = vec![
            all.iter().any(|p| matches!(p, Progress::QuadLevel { .. })),
            all.iter().any(|p| matches!(p, Progress::LinePass { .. })),
            all.iter().any(|p| matches!(p, Progress::QuadsPlaced { .. })),
        ];
        assert_eq!(kinds, vec![!greedy, !greedy, greedy]);
        for (i, at) in all.iter().enumerate() {
            let (seen, done) = reports_until(options(), |p| p == at);
            assert!(!done, "a stop at {at:?} must cancel the run");
            assert_eq!(seen, all[..=i].to_vec());
        }
    }
}

/// A line merge grows bricks along one axis only, and the rows still cover the map once.
#[test]
fn line_merges_grow_along_one_axis() {
    let (map, colors) = maps(3, 2, vec![5, 5, 5, 7, 7, 9], vec![[1, 2, 3, 255]; 6]);
    let mut quad = QuadTree::new(&map, &colors).expect("quadtree build");
    while quad.line_optimize(5) > 0 {}
    let mut sizes: Vec<(u16, u16)> = quad
        .into_bricks(test_options(), 3, 2)
        .iter()
        .map(|b| match &b.asset {
            BrickType::Procedural { size, .. } => (size.x, size.y),
            other => panic!("expected a procedural brick, got {other:?}"),
        })
        .collect();
    sizes.sort();
    assert_eq!(sizes, vec![(5, 5), (10, 5), (15, 5)]);
}
