use heightmap::brick::{
    Brick, BrickSize, BrickType, Collision, Color, Material, Position,
};
use heightmap::save::{
    bricks_to_save, encode_save, is_spawn_fitting, save_format, SaveFormat, SaveOutput,
};

fn brick_at(x: i32, y: i32, z: i32) -> Brick {
    Brick {
        asset: BrickType::Procedural {
            asset: "PB_DefaultBrick".to_string(),
            size: BrickSize { x: 5, y: 5, z: 6 },
        },
        position: Position::new(x, y, z),
        collision: Collision {
            player: true,
            weapon: true,
            interact: true,
            tool: true,
            physics: true,
        },
        color: Color { r: 1, g: 2, b: 3 },
        material: Material::Glow,
        material_intensity: 0,
    }
}

#[test]
fn injects_one_spawn_point_at_centroid_above_peak() {
    // x in {0,100,50} -> cx = (0+100)/2 = 50
    // y in {0,40,80}  -> cy = (0+80)/2  = 40
    // z in {0,200,120} -> max_z = 200 -> spawn_z = 250
    let input = vec![brick_at(0, 0, 0), brick_at(100, 40, 200), brick_at(50, 80, 120)];
    let n = input.len();
    let world = bricks_to_save(input);

    assert_eq!(world.bricks.len(), n + 1, "exactly one spawn brick should be added");
    let spawn = &world.bricks[0];
    assert_eq!((spawn.position.x, spawn.position.y, spawn.position.z), (50, 40, 250));
    assert!(
        format!("{:?}", spawn.asset).contains("SpawnPoint"),
        "first brick must be a B_SpawnPoint, got {:?}",
        spawn.asset,
    );
}

#[test]
fn injects_no_spawn_for_empty_brick_set() {
    let world = bricks_to_save(vec![]);
    assert!(world.bricks.is_empty(), "no spawn point should be injected when there are no bricks");
}

#[test]
fn bricks_keep_their_looks_in_the_save() {
    let world = bricks_to_save(vec![brick_at(-7, 8, 9)]);
    assert_eq!(world.meta.bundle.description, "Save generated from heightmap file");
    let brick = &world.bricks[1];
    assert_eq!((brick.position.x, brick.position.y, brick.position.z), (-7, 8, 9));
    assert_eq!((brick.color.r, brick.color.g, brick.color.b), (1, 2, 3));
    assert_eq!(brick.material_intensity, 0);
    assert!(format!("{:?}", brick.material).contains("Glow"), "{:?}", brick.material);
    match &brick.asset {
        brdb::BrickType::Procedural { asset, size } => {
            assert_eq!(asset.as_ref(), "PB_DefaultBrick");
            assert_eq!((size.x, size.y, size.z), (5, 5, 6));
        }
        other => panic!("expected a procedural brick, got {other:?}"),
    }
}

#[test]
fn the_spawn_point_rounds_toward_zero_and_stops_at_the_top() {
    let world = bricks_to_save(vec![brick_at(-3, 0, i32::MAX), brick_at(0, 3, 0)]);
    let spawn = &world.bricks[0];
    assert_eq!((spawn.position.x, spawn.position.y, spawn.position.z), (-1, 1, i32::MAX));
}

#[test]
fn far_apart_bricks_have_no_place_for_a_spawn_point() {
    assert!(is_spawn_fitting(&vec![]));
    assert!(is_spawn_fitting(&vec![brick_at(i32::MAX, 0, 0), brick_at(i32::MIN, 0, 0)]));
    assert!(!is_spawn_fitting(&vec![brick_at(i32::MAX, 0, 0)]));
    assert!(!is_spawn_fitting(&vec![brick_at(0, i32::MIN, 0), brick_at(0, -1, 0)]));
}

#[test]
fn the_output_name_decides_the_format() {
    assert_eq!(save_format("a.brz"), Some(SaveFormat::Brz));
    assert_eq!(save_format("a.brdb"), Some(SaveFormat::Brdb));
    assert_eq!(save_format("brz"), None);
    let world = bricks_to_save(vec![brick_at(0, 0, 0)]);
    match encode_save(&world, "Out.BRZ") {
        Ok(SaveOutput::Brz(bytes)) => {
            assert!(bytes.starts_with(b"BRZ"), "an encoded prefab has its signature");
            assert!(bytes.len() >= 45, "a header follows the signature");
            assert_eq!(bytes[3], 0, "format version");
            assert!(bytes[4] <= 1, "compression method");
        }
        other => panic!("expected encoded bytes, got {other:?}"),
    }
    assert!(matches!(encode_save(&world, "out.brdb"), Ok(SaveOutput::Brdb)));
    assert_eq!(
        encode_save(&world, "out.zip").err().as_deref(),
        Some("output file must end with .brz or .brdb")
    );
}

/// A save is of the world that was handed over: worlds that differ have different saves.
#[test]
fn a_save_holds_its_own_world() {
    let save = |world: &brdb::World| match encode_save(world, "out.brz") {
        Ok(SaveOutput::Brz(bytes)) => bytes,
        other => panic!("expected encoded bytes, got {other:?}"),
    };
    let one = save(&bricks_to_save(vec![brick_at(0, 0, 0)]));
    let many = (0..500).map(|i| brick_at(i * 37 % 1009, i * 53 % 997, i)).collect();
    let many = save(&bricks_to_save(many));
    assert_ne!(one, many);
    assert!(many.len() > one.len(), "500 bricks take more room than one");
}
