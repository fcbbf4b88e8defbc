//! Worlds: the bricks of a save, and the format it is written in.
use crate::brick::{Brick, BrickType, Collision, Color, Material, Position};
use crate::calls::ask;
use crate::files::to_lowercase;
use crate::text::to_chars;
use brdb::assets::{bricks, materials};
use brdb::World;
use vstd::prelude::*;
use vstd::string::StringExecFns;

verus! {

/// The world of the `brdb` crate.
#[verifier::external_type_specification]
#[verifier::external_body]
pub struct ExWorld(brdb::World);

/// The bricks on the main grid of a world, in the order in which they were added.
pub uninterp spec fn world_bricks(world: World) -> Seq<Brick>;

/// The description in a world's bundle.
pub uninterp spec fn world_description(world: World) -> Seq<char>;

/// Calls [`brdb::World::new`]. Claimed of it: the world has no bricks.
#[verifier::external_body]
fn new_world() -> (world: World)
    ensures
        world_bricks(world) == Seq::<Brick>::empty(),
{
    World::new()
}

/// Calls [`brdb::World::add_brick`] with the brick in the terms of the `brdb` crate, everything
/// that a [`Brick`] does not say being the crate's default. Claimed of it: the brick joins the end
/// of the world's bricks and the description stays.
#[verifier::external_body]
fn add_brick(world: &mut World, brick: Brick)
    ensures
        world_bricks(*final(world)) == world_bricks(*old(world)).push(brick),
        world_description(*final(world)) == world_description(*old(world)),
{
    let Collision { player, weapon, interact, tool, physics } = brick.collision;
    let asset = match brick.asset {
        BrickType::Procedural { asset, size } => brdb::BrickType::Procedural {
            asset: asset.into(),
            size: size.tuple().into(),
        },
        BrickType::SpawnPoint => bricks::B_SPAWN_POINT,
    };
    let material = match brick.material { Material::Plastic => materials::PLASTIC, Material::Glow => materials::GLOW };
    let (position, color) = (brick.position.tuple().into(), brick.color.tuple().into());
    let collision = brdb::Collision { player, weapon, interact, tool, physics, ..Default::default() };
    let material_intensity = brick.material_intensity;
    world.add_brick(brdb::Brick { asset, position, color, collision, material, material_intensity, ..Default::default() });
}

/// Sets `meta.bundle.description` of a [`brdb::World`]. Claimed of it: the description is the text
/// and the bricks stay.
#[verifier::external_body]
fn describe(world: &mut World, text: String)
    ensures
        world_description(*final(world)) == text@,
        world_bricks(*final(world)) == world_bricks(*old(world)),
{
    world.meta.bundle.description = text;
}

/// The smallest number of a list; 0 for an empty one.
pub open spec fn least(s: Seq<int>) -> int
    decreases s.len(),
{
    if s.len() == 0 {
        0
    } else if s.len() == 1 || s.last() < least(s.drop_last()) {
        s.last()
    } else {
        least(s.drop_last())
    }
}

/// The largest number of a list; 0 for an empty one.
pub open spec fn greatest(s: Seq<int>) -> int
    decreases s.len(),
{
    if s.len() == 0 {
        0
    } else if s.len() == 1 || s.last() > greatest(s.drop_last()) {
        s.last()
    } else {
        greatest(s.drop_last())
    }
}

pub open spec fn xs(bricks: Seq<Brick>) -> Seq<int> {
    bricks.map_values(|b: Brick| b.position.x as int)
}

pub open spec fn ys(bricks: Seq<Brick>) -> Seq<int> {
    bricks.map_values(|b: Brick| b.position.y as int)
}

pub open spec fn zs(bricks: Seq<Brick>) -> Seq<int> {
    bricks.map_values(|b: Brick| b.position.z as int)
}

/// Half of a number, rounded toward zero.
pub open spec fn half_toward_zero(n: int) -> int {
    if n >= 0 {
        n / 2
    } else {
        -((-n) / 2)
    }
}

/// A number kept below the largest 32-bit one.
pub open spec fn at_most_i32(n: int) -> int {
    if n > i32::MAX {
        i32::MAX as int
    } else {
        n
    }
}

/// The sums that the spawn point's place is computed from are 32-bit numbers.
pub open spec fn spawn_fits(bricks: Seq<Brick>) -> bool {
    &&& i32::MIN <= least(xs(bricks)) + greatest(xs(bricks)) <= i32::MAX
    &&& i32::MIN <= least(ys(bricks)) + greatest(ys(bricks)) <= i32::MAX
}

/// The spawn point: above the middle of the bricks, 50 units over the highest one.
pub open spec fn spawn_brick(bricks: Seq<Brick>) -> Brick {
    Brick {
        asset: BrickType::SpawnPoint,
        position: Position {
            x: half_toward_zero(least(xs(bricks)) + greatest(xs(bricks))) as i32,
            y: half_toward_zero(least(ys(bricks)) + greatest(ys(bricks))) as i32,
            z: at_most_i32(greatest(zs(bricks)) + 50) as i32,
        },
        collision: Collision {
            player: true,
            weapon: true,
            interact: true,
            tool: true,
            physics: true,
        },
        color: Color { r: 255, g: 255, b: 255 },
        material: Material::Plastic,
        material_intensity: 5,
    }
}

/// The bricks of a save: the spawn point, when there is something to stand on, and the bricks.
pub open spec fn saved_bricks(bricks: Seq<Brick>) -> Seq<Brick> {
    if bricks.len() == 0 {
        bricks
    } else {
        seq![spawn_brick(bricks)] + bricks
    }
}

fn midpoint(low: i32, high: i32) -> (mid: i32)
    requires
        i32::MIN <= low + high <= i32::MAX,
    ensures
        mid == half_toward_zero(low + high),
{
    let sum: i64 = low as i64 + high as i64;
    if sum >= 0 {
        (sum / 2) as i32
    } else {
        (-((-sum) / 2)) as i32
    }
}

proof fn lemma_extremes(s: Seq<int>)
    ensures
        forall|i: int| 0 <= i < s.len() ==> least(s) <= #[trigger] s[i] <= greatest(s),
        s.len() > 0 ==> exists|i: int| 0 <= i < s.len() && #[trigger] s[i] == least(s),
        s.len() > 0 ==> exists|i: int| 0 <= i < s.len() && #[trigger] s[i] == greatest(s),
    decreases s.len(),
{
    if s.len() > 0 {
        let t = s.drop_last();
        lemma_extremes(t);
        assert(s[s.len() - 1] == s.last());
        assert forall|i: int| 0 <= i < s.len() implies least(s) <= #[trigger] s[i] <= greatest(
            s,
        ) by {
            if i < t.len() {
                assert(t[i] == s[i]);
            }
        }
        if t.len() > 0 {
            let i = choose|i: int| 0 <= i < t.len() && #[trigger] t[i] == least(t);
            let j = choose|j: int| 0 <= j < t.len() && #[trigger] t[j] == greatest(t);
            assert(s[i] == t[i]);
            assert(s[j] == t[j]);
        }
    }
}

/// The spawn point stands over the terrain: between its edges on both horizontal axes, and higher
/// than every brick that is not already at the very top.
pub proof fn spawn_stands_over_the_terrain(bricks: Seq<Brick>, i: int)
    requires
        0 <= i < bricks.len(),
    ensures
        least(xs(bricks)) <= spawn_brick(bricks).position.x <= greatest(xs(bricks)),
        least(ys(bricks)) <= spawn_brick(bricks).position.y <= greatest(ys(bricks)),
        bricks[i].position.z <= spawn_brick(bricks).position.z,
        bricks[i].position.z < i32::MAX ==> bricks[i].position.z < spawn_brick(
            bricks,
        ).position.z,
{
    lemma_extremes(xs(bricks));
    lemma_extremes(ys(bricks));
    lemma_extremes(zs(bricks));
    assert(xs(bricks)[i] == bricks[i].position.x);
    assert(ys(bricks)[i] == bricks[i].position.y);
    assert(zs(bricks)[i] == bricks[i].position.z);
}

/// How far the bricks' places reach.
struct Extent {
    min_x: i32,
    max_x: i32,
    min_y: i32,
    max_y: i32,
    max_z: i32,
}

spec fn is_extent(e: Extent, bricks: Seq<Brick>) -> bool {
    &&& e.min_x == least(xs(bricks))
    &&& e.max_x == greatest(xs(bricks))
    &&& e.min_y == least(ys(bricks))
    &&& e.max_y == greatest(ys(bricks))
    &&& e.max_z == greatest(zs(bricks))
}

fn extent(bricks: &Vec<Brick>) -> (e: Extent)
    requires
        bricks@.len() > 0,
    ensures
        is_extent(e, bricks@),
{
    let mut min_x: i32 = bricks[0].position.x;
    let mut max_x: i32 = bricks[0].position.x;
    let mut min_y: i32 = bricks[0].position.y;
    let mut max_y: i32 = bricks[0].position.y;
    let mut max_z: i32 = bricks[0].position.z;
    let mut i: usize = 1;
    let ghost all: Seq<Brick> = bricks@;
    proof {
        assert(xs(all.take(1)) =~= seq![min_x as int]);
        assert(ys(all.take(1)) =~= seq![min_y as int]);
        assert(zs(all.take(1)) =~= seq![max_z as int]);
    }
    while i < bricks.len()
        invariant
            all == bricks@,
            1 <= i <= all.len(),
            min_x == least(xs(all.take(i as int))),
            max_x == greatest(xs(all.take(i as int))),
            min_y == least(ys(all.take(i as int))),
            max_y == greatest(ys(all.take(i as int))),
            max_z == greatest(zs(all.take(i as int))),
        decreases all.len() - i,
    {
        let p: Position = bricks[i].position;
        proof {
            let next = all.take(i + 1);
            assert(xs(next).drop_last() =~= xs(all.take(i as int)));
            assert(ys(next).drop_last() =~= ys(all.take(i as int)));
            assert(zs(next).drop_last() =~= zs(all.take(i as int)));
            assert(next.last() == all[i as int]);
        }
        if p.x < min_x {
            min_x = p.x;
        }
        if p.x > max_x {
            max_x = p.x;
        }
        if p.y < min_y {
            min_y = p.y;
        }
        if p.y > max_y {
            max_y = p.y;
        }
        if p.z > max_z {
            max_z = p.z;
        }
        i = i + 1;
    }
    assert(all.take(i as int) =~= all);
    Extent { min_x, max_x, min_y, max_y, max_z }
}

/// Check that the spawn point's place can be computed.
pub fn is_spawn_fitting(bricks: &Vec<Brick>) -> (b: bool)
    ensures
        b == (bricks@.len() > 0 ==> spawn_fits(bricks@)),
{
    if bricks.len() == 0 {
        return true;
    }
    let e: Extent = extent(bricks);
    let x: i64 = e.min_x as i64 + e.max_x as i64;
    let y: i64 = e.min_y as i64 + e.max_y as i64;
    let low: i64 = i32::MIN as i64;
    let high: i64 = i32::MAX as i64;
    low <= x && x <= high && low <= y && y <= high
}

fn spawn_point(bricks: &Vec<Brick>) -> (spawn: Brick)
    requires
        bricks@.len() > 0,
        spawn_fits(bricks@),
    ensures
        spawn == spawn_brick(bricks@),
{
    let e: Extent = extent(bricks);
    let spawn_z: i32 = if e.max_z > i32::MAX - 50 {
        i32::MAX
    } else {
        e.max_z + 50
    };
    Brick {
        asset: BrickType::SpawnPoint,
        position: Position::new(
            midpoint(e.min_x, e.max_x),
            midpoint(e.min_y, e.max_y),
            spawn_z,
        ),
        collision: Collision {
            player: true,
            weapon: true,
            interact: true,
            tool: true,
            physics: true,
        },
        color: Color { r: 255, g: 255, b: 255 },
        material: Material::Plastic,
        material_intensity: 5,
    }
}

/// Given an array of bricks, create a save.
///
/// A spawn point goes above the terrain centroid so the player has somewhere to land when loading
/// the save as a world. Without one the player would spawn inside the geometry of a large terrain.
pub fn bricks_to_save(bricks: Vec<Brick>) -> (world: World)
    requires
        bricks@.len() > 0 ==> spawn_fits(bricks@),
    ensures
        world_bricks(world) == saved_bricks(bricks@),
        world_description(world) == "Save generated from heightmap file"@,
{
    let ghost all: Seq<Brick> = bricks@;
    let mut world: World = new_world();
    if bricks.len() > 0 {
        add_brick(&mut world, spawn_point(&bricks));
    }
    let ghost head: Seq<Brick> = world_bricks(world);
    assert(head + all.take(0) =~= head);
    for brick in it: bricks.into_iter()
        invariant
            it.seq() == all,
            world_bricks(world) == head + all.take(it.index() as int),
    {
        let ghost done: int = it.index() as int;
        add_brick(&mut world, brick);
        assert(all.take(done + 1) =~= all.take(done).push(all[done]));
        assert(head + all.take(done + 1) =~= (head + all.take(done)).push(all[done]));
    }
    assert(all.take(all.len() as int) =~= all);
    assert(world_bricks(world) =~= saved_bricks(all));
    describe(&mut world, "Save generated from heightmap file".to_owned());
    world
}

/// The format of a save file.
#[derive(Debug, Clone, Copy, PartialEq, Eq, Structural)]
pub enum SaveFormat {
    Brz,
    Brdb,
}

/// The text ends in the suffix.
pub open spec fn ends_in(text: Seq<char>, suffix: Seq<char>) -> bool {
    suffix.len() <= text.len() && text.skip(text.len() - suffix.len()) == suffix
}

/// The format that a lowercase file name asks for.
pub open spec fn format_by_name(lower: Seq<char>) -> Option<SaveFormat> {
    if ends_in(lower, ".brz"@) {
        Some(SaveFormat::Brz)
    } else if ends_in(lower, ".brdb"@) {
        Some(SaveFormat::Brdb)
    } else {
        None
    }
}

fn ends_with(text: &Vec<char>, suffix: &str) -> (b: bool)
    ensures
        b == ends_in(text@, suffix@),
{
    let want: Vec<char> = to_chars(suffix);
    if want.len() > text.len() {
        return false;
    }
    let start: usize = text.len() - want.len();
    let ghost tail: Seq<char> = text@.skip(start as int);
    let mut i: usize = 0;
    while i < want.len()
        invariant
            i <= want@.len(),
            want@ == suffix@,
            start + want@.len() == text@.len(),
            tail == text@.skip(start as int),
            forall|j: int| 0 <= j < i ==> tail[j] == want@[j],
        decreases want@.len() - i,
    {
        assert(tail[i as int] == text@[start + i]);
        assert(text.len() <= usize::MAX);
        if text[start + i] != want[i] {
            return false;
        }
        i = i + 1;
    }
    assert(tail =~= want@);
    true
}

/// The format that a lowercase file name asks for.
pub fn save_format(lower: &str) -> (format: Option<SaveFormat>)
    ensures
        format == format_by_name(lower@),
{
    let name: Vec<char> = to_chars(lower);
    if ends_with(&name, ".brz") {
        Some(SaveFormat::Brz)
    } else if ends_with(&name, ".brdb") {
        Some(SaveFormat::Brdb)
    } else {
        None
    }
}

/// Bytes that start as every `.brz` archive does: with the signature `BRZ`, the format version 0 and
/// one of the two compression methods, in a header that holds two lengths and a hash besides.
pub open spec fn is_brz(bytes: Seq<u8>) -> bool {
    &&& bytes.len() >= 45
    &&& bytes[0] == 0x42
    &&& bytes[1] == 0x52
    &&& bytes[2] == 0x5A
    &&& bytes[3] == 0
    &&& bytes[4] <= 1
}

/// Calls [`brdb::World::to_brz_vec`], and turns its error into text. Claimed of it: bytes that come
/// back start with the signature and the header of an archive. The rest of them is left unsaid: the
/// crate lays chunks out in the order of a hash map, and how that hashes depends on the machine's
/// word size.
#[verifier::external_body]
fn to_brz(world: &World) -> (bytes: Result<Vec<u8>, String>)
    ensures
        bytes matches Ok(b) ==> is_brz(b@),
{
    world.to_brz_vec().map_err(|e| e.to_string())
}

/// This is what [`brdb::World::to_brz_vec`] returned for the world.
pub closed spec fn is_encoding(world: &World, encoded: Result<Vec<u8>, String>) -> bool {
    call_ensures(to_brz, (world,), encoded)
}

/// What is left to do for a save: to write the bytes, or to let the `brdb` crate write its
/// database.
#[derive(Debug)]
pub enum SaveOutput {
    Brz(Vec<u8>),
    Brdb,
}

/// What comes of a save in the format, given what the encoder returned for a `.brz` one.
pub open spec fn is_save_outcome(
    format: Option<SaveFormat>,
    encoded: Result<Vec<u8>, String>,
    output: Result<SaveOutput, String>,
) -> bool {
    match format {
        Some(SaveFormat::Brz) => match encoded {
            Ok(bytes) => output == Ok::<SaveOutput, String>(SaveOutput::Brz(bytes)),
            Err(e) => output matches Err(f) && f@ == "failed to encode brz: "@ + e@,
        },
        Some(SaveFormat::Brdb) => output matches Ok(SaveOutput::Brdb),
        None => output matches Err(f) && f@ == "output file must end with .brz or .brdb"@,
    }
}

/// The outcome for an encoded world.
pub fn save_outcome(encoded: Result<Vec<u8>, String>) -> (output: Result<SaveOutput, String>)
    ensures
        is_save_outcome(Some(SaveFormat::Brz), encoded, output),
{
    match encoded {
        Ok(bytes) => Ok(SaveOutput::Brz(bytes)),
        Err(e) => {
            let mut text: String = "failed to encode brz: ".to_owned();
            text.append(e.as_str());
            Err(text)
        },
    }
}

/// Encode a world for `out_file`. The format is picked from the
/// extension: `.brz` or `.brdb` (case-insensitive). A `.brz` save is this world as the `brdb` crate
/// encodes it.
pub fn encode_save(world: &World, out_file: &str) -> (output: Result<SaveOutput, String>)
    ensures
        ({
            let format = format_by_name(crate::files::lowercase(out_file@));
            exists|encoded: Result<Vec<u8>, String>| #[trigger]
                is_save_outcome(format, encoded, output) && (format == Some(SaveFormat::Brz)
                    ==> is_encoding(world, encoded))
        }),
        output matches Ok(SaveOutput::Brz(bytes)) ==> is_brz(bytes@),
{
    let lower: String = to_lowercase(out_file);
    let ghost none: Result<Vec<u8>, String> = Err(lower);
    let ghost format: Option<SaveFormat> = format_by_name(lower@);
    match save_format(lower.as_str()) {
        Some(SaveFormat::Brz) => {
            let encoded: Result<Vec<u8>, String> = ask(to_brz, world);
            let ghost e: Result<Vec<u8>, String> = encoded;
            let output: Result<SaveOutput, String> = save_outcome(encoded);
            assert(is_save_outcome(format, e, output));
            output
        },
        Some(SaveFormat::Brdb) => {
            let output: Result<SaveOutput, String> = Ok(SaveOutput::Brdb);
            assert(is_save_outcome(format, none, output));
            output
        },
        None => {
            let output: Result<SaveOutput, String> = Err(
                "output file must end with .brz or .brdb".to_owned(),
            );
            assert(is_save_outcome(format, none, output));
            output
        },
    }
}

/// The bricks of a save are all that were given, in their order, behind one spawn point; a save without
/// bricks has none.
pub proof fn saves_keep_every_brick(bricks: Seq<Brick>)
    ensures
        bricks.len() == 0 ==> saved_bricks(bricks).len() == 0,
        bricks.len() > 0 ==> saved_bricks(bricks).len() == bricks.len() + 1,
        bricks.len() > 0 ==> saved_bricks(bricks)[0].asset is SpawnPoint,
        forall|i: int|
            0 <= i < bricks.len() ==> saved_bricks(bricks)[i + 1] == #[trigger] bricks[i],
{
}

/// The spawn point stands in the middle of the bricks, to within the half unit that is dropped toward
/// zero, and 50 units over the highest one, as far as there is room; it stops everything.
pub proof fn spawn_stands_in_the_middle(
    bricks: Seq<Brick>,
    west: int,
    east: int,
    south: int,
    north: int,
    top: int,
)
    requires
        0 <= west < bricks.len(),
        0 <= east < bricks.len(),
        0 <= south < bricks.len(),
        0 <= north < bricks.len(),
        0 <= top < bricks.len(),
        forall|i: int|
            0 <= i < bricks.len() ==> bricks[west].position.x
                <= (#[trigger] bricks[i]).position.x <= bricks[east].position.x,
        forall|i: int|
            0 <= i < bricks.len() ==> bricks[south].position.y
                <= (#[trigger] bricks[i]).position.y <= bricks[north].position.y,
        forall|i: int|
            0 <= i < bricks.len() ==> (#[trigger] bricks[i]).position.z <= bricks[top].position.z,
    ensures
        ({
            let spawn = spawn_brick(bricks);
            let x = bricks[west].position.x + bricks[east].position.x;
            let y = bricks[south].position.y + bricks[north].position.y;
            &&& spawn.asset is SpawnPoint
            &&& x >= 0 ==> x - 1 <= 2 * spawn.position.x <= x
            &&& x < 0 ==> x <= 2 * spawn.position.x <= x + 1
            &&& y >= 0 ==> y - 1 <= 2 * spawn.position.y <= y
            &&& y < 0 ==> y <= 2 * spawn.position.y <= y + 1
            &&& bricks[top].position.z <= i32::MAX - 50 ==> spawn.position.z
                == bricks[top].position.z + 50
            &&& bricks[top].position.z > i32::MAX - 50 ==> spawn.position.z == i32::MAX
            &&& spawn.collision.player && spawn.collision.weapon && spawn.collision.interact
                && spawn.collision.tool && spawn.collision.physics
        }),
{
    lemma_extremes(xs(bricks));
    lemma_extremes(ys(bricks));
    lemma_extremes(zs(bricks));
    assert(xs(bricks)[west] == bricks[west].position.x);
    assert(xs(bricks)[east] == bricks[east].position.x);
    assert(ys(bricks)[south] == bricks[south].position.y);
    assert(ys(bricks)[north] == bricks[north].position.y);
    assert(zs(bricks)[top] == bricks[top].position.z);
    let a = choose|i: int| 0 <= i < xs(bricks).len() && #[trigger] xs(bricks)[i] == least(
        xs(bricks),
    );
    let b = choose|i: int| 0 <= i < xs(bricks).len() && #[trigger] xs(bricks)[i] == greatest(
        xs(bricks),
    );
    let c = choose|i: int| 0 <= i < ys(bricks).len() && #[trigger] ys(bricks)[i] == least(
        ys(bricks),
    );
    let d = choose|i: int| 0 <= i < ys(bricks).len() && #[trigger] ys(bricks)[i] == greatest(
        ys(bricks),
    );
    let e = choose|i: int| 0 <= i < zs(bricks).len() && #[trigger] zs(bricks)[i] == greatest(
        zs(bricks),
    );
    assert(xs(bricks)[a] == bricks[a].position.x);
    assert(xs(bricks)[b] == bricks[b].position.x);
    assert(ys(bricks)[c] == bricks[c].position.y);
    assert(ys(bricks)[d] == bricks[d].position.y);
    assert(zs(bricks)[e] == bricks[e].position.z);
}

/// A file name asks for the format that it ends in, a `.brz` prefab or a `.brdb` world, whatever comes
/// before.
pub proof fn names_ask_for_their_ending(stem: Seq<char>)
    ensures
        format_by_name(stem + ".brz"@) == Some(SaveFormat::Brz),
        format_by_name(stem + ".brdb"@) == Some(SaveFormat::Brdb),
{
    reveal_strlit(".brz");
    reveal_strlit(".brdb");
    let (brz, brdb) = (stem + ".brz"@, stem + ".brdb"@);
    assert(brz.skip(brz.len() - 4) =~= ".brz"@);
    assert(brdb.skip(brdb.len() - 5) =~= ".brdb"@);
    assert(brdb.skip(brdb.len() - 4)[0] == 'b');
    assert(".brz"@[0] == '.');
}

/// A name that asks for a format ends in it.
pub proof fn formats_come_from_the_ending(name: Seq<char>) -> (stem: Seq<char>)
    ensures
        format_by_name(name) == Some(SaveFormat::Brz) ==> name == stem + ".brz"@,
        format_by_name(name) == Some(SaveFormat::Brdb) ==> name == stem + ".brdb"@,
{
    reveal_strlit(".brz");
    reveal_strlit(".brdb");
    if format_by_name(name) == Some(SaveFormat::Brz) {
        let stem = name.take(name.len() - 4);
        assert(name =~= stem + name.skip(name.len() - 4));
        stem
    } else if format_by_name(name) == Some(SaveFormat::Brdb) {
        let stem = name.take(name.len() - 5);
        assert(name =~= stem + name.skip(name.len() - 5));
        stem
    } else {
        name
    }
}

} // verus!
