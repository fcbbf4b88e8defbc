//! Generation options.
pub use crate::load::{maps_from_files, MapPair};
pub use crate::color::{to_linear_gamma, to_linear_rgb};
use crate::opt::MAX_BRICK_UNITS;
pub use crate::save::{bricks_to_save, encode_save};
use brdb::assets::bricks;
use vstd::prelude::*;

verus! {

/// How a height grid is turned into bricks.
pub struct GenOptions {
    /// World units per cell.
    pub size: u16,
    /// Vertical scale multiplier.
    pub scale: u32,
    /// Name of the procedural brick asset.
    pub asset: String,
    /// Leave out zero-height and fully transparent cells.
    pub cull: bool,
    pub micro: bool,
    pub stud: bool,
    /// Snap bricks to the brick grid.
    pub snap: bool,
    /// Render a flat image instead of terrain.
    pub img: bool,
    pub glow: bool,
    /// Heights are encoded in all four color channels.
    pub hdmap: bool,
    /// Input colors are linear already.
    pub lrgb: bool,
    pub nocollide: bool,
    pub quadtree: bool,
    pub greedy: bool,
    /// Greedy path only: fill each terrain column from its height down to the common base plane
    /// instead of emitting a constant two-unit surface tile. Image mode ignores it.
    pub fill_to_base: bool,
    /// Greedy terrain fill only: a column at or below `omit_below_h` emits no bricks, so the
    /// native ground shows through. No effect unless `fill_to_base` is set and `img` is clear.
    pub skip_floor: bool,
    /// Highest column height that `skip_floor` leaves out.
    pub omit_below_h: u32,
    /// Largest footprint of a merged brick on each axis, in world units (greedy path).
    pub max_brick_units: u16,
}

impl GenOptions {
    /// Distance from a brick's reference plane to its center.
    pub open spec fn spec_base_height(&self) -> int {
        if self.stud {
            5
        } else if self.micro {
            1
        } else {
            2
        }
    }

    pub fn base_height(&self) -> (h: i32)
        ensures
            h == self.spec_base_height(),
    {
        if self.stud {
            5
        } else if self.micro {
            1
        } else {
            2
        }
    }
}

/// The procedural bricks that a map can be built of.
#[derive(Debug, Clone, Copy, PartialEq, Eq, Structural)]
pub enum BrickAsset {
    Brick,
    MicroBrick,
    Tile,
    SmoothTile,
    Studded,
}

impl BrickAsset {
    /// The asset's name.
    pub open spec fn text(self) -> Seq<char> {
        match self {
            BrickAsset::Brick => "PB_DefaultBrick"@,
            BrickAsset::MicroBrick => "PB_DefaultMicroBrick"@,
            BrickAsset::Tile => "PB_DefaultTile"@,
            BrickAsset::SmoothTile => "PB_DefaultSmoothTile"@,
            BrickAsset::Studded => "PB_DefaultStudded"@,
        }
    }
}

/// Reads the name of a procedural brick from the constants in [`brdb::assets::bricks`]. Claimed of
/// them: they hold the names that [`BrickAsset::text`] gives.
#[verifier::external_body]
pub(crate) fn asset_name(asset: BrickAsset) -> (name: String)
    ensures
        name@ == asset.text(),
{
    let name = match asset {
        BrickAsset::Brick => bricks::PB_DEFAULT_BRICK,
        BrickAsset::MicroBrick => bricks::PB_DEFAULT_MICRO_BRICK,
        BrickAsset::Tile => bricks::PB_DEFAULT_TILE,
        BrickAsset::SmoothTile => bricks::PB_DEFAULT_SMOOTH_TILE,
        BrickAsset::Studded => bricks::PB_DEFAULT_STUDDED,
    };
    name.to_string()
}

/// What the command line asks for.
#[derive(Debug, Clone, Copy)]
pub struct CliFlags {
    pub size: u16,
    pub vertical: u32,
    pub cull: bool,
    pub tile: bool,
    pub smooth: bool,
    pub micro: bool,
    pub stud: bool,
    pub snap: bool,
    pub lrgb: bool,
    pub img: bool,
    pub glow: bool,
    pub hdmap: bool,
    pub nocollide: bool,
    pub greedy: bool,
}

impl CliFlags {
    /// The brick asset that the flags choose; the first of micro, tile, smooth and stud wins.
    pub open spec fn asset(self) -> BrickAsset {
        if self.micro {
            BrickAsset::MicroBrick
        } else if self.tile {
            BrickAsset::Tile
        } else if self.smooth {
            BrickAsset::SmoothTile
        } else if self.stud {
            BrickAsset::Studded
        } else {
            BrickAsset::Brick
        }
    }

    /// World units per cell: five per stud, one per micro brick.
    pub open spec fn units(self) -> int {
        if self.micro {
            self.size as int
        } else {
            self.size * 5
        }
    }
}

/// The generation options that the command line asks for. It keeps the flat surface: nothing is
/// filled down to a base plane and no floor is skipped.
pub fn options_from_flags(flags: CliFlags) -> (options: GenOptions)
    requires
        flags.units() <= u16::MAX,
    ensures
        options.size == flags.units(),
        options.scale == flags.vertical,
        options.asset@ == flags.asset().text(),
        options.cull == flags.cull,
        options.micro == flags.micro,
        options.stud == flags.stud,
        options.snap == flags.snap,
        options.img == flags.img,
        options.glow == flags.glow,
        options.hdmap == flags.hdmap,
        options.lrgb == flags.lrgb,
        options.nocollide == flags.nocollide,
        options.quadtree,
        options.greedy == flags.greedy,
        !options.fill_to_base,
        !options.skip_floor,
        options.omit_below_h == 0,
        options.max_brick_units == crate::opt::MAX_BRICK_UNITS,
{
    let asset: BrickAsset = if flags.micro {
        BrickAsset::MicroBrick
    } else if flags.tile {
        BrickAsset::Tile
    } else if flags.smooth {
        BrickAsset::SmoothTile
    } else if flags.stud {
        BrickAsset::Studded
    } else {
        BrickAsset::Brick
    };
    GenOptions {
        size: if flags.micro {
            flags.size
        } else {
            flags.size * 5
        },
        scale: flags.vertical,
        asset: asset_name(asset),
        cull: flags.cull,
        micro: flags.micro,
        stud: flags.stud,
        snap: flags.snap,
        img: flags.img,
        glow: flags.glow,
        hdmap: flags.hdmap,
        lrgb: flags.lrgb,
        nocollide: flags.nocollide,
        quadtree: true,
        greedy: flags.greedy,
        fill_to_base: false,
        skip_floor: false,
        omit_below_h: 0,
        max_brick_units: MAX_BRICK_UNITS,
    }
}

/// The first of micro, tile, smooth and stud decides the brick, and a plain one is built without any of
/// them; a cell is as many world units wide as it has micro bricks, or five times as many as it has studs.
pub proof fn flags_choose_brick_and_size(flags: CliFlags)
    ensures
        flags.micro ==> flags.asset().text() == "PB_DefaultMicroBrick"@,
        !flags.micro && flags.tile ==> flags.asset().text() == "PB_DefaultTile"@,
        !flags.micro && !flags.tile && flags.smooth ==> flags.asset().text() == "PB_DefaultSmoothTile"@,
        !flags.micro && !flags.tile && !flags.smooth && flags.stud ==> flags.asset().text()
            == "PB_DefaultStudded"@,
        !flags.micro && !flags.tile && !flags.smooth && !flags.stud ==> flags.asset().text()
            == "PB_DefaultBrick"@,
        flags.micro ==> flags.units() == flags.size,
        !flags.micro ==> flags.units() == 5 * flags.size,
{
}

} // verus!
