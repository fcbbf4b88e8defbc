//! Stacks of bricks that fill one terrain column.
use crate::brick::{Brick, BrickSize, BrickType, Collision, Color, Material, Position};
use crate::util::GenOptions;
use vstd::prelude::*;

verus! {

/// Tallest procedural brick of a column, in brick height units.
pub const MAX_BRICK_HEIGHT: i32 = 250;

/// One vertical column of terrain: its footprint, world position, starting
/// grid Z, and the total height it must fill.
#[derive(Debug, Clone, Copy)]
pub struct BrickColumn {
    /// Grid Z of the column top (post-snap), in heightmap half-units.
    pub z: i32,
    /// Total height to fill, in brick height units.
    pub desired_height: i32,
    pub size_x: u16,
    pub size_y: u16,
    pub pos_x: i32,
    pub pos_y: i32,
    pub color: [u8; 4],
}

/// Brick heights are multiples of this many units.
pub open spec fn height_parity(options: GenOptions) -> int {
    if options.stud {
        5
    } else {
        2
    }
}

/// The next multiple of `step` that is not below `n`.
pub open spec fn rounded_up(n: int, step: int) -> int {
    (n + step - 1) / step * step
}

/// Height of the next brick of a column with `desired` units left to fill: what is left, rounded up
/// to a multiple of the parity, but no more than the tallest brick.
pub open spec fn piece_height(options: GenOptions, desired: int) -> int {
    if desired > MAX_BRICK_HEIGHT {
        MAX_BRICK_HEIGHT as int
    } else {
        rounded_up(desired, height_parity(options))
    }
}

/// The brick of height `height` whose top lies at grid Z `z`.
pub open spec fn column_brick(options: GenOptions, col: BrickColumn, z: int, height: int) -> Brick {
    Brick {
        asset: BrickType::Procedural {
            asset: options.asset,
            size: BrickSize {
                x: col.size_x,
                y: col.size_y,
                z: if options.img && options.micro {
                    options.size
                } else {
                    height as u16
                },
            },
        },
        position: Position {
            x: col.pos_x,
            y: col.pos_y,
            z: (options.spec_base_height() - 5 + if options.img {
                0
            } else {
                z - height
            }) as i32,
        },
        collision: Collision {
            player: !options.nocollide,
            weapon: !options.nocollide,
            interact: !options.nocollide,
            tool: true,
            physics: true,
        },
        color: Color { r: col.color[0], g: col.color[1], b: col.color[2] },
        material: if options.glow {
            Material::Glow
        } else {
            Material::Plastic
        },
        material_intensity: if options.glow {
            0
        } else {
            5
        },
    }
}

/// The stack, from the top down, that fills `desired` units below grid Z `z`.
pub open spec fn column_stack(
    options: GenOptions,
    col: BrickColumn,
    z: int,
    desired: int,
) -> Seq<Brick>
    decreases
        if desired > 0 {
            desired
        } else {
            0
        },
{
    if desired <= 0 {
        Seq::empty()
    } else {
        let height = piece_height(options, desired);
        seq![column_brick(options, col, z, height)] + column_stack(
            options,
            col,
            z - 2 * height,
            desired - height,
        )
    }
}

/// The bricks that fill a column.
pub open spec fn column_bricks(options: GenOptions, col: BrickColumn) -> Seq<Brick> {
    column_stack(options, col, col.z as int, col.desired_height as int)
}

/// The positions along the stack stay inside the `i32` range.
pub open spec fn stack_fits(options: GenOptions, z: int, desired: int) -> bool
    decreases
        if desired > 0 {
            desired
        } else {
            0
        },
{
    desired > 0 ==> {
        let height = piece_height(options, desired);
        &&& z - 2 * height >= i32::MIN
        &&& options.img || options.spec_base_height() - 5 + z - height >= i32::MIN
        &&& stack_fits(options, z - 2 * height, desired - height)
    }
}

/// Emit the stack of bricks for one terrain column, splitting at the 250-unit
/// procedural-brick height cap. Shared by the greedy and quadtree paths.
pub fn emit_column_bricks(out: &mut Vec<Brick>, options: &GenOptions, col: BrickColumn)
    requires
        stack_fits(*options, col.z as int, col.desired_height as int),
    ensures
        final(out)@ == old(out)@ + column_bricks(*options, col),
        forall|i: int|
            old(out)@.len() <= i < final(out)@.len() && !(options.img && options.micro)
                ==> is_legal_height(*options, #[trigger] final(out)@[i]),
{
    let parity: i32 = if options.stud {
        5
    } else {
        2
    };
    let mut z: i32 = col.z;
    let mut desired_height: i32 = col.desired_height;
    assert(out@ + column_stack(*options, col, z as int, desired_height as int) =~= old(out)@
        + column_bricks(*options, col));
    while desired_height > 0
        invariant
            parity == height_parity(*options),
            stack_fits(*options, z as int, desired_height as int),
            out@ + column_stack(*options, col, z as int, desired_height as int) == old(out)@
                + column_bricks(*options, col),
        decreases
            if desired_height > 0 {
                desired_height as int
            } else {
                0
            },
    {
        let brick_height: i32 = if desired_height > MAX_BRICK_HEIGHT {
            MAX_BRICK_HEIGHT
        } else {
            (desired_height + parity - 1) / parity * parity
        };
        proof {
            lemma_piece(*options, desired_height as int);
        }
        let offset_z: i32 = if options.img {
            0
        } else {
            z - brick_height
        };
        let brick: Brick = Brick {
            asset: BrickType::Procedural {
                asset: options.asset.clone(),
                size: BrickSize {
                    x: col.size_x,
                    y: col.size_y,
                    z: if options.img && options.micro {
                        options.size
                    } else {
                        brick_height as u16
                    },
                },
            },
            position: Position::new(
                col.pos_x,
                col.pos_y,
                options.base_height() - 5 + offset_z,
            ),
            collision: Collision {
                player: !options.nocollide,
                weapon: !options.nocollide,
                interact: !options.nocollide,
                tool: true,
                physics: true,
            },
            color: Color { r: col.color[0], g: col.color[1], b: col.color[2] },
            material: if options.glow {
                Material::Glow
            } else {
                Material::Plastic
            },
            material_intensity: if options.glow {
                0
            } else {
                5
            },
        };
        let ghost placed: Seq<Brick> = out@;
        let ghost rest: Seq<Brick> = column_stack(
            *options,
            col,
            z - 2 * brick_height,
            desired_height - brick_height,
        );
        out.push(brick);
        proof {
            assert(brick == column_brick(*options, col, z as int, brick_height as int));
            assert(out@ + rest =~= placed + column_stack(
                *options,
                col,
                z as int,
                desired_height as int,
            ));
        }
        desired_height = desired_height - brick_height;
        z = z - brick_height * 2;
    }
    proof {
        assert(out@ + Seq::<Brick>::empty() =~= out@);
        assert forall|i: int|
            old(out)@.len() <= i < out@.len() && !(options.img && options.micro)
                implies is_legal_height(*options, #[trigger] out@[i]) by {
            split_bricks_are_legal(
                *options,
                col,
                col.z as int,
                col.desired_height as int,
                i - old(out)@.len(),
            );
        }
    }
}

/// The brick's height is a multiple of the parity and at most that of the tallest brick.
pub open spec fn is_legal_height(options: GenOptions, brick: Brick) -> bool {
    brick.asset matches BrickType::Procedural { size, .. } && 0 < size.z <= MAX_BRICK_HEIGHT
        && size.z as int % height_parity(options) == 0
}

/// Rounding up adds less than one step.
pub(crate) proof fn lemma_rounded_up(n: int, step: int)
    requires
        step == 2 || step == 5,
    ensures
        n <= rounded_up(n, step) < n + step,
{
}

/// Height of a piece: a multiple of the parity, at most that of the tallest brick, and either that
/// or all that is left.
proof fn lemma_piece(options: GenOptions, desired: int)
    requires
        desired > 0,
    ensures
        0 < piece_height(options, desired) <= MAX_BRICK_HEIGHT,
        piece_height(options, desired) % height_parity(options) == 0,
        piece_height(options, desired) < desired + height_parity(options),
        desired <= MAX_BRICK_HEIGHT ==> piece_height(options, desired) >= desired,
{
}

/// No brick that a column is split into is taller than the tallest brick, and the heights of all
/// are multiples of the parity. The cubes of micro images are the exception: they are as high as
/// they are wide.
pub proof fn split_bricks_are_legal(
    options: GenOptions,
    col: BrickColumn,
    z: int,
    desired: int,
    i: int,
)
    requires
        !(options.img && options.micro),
        0 <= i < column_stack(options, col, z, desired).len(),
    ensures
        is_legal_height(options, column_stack(options, col, z, desired)[i]),
    decreases
            if desired > 0 {
                desired
            } else {
                0
            },
{
    let height = piece_height(options, desired);
    lemma_piece(options, desired);
    if i > 0 {
        split_bricks_are_legal(options, col, z - 2 * height, desired - height, i - 1);
    }
}

/// Sum of the heights of procedural bricks.
pub open spec fn total_height(bricks: Seq<Brick>) -> int
    decreases bricks.len(),
{
    if bricks.len() == 0 {
        0
    } else {
        (match bricks[0].asset {
            BrickType::Procedural { size, .. } => size.z as int,
            BrickType::SpawnPoint => 0,
        }) + total_height(bricks.drop_first())
    }
}

/// Splitting a column into bricks keeps its height, rounded up to a multiple of the parity. The cubes
/// of micro images are the exception: they are as high as they are wide.
pub proof fn column_keeps_its_height(options: GenOptions, col: BrickColumn, z: int, desired: int)
    requires
        !(options.img && options.micro),
        desired > 0,
    ensures
        total_height(column_stack(options, col, z, desired)) == rounded_up(
            desired,
            height_parity(options),
        ),
    decreases desired,
{
    let height = piece_height(options, desired);
    let rest = column_stack(options, col, z - 2 * height, desired - height);
    let stack = column_stack(options, col, z, desired);
    assert(stack[0] == column_brick(options, col, z, height));
    assert(stack.drop_first() =~= rest);
    lemma_piece(options, desired);
    if desired - height > 0 {
        column_keeps_its_height(options, col, z - 2 * height, desired - height);
    } else {
        assert(total_height(rest) == 0);
    }
    assert(total_height(stack) == height + total_height(rest));
}

/// Height of a procedural brick.
pub open spec fn brick_height(brick: Brick) -> int {
    match brick.asset {
        BrickType::Procedural { size, .. } => size.z as int,
        BrickType::SpawnPoint => 0,
    }
}

/// Where a brick ends at its top: bricks reach as far above their position as below it.
pub open spec fn top_of(brick: Brick) -> int {
    brick.position.z + brick_height(brick)
}

/// Where a brick ends at its bottom.
pub open spec fn bottom_of(brick: Brick) -> int {
    brick.position.z - brick_height(brick)
}

/// How far the plane of a column's grid Z lies off the world's, by the kind of brick.
pub open spec fn plane_shift(options: GenOptions) -> int {
    if options.stud {
        0
    } else if options.micro {
        -4
    } else {
        -3
    }
}

/// Every brick of a column is of the chosen asset, has the column's footprint, place and color, and
/// is made of the material and collides as the options say: it stops everything, unless collision
/// is off, when players, weapons and interaction pass through it.
pub proof fn column_bricks_look_as_asked(
    options: GenOptions,
    col: BrickColumn,
    z: int,
    desired: int,
    i: int,
)
    requires
        0 <= i < column_stack(options, col, z, desired).len(),
    ensures
        ({
            let brick = column_stack(options, col, z, desired)[i];
            &&& brick.asset matches BrickType::Procedural { asset, size } && asset == options.asset
                && size.x == col.size_x && size.y == col.size_y
            &&& brick.position.x == col.pos_x
            &&& brick.position.y == col.pos_y
            &&& brick.color.r == col.color[0]
            &&& brick.color.g == col.color[1]
            &&& brick.color.b == col.color[2]
            &&& !options.nocollide ==> {
                &&& brick.collision.player
                &&& brick.collision.weapon
                &&& brick.collision.interact
            }
            &&& options.nocollide ==> {
                &&& !brick.collision.player
                &&& !brick.collision.weapon
                &&& !brick.collision.interact
            }
            &&& brick.collision.tool
            &&& brick.collision.physics
            &&& options.glow ==> brick.material is Glow && brick.material_intensity == 0
            &&& !options.glow ==> brick.material is Plastic && brick.material_intensity == 5
        }),
    decreases
            if desired > 0 {
                desired
            } else {
                0
            },
{
    if i > 0 {
        let height = piece_height(options, desired);
        lemma_piece(options, desired);
        column_bricks_look_as_asked(options, col, z - 2 * height, desired - height, i - 1);
    }
}

/// A terrain column has no gap and no overlap: its first brick ends at the column's grid Z, each
/// brick starts where the one above it ends, and together they are as high as asked for, and by less
/// than one step of the parity higher.
pub proof fn column_fills_without_gaps(options: GenOptions, col: BrickColumn, z: int, desired: int)
    requires
        !options.img,
        desired > 0,
        i32::MIN <= z <= i32::MAX,
        stack_fits(options, z, desired),
    ensures
        ({
            let stack = column_stack(options, col, z, desired);
            let total = z + plane_shift(options) - bottom_of(stack.last());
            &&& stack.len() > 0
            &&& top_of(stack[0]) == z + plane_shift(options)
            &&& forall|i: int|
                #![trigger stack[i]]
                0 <= i < stack.len() - 1 ==> bottom_of(stack[i]) == top_of(stack[i + 1])
            &&& 2 * desired <= total
            &&& total < 2 * desired + if options.stud {
                10int
            } else {
                4
            }
        }),
    decreases desired,
{
    let height = piece_height(options, desired);
    lemma_piece(options, desired);
    let stack = column_stack(options, col, z, desired);
    let rest = column_stack(options, col, z - 2 * height, desired - height);
    assert(stack[0] == column_brick(options, col, z, height));
    assert(stack.drop_first() =~= rest);
    if desired > height {
        column_fills_without_gaps(options, col, z - 2 * height, desired - height);
        assert(stack.last() == rest.last());
        assert forall|i: int|
            #![trigger stack[i]]
            0 <= i < stack.len() - 1 implies bottom_of(stack[i]) == top_of(stack[i + 1]) by {
            assert(stack[i + 1] == rest[i]);
            if i > 0 {
                assert(stack[i] == rest[i - 1]);
            }
        }
    } else {
        assert(rest.len() == 0);
    }
}

/// The bricks of a picture all lie in one plane, whatever the heights are.
pub proof fn picture_bricks_lie_flat(
    options: GenOptions,
    col: BrickColumn,
    z: int,
    desired: int,
    i: int,
)
    requires
        options.img,
        0 <= i < column_stack(options, col, z, desired).len(),
    ensures
        ({
            let brick = column_stack(options, col, z, desired)[i];
            &&& brick.position.z == plane_shift(options)
            &&& options.micro ==> brick_height(brick) == options.size
        }),
    decreases
            if desired > 0 {
                desired
            } else {
                0
            },
{
    if i > 0 {
        let height = piece_height(options, desired);
        lemma_piece(options, desired);
        picture_bricks_lie_flat(options, col, z - 2 * height, desired - height, i - 1);
    }
}

} // verus!
