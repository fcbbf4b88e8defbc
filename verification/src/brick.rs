//! Bricks as plain values.
use vstd::prelude::*;

verus! {

/// Extent of a procedural brick along each axis, in world units.
#[derive(Debug, Clone, Copy, PartialEq, Eq, Structural)]
pub struct BrickSize {
    pub x: u16,
    pub y: u16,
    pub z: u16,
}

impl BrickSize {
    pub fn tuple(self) -> (t: (u16, u16, u16))
        ensures
            t == (self.x, self.y, self.z),
    {
        (self.x, self.y, self.z)
    }
}

/// World position of a brick's center.
#[derive(Debug, Clone, Copy, PartialEq, Eq, Structural)]
pub struct Position {
    pub x: i32,
    pub y: i32,
    pub z: i32,
}

impl Position {
    pub fn new(x: i32, y: i32, z: i32) -> (p: Self)
        ensures
            p == (Position { x, y, z }),
    {
        Position { x, y, z }
    }

    pub fn tuple(self) -> (t: (i32, i32, i32))
        ensures
            t == (self.x, self.y, self.z),
    {
        (self.x, self.y, self.z)
    }
}

/// What a brick collides with.
#[derive(Debug, Clone, Copy, PartialEq, Eq, Structural)]
pub struct Collision {
    pub player: bool,
    pub weapon: bool,
    pub interact: bool,
    pub tool: bool,
    pub physics: bool,
}

/// Brick color.
#[derive(Debug, Clone, Copy, PartialEq, Eq, Structural)]
pub struct Color {
    pub r: u8,
    pub g: u8,
    pub b: u8,
}

impl Color {
    pub fn tuple(self) -> (t: (u8, u8, u8))
        ensures
            t == (self.r, self.g, self.b),
    {
        (self.r, self.g, self.b)
    }
}

/// Surface material of a brick.
#[derive(Debug, Clone, Copy, PartialEq, Eq, Structural)]
pub enum Material {
    Plastic,
    Glow,
}

/// Shape of a brick.
#[derive(Debug)]
pub enum BrickType {
    /// A resizable brick, by the name of its asset.
    Procedural { asset: String, size: BrickSize },
    /// The marker where players enter the world.
    SpawnPoint,
}

/// One brick of a save.
#[derive(Debug)]
pub struct Brick {
    pub asset: BrickType,
    pub position: Position,
    pub collision: Collision,
    pub color: Color,
    pub material: Material,
    pub material_intensity: u8,
}

} // verus!
