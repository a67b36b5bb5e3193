//! Plain data carried by projectiles and enemies.
use vstd::prelude::*;

verus! {

/// World units per pixel: coordinates count thousandths of a pixel.
pub const UNITS_PER_PIXEL: i32 = 1000;

/// A point or a vector in integer world coordinates.
#[derive(Clone, Copy, Debug, PartialEq, Eq, Structural)]
pub struct Vec2i {
    pub x: i32,
    pub y: i32,
}

impl Vec2i {
    /// The zero vector.
    pub fn zero() -> (r: Vec2i)
        ensures
            r == (Vec2i { x: 0, y: 0 }),
    {
        Vec2i { x: 0, y: 0 }
    }
}

/// Lifecycle of a pooled projectile; the state alone decides whether it is
/// shown and whether it collides.
#[derive(Clone, Copy, Debug, PartialEq, Eq, Structural)]
pub enum BulletState {
    /// In the pool: hidden and colliding with nothing.
    Inactive,
    /// In play: shown and colliding.
    Active,
    /// Absorbed by a hit; recycled by the return commit.
    PendingReturn,
}

impl Default for BulletState {
    fn default() -> (r: BulletState)
        ensures
            r == BulletState::Inactive,
    {
        BulletState::Inactive
    }
}

/// Wall bounces a projectile has when it is fired.
pub const DEFAULT_WALL_BOUNCES: u8 = 3;

/// Gameplay state of a projectile.
#[derive(Clone, Copy, Debug, PartialEq, Eq, Structural)]
pub struct Bullet {
    pub damage: i32,
    pub wall_bounces_left: u8,
}

impl Bullet {
    /// A projectile freshly fired with `damage`.
    pub fn activate(damage: i32) -> (r: Bullet)
        ensures
            r == (Bullet { damage, wall_bounces_left: DEFAULT_WALL_BOUNCES }),
    {
        Bullet { damage, wall_bounces_left: DEFAULT_WALL_BOUNCES }
    }

    /// Re-arm for a new shot: new damage, full bounce budget.
    pub fn reset_for_fire(&mut self, damage: i32)
        ensures
            *final(self) == (Bullet { damage, wall_bounces_left: DEFAULT_WALL_BOUNCES }),
    {
        self.damage = damage;
        self.wall_bounces_left = DEFAULT_WALL_BOUNCES;
    }
}

/// Armour withholds health damage while hits remain.
#[derive(Clone, Copy, Debug, PartialEq, Eq, Structural)]
pub struct Armour {
    pub hits_remaining: u16,
    pub max_hits: u16,
}

impl Armour {
    /// Whether the armour still absorbs hits.
    pub fn is_up(&self) -> (r: bool)
        ensures
            r == (self.hits_remaining > 0),
    {
        self.hits_remaining > 0
    }

    /// Lose one hit of armour, stopping at zero.
    pub fn wear_one(&mut self)
        ensures
            final(self).max_hits == old(self).max_hits,
            final(self).hits_remaining == if old(self).hits_remaining > 0 {
                (old(self).hits_remaining - 1) as u16
            } else {
                0u16
            },
    {
        if self.hits_remaining > 0 {
            self.hits_remaining = self.hits_remaining - 1;
        }
    }
}

/// Hit points of an enemy.
#[derive(Clone, Copy, Debug, PartialEq, Eq, Structural)]
pub struct Health {
    pub hp: i32,
}

/// The cursor in world coordinates, or none while it is outside the viewport.
#[derive(Clone, Copy, Debug, PartialEq, Eq, Structural)]
pub struct Aim {
    pub world_cursor: Option<Vec2i>,
}

/// Handle of a pooled projectile: the index of its slot.
#[derive(Clone, Copy, Debug, PartialEq, Eq, Structural)]
pub struct BulletEntity(pub usize);

/// The resolver run in which a projectile was last processed.
#[derive(Clone, Copy, Debug, PartialEq, Eq, Structural)]
pub struct CollisionStamp {
    pub last_epoch: u32,
}

/// Counter of resolver runs; wraps around.
#[derive(Clone, Copy, Debug, PartialEq, Eq, Structural)]
pub struct CollisionEpoch(pub u32);

/// The successor of an epoch, wrapping to zero after the largest value.
pub open spec fn next_epoch(e: u32) -> u32 {
    if e == u32::MAX {
        0
    } else {
        (e + 1) as u32
    }
}

impl CollisionEpoch {
    /// Move to the next resolver run.
    pub fn advance(&mut self)
        ensures
            final(self).0 == next_epoch(old(self).0),
    {
        if self.0 == u32::MAX {
            self.0 = 0;
        } else {
            self.0 = self.0 + 1;
        }
    }
}

} // verus!
