//! Spawn intents, queued by producers and consumed by the allocator.
use vstd::prelude::*;
use crate::components::Vec2i;
use crate::layers::{CollisionLayers, active_enemy_layers, active_enemy_layers_spec, active_player_layers, active_player_layers_spec};

verus! {

/// The side that fired a projectile.
#[derive(Clone, Copy, Debug, PartialEq, Eq, Structural)]
pub enum BulletKind {
    Player,
    Enemy,
}

/// Layers of a live projectile of the given side.
pub open spec fn kind_layers(kind: BulletKind) -> CollisionLayers {
    match kind {
        BulletKind::Player => active_player_layers_spec(),
        BulletKind::Enemy => active_enemy_layers_spec(),
    }
}

impl BulletKind {
    /// Layers of a live projectile of this side.
    pub fn active_layers(self) -> (r: CollisionLayers)
        ensures
            r == kind_layers(self),
    {
        match self {
            BulletKind::Player => active_player_layers(),
            BulletKind::Enemy => active_enemy_layers(),
        }
    }
}

/// A request to bring a projectile into play.
#[derive(Clone, Copy, Debug, PartialEq, Eq, Structural)]
pub struct SpawnBulletRequest {
    pub kind: BulletKind,
    pub pos: Vec2i,
    pub vel: Vec2i,
    pub damage: i32,
}

} // verus!
