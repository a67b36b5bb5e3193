//! Collision layers: each body belongs to categories (memberships) and
//! collides with categories (filters), both kept as bitmasks with one bit
//! per category.
use vstd::prelude::*;

verus! {

/// A collision category. Each category owns one bit of a layer mask.
#[derive(Clone, Copy, Debug, PartialEq, Eq, Structural)]
pub enum Layer {
    Default,
    World,
    Player,
    Enemy,
    PlayerBullet,
    EnemyBullet,
}

/// The mask that holds exactly the bit of `l`: bit `k` for the `k`-th category.
pub open spec fn layer_bit(l: Layer) -> u32 {
    match l {
        Layer::Default => 1,
        Layer::World => 2,
        Layer::Player => 4,
        Layer::Enemy => 8,
        Layer::PlayerBullet => 16,
        Layer::EnemyBullet => 32,
    }
}

/// Whether `mask` holds every bit of `bits`.
pub open spec fn has_all(mask: u32, bits: u32) -> bool {
    mask & bits == bits
}

impl Layer {
    /// The bit of this layer.
    pub fn to_bits(self) -> (r: u32)
        ensures
            r == layer_bit(self),
    {
        match self {
            Layer::Default => 1,
            Layer::World => 2,
            Layer::Player => 4,
            Layer::Enemy => 8,
            Layer::PlayerBullet => 16,
            Layer::EnemyBullet => 32,
        }
    }
}

/// The categories a body belongs to, and the categories it collides with.
#[derive(Clone, Copy, Debug, PartialEq, Eq, Structural)]
pub struct CollisionLayers {
    pub memberships: u32,
    pub filters: u32,
}

/// A layer pair: member of `membership`, colliding with the layers in `filters`.
pub open spec fn layers_of(membership: Layer, filters: u32) -> CollisionLayers {
    CollisionLayers { memberships: layer_bit(membership), filters }
}

/// A live player projectile: collides with the world and with enemies.
pub open spec fn active_player_layers_spec() -> CollisionLayers {
    layers_of(Layer::PlayerBullet, layer_bit(Layer::World) | layer_bit(Layer::Enemy))
}

/// A live enemy projectile: collides with the world and with the player.
pub open spec fn active_enemy_layers_spec() -> CollisionLayers {
    layers_of(Layer::EnemyBullet, layer_bit(Layer::World) | layer_bit(Layer::Player))
}

/// A pooled projectile at rest: still a projectile, but collides with nothing.
pub open spec fn inactive_bullet_layers_spec() -> CollisionLayers {
    layers_of(Layer::PlayerBullet, 0)
}

/// An enemy that no longer interacts: still an enemy, but collides with nothing.
pub open spec fn non_interacting_enemy_layers_spec() -> CollisionLayers {
    layers_of(Layer::Enemy, 0)
}

/// A live enemy: collides with the world, the player and player projectiles.
pub open spec fn enemy_layers_spec() -> CollisionLayers {
    layers_of(
        Layer::Enemy,
        layer_bit(Layer::World) | layer_bit(Layer::Player) | layer_bit(Layer::PlayerBullet),
    )
}

impl CollisionLayers {
    /// Membership in the single layer `membership`, colliding with `filters`.
    pub fn new(membership: Layer, filters: u32) -> (r: CollisionLayers)
        ensures
            r == layers_of(membership, filters),
    {
        CollisionLayers { memberships: membership.to_bits(), filters }
    }

    /// Whether the body belongs to `layer`.
    pub fn is_in_layer(&self, layer: Layer) -> (r: bool)
        ensures
            r == has_all(self.memberships, layer_bit(layer)),
    {
        let bit = layer.to_bits();
        self.memberships & bit == bit
    }

    /// Whether the body collides with `layer`.
    pub fn filters_layer(&self, layer: Layer) -> (r: bool)
        ensures
            r == has_all(self.filters, layer_bit(layer)),
    {
        let bit = layer.to_bits();
        self.filters & bit == bit
    }
}

/// Layers of a live player projectile.
pub fn active_player_layers() -> (r: CollisionLayers)
    ensures
        r == active_player_layers_spec(),
{
    CollisionLayers::new(Layer::PlayerBullet, Layer::World.to_bits() | Layer::Enemy.to_bits())
}

/// Layers of a live enemy projectile.
pub fn active_enemy_layers() -> (r: CollisionLayers)
    ensures
        r == active_enemy_layers_spec(),
{
    CollisionLayers::new(Layer::EnemyBullet, Layer::World.to_bits() | Layer::Player.to_bits())
}

/// Layers of a pooled projectile at rest.
pub fn inactive_bullet_layers() -> (r: CollisionLayers)
    ensures
        r == inactive_bullet_layers_spec(),
{
    CollisionLayers::new(Layer::PlayerBullet, 0)
}

/// Layers of an enemy that no longer interacts.
pub fn non_interacting_enemy_layers() -> (r: CollisionLayers)
    ensures
        r == non_interacting_enemy_layers_spec(),
{
    CollisionLayers::new(Layer::Enemy, 0)
}

/// Layers of a live enemy.
pub fn enemy_layers() -> (r: CollisionLayers)
    ensures
        r == enemy_layers_spec(),
{
    CollisionLayers::new(
        Layer::Enemy,
        Layer::World.to_bits() | Layer::Player.to_bits() | Layer::PlayerBullet.to_bits(),
    )
}

} // verus!
