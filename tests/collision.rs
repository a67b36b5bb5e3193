use arena_combat::collision::{process_player_bullet_collisions, CollisionStart, EntityRef};
use arena_combat::components::{BulletEntity, BulletState, CollisionEpoch, Vec2i};
use arena_combat::enemies::Enemy;
use arena_combat::layers::{CollisionLayers, Layer};
use arena_combat::pool::{acquire_bullet, init_bullet_pool, BulletPool};

fn pool_with_active(n: usize, damage: i32) -> (BulletPool, Vec<usize>) {
    let mut pool = BulletPool::new(n);
    init_bullet_pool(&mut pool);
    let mut hs = Vec::new();
    for _ in 0..n {
        let BulletEntity(h) = acquire_bullet(&mut pool, Vec2i { x: 0, y: 0 }, Vec2i { x: 1, y: 0 }, damage).unwrap();
        hs.push(h);
    }
    (pool, hs)
}

fn wall() -> EntityRef {
    EntityRef::Body(CollisionLayers::new(Layer::World, Layer::PlayerBullet.to_bits()))
}

fn hit(a: EntityRef, b: EntityRef) -> CollisionStart {
    CollisionStart { collider1: a, collider2: b, body1: Some(a), body2: Some(b) }
}

#[test]
fn collision_world_decrements_bounce_budget_and_absorbs_at_zero() {
    let (mut pool, hs) = pool_with_active(1, 1);
    pool.records[hs[0]].bullet.wall_bounces_left = 1;
    let mut enemies: Vec<Enemy> = Vec::new();
    let mut epoch = CollisionEpoch(0);
    let evs = vec![hit(EntityRef::Bullet(hs[0]), wall())];
    process_player_bullet_collisions(&mut pool, &mut enemies, &mut epoch, &evs);
    assert_eq!(pool.records[hs[0]].state, BulletState::PendingReturn);
    assert_eq!(pool.records[hs[0]].bullet.wall_bounces_left, 0);
}

#[test]
fn collision_enemy_with_armour_wears_armour_and_does_not_absorb_bullet() {
    let (mut pool, hs) = pool_with_active(1, 2);
    let mut enemies = vec![Enemy::new(2, 10)];
    let mut epoch = CollisionEpoch(0);
    let evs = vec![hit(EntityRef::Bullet(hs[0]), EntityRef::Enemy(0))];
    process_player_bullet_collisions(&mut pool, &mut enemies, &mut epoch, &evs);
    assert_eq!(enemies[0].armour.hits_remaining, 1);
    assert_eq!(pool.records[hs[0]].state, BulletState::Active);
    assert_eq!(enemies[0].health.hp, 10);
}

#[test]
fn collision_enemy_without_armour_absorbs_bullet_and_applies_damage() {
    let (mut pool, hs) = pool_with_active(1, 3);
    let mut enemies = vec![Enemy::new(0, 10)];
    enemies[0].armour.max_hits = 2;
    let mut epoch = CollisionEpoch(0);
    let evs = vec![hit(EntityRef::Bullet(hs[0]), EntityRef::Enemy(0))];
    process_player_bullet_collisions(&mut pool, &mut enemies, &mut epoch, &evs);
    assert_eq!(pool.records[hs[0]].state, BulletState::PendingReturn);
    assert_eq!(enemies[0].health.hp, 7);
}

#[test]
fn armoured_enemy_hit_three_times() {
    let (mut pool, hs) = pool_with_active(3, 2);
    let mut enemies = vec![Enemy::new(2, 10)];
    let mut epoch = CollisionEpoch(0);
    let expected = [(1u16, 10i32), (0, 10), (0, 8)];
    for (k, &(armour, hp)) in expected.iter().enumerate() {
        let evs = vec![hit(EntityRef::Bullet(hs[k]), EntityRef::Enemy(0))];
        process_player_bullet_collisions(&mut pool, &mut enemies, &mut epoch, &evs);
        assert_eq!(enemies[0].armour.hits_remaining, armour);
        assert_eq!(enemies[0].health.hp, hp);
    }
    assert_eq!(pool.records[hs[0]].state, BulletState::Active);
    assert_eq!(pool.records[hs[1]].state, BulletState::Active);
    assert_eq!(pool.records[hs[2]].state, BulletState::PendingReturn);
}

#[test]
fn repeated_facts_in_one_tick_count_once() {
    let (mut pool, hs) = pool_with_active(1, 1);
    let mut enemies: Vec<Enemy> = Vec::new();
    let mut epoch = CollisionEpoch(0);
    let b = EntityRef::Bullet(hs[0]);
    let evs = vec![hit(b, wall()), hit(wall(), b), hit(b, wall())];
    process_player_bullet_collisions(&mut pool, &mut enemies, &mut epoch, &evs);
    assert_eq!(pool.records[hs[0]].bullet.wall_bounces_left, 2);
    assert_eq!(pool.records[hs[0]].state, BulletState::Active);
    assert_eq!(epoch.0, 1);
}

#[test]
fn bounce_budget_spent_over_three_ticks() {
    let (mut pool, hs) = pool_with_active(1, 1);
    let mut enemies: Vec<Enemy> = Vec::new();
    let mut epoch = CollisionEpoch(0);
    let b = EntityRef::Bullet(hs[0]);
    for tick in 1..=3u8 {
        let evs = vec![hit(b, wall()), hit(b, wall())];
        process_player_bullet_collisions(&mut pool, &mut enemies, &mut epoch, &evs);
        assert_eq!(pool.records[hs[0]].bullet.wall_bounces_left, 3 - tick);
        let expect = if tick == 3 { BulletState::PendingReturn } else { BulletState::Active };
        assert_eq!(pool.records[hs[0]].state, expect);
    }
}

#[test]
fn owner_body_is_preferred_over_contact_shape() {
    let (mut pool, hs) = pool_with_active(1, 4);
    let mut enemies = vec![Enemy::new(0, 10)];
    let mut epoch = CollisionEpoch(0);
    let hitbox = EntityRef::Body(CollisionLayers::new(Layer::Enemy, 0));
    let ev = CollisionStart {
        collider1: hitbox,
        collider2: EntityRef::Bullet(hs[0]),
        body1: Some(EntityRef::Enemy(0)),
        body2: None,
    };
    process_player_bullet_collisions(&mut pool, &mut enemies, &mut epoch, &vec![ev]);
    assert_eq!(enemies[0].health.hp, 6);
    assert_eq!(pool.records[hs[0]].state, BulletState::PendingReturn);
}

#[test]
fn facts_without_a_single_projectile_are_ignored() {
    let (mut pool, hs) = pool_with_active(2, 1);
    let mut enemies = vec![Enemy::new(0, 10)];
    let mut epoch = CollisionEpoch(u32::MAX);
    let before = pool.records.clone();
    let evs = vec![
        hit(EntityRef::Bullet(hs[0]), EntityRef::Bullet(hs[1])),
        hit(wall(), EntityRef::Enemy(0)),
    ];
    process_player_bullet_collisions(&mut pool, &mut enemies, &mut epoch, &evs);
    assert_eq!(pool.records, before);
    assert_eq!(enemies[0].health.hp, 10);
    assert_eq!(epoch.0, 0);
}

#[test]
fn inactive_projectiles_do_not_collide() {
    let mut pool = BulletPool::new(1);
    init_bullet_pool(&mut pool);
    let mut enemies = vec![Enemy::new(0, 10)];
    let mut epoch = CollisionEpoch(0);
    let evs = vec![hit(EntityRef::Bullet(0), EntityRef::Enemy(0))];
    process_player_bullet_collisions(&mut pool, &mut enemies, &mut epoch, &evs);
    assert_eq!(enemies[0].health.hp, 10);
    assert_eq!(pool.records[0].state, BulletState::Inactive);
}

#[test]
fn armour_absorbs_several_shots_in_one_tick() {
    let (mut pool, hs) = pool_with_active(3, 5);
    let mut enemies = vec![Enemy::new(3, 10)];
    let mut epoch = CollisionEpoch(0);
    let evs: Vec<CollisionStart> = hs.iter().map(|&h| hit(EntityRef::Bullet(h), EntityRef::Enemy(0))).collect();
    process_player_bullet_collisions(&mut pool, &mut enemies, &mut epoch, &evs);
    assert_eq!(enemies[0].health.hp, 10);
    assert_eq!(enemies[0].armour.hits_remaining, 0);
    for &h in &hs {
        assert_eq!(pool.records[h].state, BulletState::Active);
        assert_eq!(pool.records[h].bullet.damage, 5);
        assert_eq!(pool.records[h].bullet.wall_bounces_left, 3);
    }
}
