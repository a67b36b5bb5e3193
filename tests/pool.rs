use arena_combat::allocator::allocate_bullets_from_pool;
use arena_combat::components::{BulletEntity, BulletState, Vec2i, DEFAULT_WALL_BOUNCES};
use arena_combat::layers::{inactive_bullet_layers, Layer};
use arena_combat::messages::{BulletKind, SpawnBulletRequest};
use arena_combat::pool::{acquire_bullet, init_bullet_pool, return_to_pool_commit, BulletPool};

fn v(x: i32, y: i32) -> Vec2i {
    Vec2i { x, y }
}

fn fresh_pool(capacity: usize) -> BulletPool {
    let mut pool = BulletPool::new(capacity);
    init_bullet_pool(&mut pool);
    pool
}

fn in_play(pool: &BulletPool) -> usize {
    pool.records.iter().filter(|r| r.state != BulletState::Inactive).count()
}

#[test]
fn init_bullet_pool_spawns_capacity_bullets_inactive() {
    let pool = fresh_pool(8);
    assert_eq!(pool.free.len(), 8);
    assert_eq!(pool.records.len(), 8);
    for r in &pool.records {
        assert_eq!(r.state, BulletState::Inactive);
        assert!(!r.visible);
        assert!(r.layers.is_in_layer(Layer::PlayerBullet));
        assert!(!r.layers.filters_layer(Layer::World));
        assert!(!r.layers.filters_layer(Layer::Enemy));
        assert_eq!(r.bullet.wall_bounces_left, DEFAULT_WALL_BOUNCES);
    }
}

#[test]
fn acquire_bullet_activates_and_resets_state() {
    let mut pool = fresh_pool(1);
    let BulletEntity(e) = acquire_bullet(&mut pool, v(10, 20), v(100, 0), 2).expect("pool should contain a bullet");
    let r = pool.records[e];
    assert_eq!(r.pos, v(10, 20));
    assert_eq!(r.vel, v(100, 0));
    assert!(r.visible);
    assert_eq!(r.state, BulletState::Active);
    assert!(r.layers.is_in_layer(Layer::PlayerBullet));
    assert!(r.layers.filters_layer(Layer::World));
    assert!(r.layers.filters_layer(Layer::Enemy));
    assert_eq!(r.bullet.damage, 2);
    assert_eq!(r.bullet.wall_bounces_left, DEFAULT_WALL_BOUNCES);
    assert_eq!(pool.free.len(), 0);
}

#[test]
fn return_to_pool_commit_deactivates_and_recycles() {
    let mut pool = fresh_pool(1);
    let BulletEntity(e) = acquire_bullet(&mut pool, v(0, 0), v(10, 0), 1).expect("pool should contain a bullet");
    pool.records[e].state = BulletState::PendingReturn;
    return_to_pool_commit(&mut pool);
    let r = pool.records[e];
    assert_eq!(r.state, BulletState::Inactive);
    assert!(!r.visible);
    assert_eq!(r.vel, v(0, 0));
    assert!(r.layers.is_in_layer(Layer::PlayerBullet));
    assert!(!r.layers.filters_layer(Layer::World));
    assert!(!r.layers.filters_layer(Layer::Enemy));
    assert_eq!(pool.free.len(), 1);
}

#[test]
fn exhausted_pool_drops_the_shot() {
    let mut pool = fresh_pool(1);
    assert!(acquire_bullet(&mut pool, v(0, 0), v(1, 0), 1).is_some());
    assert!(acquire_bullet(&mut pool, v(0, 0), v(1, 0), 1).is_none());
    assert_eq!(in_play(&pool), 1);
}

#[test]
fn zero_capacity_pool_never_serves() {
    let mut pool = fresh_pool(0);
    assert!(pool.free.is_empty());
    assert!(acquire_bullet(&mut pool, v(0, 0), v(1, 0), 1).is_none());
}

#[test]
fn capacity_eight_round_trip() {
    let mut pool = fresh_pool(8);
    assert_eq!(pool.free.len(), 8);
    assert!(pool.records.iter().all(|r| r.state == BulletState::Inactive));

    let BulletEntity(h) = acquire_bullet(&mut pool, v(10, 20), v(100, 0), 2).unwrap();
    assert_eq!(in_play(&pool), 1);
    assert_eq!(pool.records[h].state, BulletState::Active);
    assert_eq!(pool.records[h].pos, v(10, 20));
    assert_eq!(pool.records[h].vel, v(100, 0));
    assert_eq!(pool.free.len(), 7);

    pool.records[h].state = BulletState::PendingReturn;
    return_to_pool_commit(&mut pool);
    let r = pool.records[h];
    assert_eq!(r.state, BulletState::Inactive);
    assert_eq!(r.vel, v(0, 0));
    assert!(!r.visible);
    assert_eq!(r.layers, inactive_bullet_layers());
    assert_eq!(pool.free.len(), 8);
}

#[test]
fn partition_holds_through_play() {
    let mut pool = fresh_pool(4);
    for k in 0..3 {
        acquire_bullet(&mut pool, v(k, 0), v(0, 1), 1).unwrap();
        assert_eq!(pool.free.len() + in_play(&pool), 4);
    }
    let active: Vec<usize> = (0..4).filter(|&i| pool.records[i].state == BulletState::Active).collect();
    pool.records[active[0]].state = BulletState::PendingReturn;
    pool.records[active[2]].state = BulletState::PendingReturn;
    return_to_pool_commit(&mut pool);
    assert_eq!(pool.free.len() + in_play(&pool), 4);
    assert_eq!(pool.free.len(), 3);
    for &h in &pool.free {
        assert_eq!(pool.records[h].state, BulletState::Inactive);
    }
    // Slots come back in increasing order.
    assert_eq!(pool.free[1..].to_vec(), vec![active[0], active[2]]);
}

#[test]
fn allocator_serves_requests_in_order_until_exhausted() {
    let mut pool = fresh_pool(2);
    let reqs = vec![
        SpawnBulletRequest { kind: BulletKind::Player, pos: v(1, 1), vel: v(5, 0), damage: 1 },
        SpawnBulletRequest { kind: BulletKind::Enemy, pos: v(2, 2), vel: v(0, 5), damage: 4 },
        SpawnBulletRequest { kind: BulletKind::Player, pos: v(3, 3), vel: v(5, 5), damage: 9 },
    ];
    allocate_bullets_from_pool(&mut pool, &reqs);
    assert!(pool.free.is_empty());
    // The top of the free stack (slot 1) serves the first request.
    let first = pool.records[1];
    assert_eq!(first.pos, v(1, 1));
    assert_eq!(first.bullet.damage, 1);
    assert!(first.layers.is_in_layer(Layer::PlayerBullet));
    let second = pool.records[0];
    assert_eq!(second.pos, v(2, 2));
    assert_eq!(second.bullet.damage, 4);
    assert!(second.layers.is_in_layer(Layer::EnemyBullet));
    assert!(second.layers.filters_layer(Layer::Player));
    assert!(pool.records.iter().all(|r| r.bullet.damage != 9));
}
