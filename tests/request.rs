use arena_combat::components::Vec2i;
use arena_combat::fx::FxHandles;
use arena_combat::messages::BulletKind;
use arena_combat::request::{isqrt, request_player_bullets, shot_towards, MUZZLE_OFFSET, PLAYER_SHOT_DAMAGE};

fn v(x: i32, y: i32) -> Vec2i {
    Vec2i { x, y }
}

#[test]
fn no_shot_without_fire_edge_player_or_aim() {
    assert!(request_player_bullets(false, Some(v(0, 0)), Some(v(5, 5)), 600_000).is_none());
    assert!(request_player_bullets(true, None, Some(v(5, 5)), 600_000).is_none());
    assert!(request_player_bullets(true, Some(v(0, 0)), None, 600_000).is_none());
}

#[test]
fn shot_leaves_along_the_aim_direction() {
    let r = request_player_bullets(true, Some(v(1_000, 2_000)), Some(v(4_000, 6_000)), 500_000).unwrap();
    // Direction (3, 4) / 5.
    assert_eq!(r.kind, BulletKind::Player);
    assert_eq!(r.pos, v(1_000 + MUZZLE_OFFSET * 3 / 5, 2_000 + MUZZLE_OFFSET * 4 / 5));
    assert_eq!(r.vel, v(300_000, 400_000));
    assert_eq!(r.damage, PLAYER_SHOT_DAMAGE);
}

#[test]
fn shot_towards_negative_direction_rounds_toward_zero() {
    let r = shot_towards(v(0, 0), v(-3_000, 0), 7);
    assert_eq!(r.pos, v(-MUZZLE_OFFSET, 0));
    assert_eq!(r.vel, v(-7, 0));
    let d = shot_towards(v(0, 0), v(-1_000, -1_000), 1_000);
    // 1000 / sqrt(2) = 707.1...
    assert_eq!(d.vel, v(-707, -707));
}

#[test]
fn negative_speed_fires_backwards() {
    let r = shot_towards(v(0, 0), v(3_000, 4_000), -500);
    assert_eq!(r.vel, v(-300, -400));
    assert_eq!(r.pos, v(MUZZLE_OFFSET * 3 / 5, MUZZLE_OFFSET * 4 / 5));
}

#[test]
fn aim_on_the_player_fires_straight_up() {
    let r = shot_towards(v(50, 50), v(55, 50), 900);
    assert_eq!(r.pos, v(50, 50 + MUZZLE_OFFSET));
    assert_eq!(r.vel, v(0, 900));
}

#[test]
fn isqrt_exact_and_between_squares() {
    assert_eq!(isqrt(0), 0);
    assert_eq!(isqrt(1), 1);
    assert_eq!(isqrt(24), 4);
    assert_eq!(isqrt(25), 5);
    assert_eq!(isqrt(2 * (1u128 << 64)), 6_074_000_999);
}

#[test]
fn fx_handles_resolve_once() {
    let mut h = FxHandles::new();
    assert!(!h.is_resolved());
    h.ensure(Some(7), None);
    assert_eq!(h.camera, Some(7));
    assert!(!h.is_resolved());
    h.ensure(Some(9), Some(3));
    assert_eq!(h.camera, Some(7));
    assert_eq!(h.overlay, Some(3));
    assert!(h.is_resolved());
}
