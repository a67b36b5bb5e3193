use arena_combat::components::Armour;
use arena_combat::enemies::{
    armour_fx_update, despawn_marked_enemies, enemy_death_progress, enemy_death_trigger, ArmourFx, Enemy,
    EnemyLifeState, DYING_DURATION_US,
};
use arena_combat::fx::{GlobalFx, INTENSITY_ONE};
use arena_combat::layers::{non_interacting_enemy_layers, Layer};

#[test]
fn enemy_death_trigger_transitions_alive_to_dying_and_disables_collisions() {
    let mut enemies = vec![Enemy::new(0, 0)];
    enemy_death_trigger(&mut enemies);
    match enemies[0].life {
        EnemyLifeState::Dying { elapsed, duration } => {
            assert!(duration > 0);
            assert_eq!(elapsed, 0);
        }
        _ => panic!("Expected enemy to enter Dying"),
    }
    assert_eq!(enemies[0].layers, non_interacting_enemy_layers());
    assert!(!enemies[0].layers.filters_layer(Layer::PlayerBullet));
    assert_eq!(enemies[0].death_fade(), INTENSITY_ONE);
}

#[test]
fn enemy_with_health_left_stays_alive() {
    let mut enemies = vec![Enemy::new(0, 1)];
    enemy_death_trigger(&mut enemies);
    assert_eq!(enemies[0].life, EnemyLifeState::Alive);
    assert!(enemies[0].layers.filters_layer(Layer::PlayerBullet));
}

#[test]
fn enemy_death_progress_marks_pending_despawn_and_sets_dead() {
    let mut e = Enemy::new(0, 0);
    e.life = EnemyLifeState::Dying { elapsed: 0, duration: 100_000 };
    let mut enemies = vec![e];
    enemy_death_progress(&mut enemies, 1_000_000);
    assert!(enemies[0].pending_despawn);
    assert!(matches!(enemies[0].life, EnemyLifeState::Dead));
    assert_eq!(despawn_marked_enemies(&enemies), vec![0]);
}

#[test]
fn dying_fades_linearly() {
    let mut enemies = vec![Enemy::new(0, -3)];
    enemy_death_trigger(&mut enemies);
    enemy_death_progress(&mut enemies, DYING_DURATION_US / 2);
    assert_eq!(enemies[0].death_fade(), INTENSITY_ONE / 2);
    assert!(!enemies[0].pending_despawn);
    enemy_death_progress(&mut enemies, DYING_DURATION_US / 2);
    assert_eq!(enemies[0].life, EnemyLifeState::Dead);
    assert_eq!(enemies[0].death_fade(), 0);
}

#[test]
fn armour_fx_break_triggers_global_fx_and_updates_local_fx() {
    let mut global = GlobalFx::default();
    let mut e = Enemy::new(0, 5);
    e.armour = Armour { hits_remaining: 0, max_hits: 1 };
    e.fx = ArmourFx::new(1);
    let mut enemies = vec![e];
    armour_fx_update(&mut enemies, &mut global, 16_000);
    assert!(global.flash.get() > 0);
    assert!(global.trauma.get() > 0);
    assert!(global.hitstop.get() > 0);
    assert!(global.slowmo_remaining.get() > 0);
    assert!(enemies[0].fx.any_active());
    assert_eq!(enemies[0].fx.last_hits_remaining, 0);
}

#[test]
fn armour_hit_without_break_flashes_locally_only() {
    let mut global = GlobalFx::default();
    let mut e = Enemy::new(3, 5);
    e.armour.hits_remaining = 2;
    let mut enemies = vec![e];
    armour_fx_update(&mut enemies, &mut global, 16_000);
    assert_eq!(global, GlobalFx::default());
    // 8 per second over 16 ms.
    assert_eq!(enemies[0].fx.hit_flash.get(), 872_000_000);
    assert_eq!(enemies[0].fx.break_pulse.get(), 0);
    assert_eq!(enemies[0].fx.last_hits_remaining, 2);
}

#[test]
fn dying_enemies_get_no_armour_fx() {
    let mut global = GlobalFx::default();
    let mut e = Enemy::new(0, 0);
    e.fx = ArmourFx::new(1);
    let mut enemies = vec![e];
    enemy_death_trigger(&mut enemies);
    let before = enemies[0];
    armour_fx_update(&mut enemies, &mut global, 16_000);
    assert_eq!(enemies[0], before);
    assert_eq!(global, GlobalFx::default());
}

#[test]
fn round_starts_with_three_armoured_targets() {
    let targets = arena_combat::enemies::spawn_targets();
    assert_eq!(targets.len(), 3);
    let xs: Vec<i32> = targets.iter().map(|(p, _)| p.x).collect();
    assert_eq!(xs, vec![-200_000, 0, 200_000]);
    for (p, e) in &targets {
        assert_eq!(p.y, 120_000);
        assert_eq!(e.armour, Armour { hits_remaining: 3, max_hits: 3 });
        assert_eq!(e.health.hp, 5);
        assert_eq!(e.life, EnemyLifeState::Alive);
        assert!(e.layers.filters_layer(Layer::PlayerBullet));
    }
}
