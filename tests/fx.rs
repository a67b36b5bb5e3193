use arena_combat::fx::{
    FxHandles,
    smootherstep, GlobalFx, Intensity, RealMicros, BREAK_SLOWMO_US, INTENSITY_ONE, SPEED_ONE,
};

/// Small deterministic generator (xorshift64*) for many-case checks.
struct TestRng(u64);

impl TestRng {
    fn next_u64(&mut self) -> u64 {
        let mut x = self.0;
        x ^= x >> 12;
        x ^= x << 25;
        x ^= x >> 27;
        self.0 = x;
        x.wrapping_mul(0x2545F4914F6CDD1D)
    }

    /// Uniform in `[lo, hi]`.
    fn range(&mut self, lo: u64, hi: u64) -> u64 {
        lo + self.next_u64() % (hi - lo + 1)
    }
}

#[test]
fn unitf32_clamps_add_and_decay() {
    let mut x = Intensity::new_clamped(900_000_000);
    x.add_clamped(500_000_000);
    assert!(x.get() <= INTENSITY_ONE);
    assert_eq!(x.get(), INTENSITY_ONE);

    // 10 per second for 0.2 s.
    x.decay_to_zero(10_000, 200_000);
    assert_eq!(x.get(), 0);

    x.decay_to_zero(10_000, 1_000_000);
    assert_eq!(x.get(), 0);
}

#[test]
fn realseconds_never_negative_and_set_max() {
    let mut t = RealMicros(100_000);
    t.tick_down(10_000_000);
    assert_eq!(t.get(), 0);

    t.set_max(500_000);
    assert_eq!(t.get(), 500_000);

    t.set_max(100_000);
    assert_eq!(t.get(), 500_000);
}

#[test]
fn smootherstep_endpoints_monotonic_and_range() {
    assert_eq!(smootherstep(0), 0);
    assert_eq!(smootherstep(SPEED_ONE), SPEED_ONE);
    let mut prev = smootherstep(0);
    for i in 1..=1000u32 {
        let y = smootherstep(i * (SPEED_ONE / 1000));
        assert!(y <= SPEED_ONE);
        assert!(y >= prev);
        prev = y;
    }
    // Half way, the ease is exactly half.
    assert_eq!(smootherstep(SPEED_ONE / 2), SPEED_ONE / 2);
}

#[test]
fn unitf32_decay_properties_many_random_cases() {
    let mut rng = TestRng(0xC0FFEE_1234_5678);
    for _ in 0..20_000 {
        let start = rng.range(0, INTENSITY_ONE as u64) as u32;
        let rate = rng.range(0, 50_000) as u32;
        let dt = rng.range(0, 1_000_000);
        let mut x = Intensity::new_clamped(start);
        let before = x.get();
        x.decay_to_zero(rate, dt);
        let after = x.get();
        assert!(after <= INTENSITY_ONE);
        assert!(after <= before);
        let expected = (before as i128 - rate as i128 * dt as i128).max(0);
        assert_eq!(after as i128, expected);
    }
}

#[test]
fn unitf32_decay_reaches_zero_given_enough_time() {
    let mut rng = TestRng(0xDEADBEEF_00AA_55FF);
    for _ in 0..5000 {
        let start = rng.range(10_000_000, INTENSITY_ONE as u64);
        let rate = rng.range(100, 50_000);
        let to_zero = start.div_ceil(rate);
        let total = to_zero * rng.range(1, 3) + 1_000;
        let steps = rng.range(1, 20);
        let mut remaining = total;
        let mut x = Intensity::new_clamped(start as u32);
        for i in 0..steps {
            let dt = if i + 1 == steps { remaining } else { rng.range(0, remaining) };
            remaining -= dt;
            x.decay_to_zero(rate as u32, dt);
        }
        assert_eq!(x.get(), 0);
    }
}

#[test]
fn unitf32_decay_is_consistent_over_step_splitting() {
    let mut rng = TestRng(0x12345678_9ABCDEF0);
    for _ in 0..10_000 {
        let start = rng.range(0, INTENSITY_ONE as u64) as u32;
        let rate = rng.range(0, 50_000) as u32;
        let total = rng.range(0, 1_000_000);

        let mut a = Intensity::new_clamped(start);
        a.decay_to_zero(rate, total);

        let mut b = Intensity::new_clamped(start);
        let steps = rng.range(1, 10);
        let mut rem = total;
        for i in 0..steps {
            let dt = if i + 1 == steps { rem } else { rng.range(0, rem) };
            rem -= dt;
            b.decay_to_zero(rate, dt);
        }
        assert_eq!(a.get(), b.get());
    }
}

#[test]
fn realseconds_tick_down_properties_many_random_cases() {
    let mut rng = TestRng(0xFEEDFACE_F00DBAAD);
    for _ in 0..20_000 {
        let start = rng.range(0, 10_000_000);
        let dt = rng.range(0, 10_000_000);
        let mut t = RealMicros(start);
        t.tick_down(dt);
        assert!(t.get() <= start);
        assert_eq!(t.get(), start.saturating_sub(dt));
    }
}

#[test]
fn globalfx_trigger_armour_break_sets_expected_fields_and_clamps() {
    let mut fx = GlobalFx::default();
    assert_eq!(fx.trauma.get(), 0);
    assert_eq!(fx.flash.get(), 0);
    assert_eq!(fx.hitstop.get(), 0);
    assert_eq!(fx.slowmo_remaining.get(), 0);

    fx.trigger_armour_break();
    assert!(fx.trauma.get() > 0);
    assert!(fx.flash.get() > 0);
    assert!(fx.hitstop.get() > 0);
    assert!(fx.slowmo_remaining.get() > 0);
    assert!(fx.trauma.get() <= INTENSITY_ONE);
    assert!(fx.flash.get() <= INTENSITY_ONE);

    for _ in 0..20 {
        fx.trigger_armour_break();
    }
    assert_eq!(fx.flash.get(), INTENSITY_ONE);
    assert_eq!(fx.trauma.get(), INTENSITY_ONE);
    assert_eq!(fx.hitstop.get(), 90_000);
    assert_eq!(fx.slowmo_remaining.get(), BREAK_SLOWMO_US);
}

#[test]
fn apply_global_fx_sets_virtual_speed_and_overlay_visibility() {
    let mut fx = GlobalFx::default();
    fx.hitstop = RealMicros(100_000);
    fx.slowmo_duration = RealMicros(1_000_000);
    fx.slowmo_remaining = RealMicros(1_000_000);
    fx.slowmo_min_speed = 200_000;
    fx.flash = Intensity::new_clamped(INTENSITY_ONE);
    fx.trauma = Intensity::new_clamped(0);
    let frame = fx.apply_global_fx(16_000);
    assert_eq!(frame.speed, 0);
    assert!(frame.overlay_visible);
    // 3 per second over 16 ms leaves 0.952 of the flash; opacity is 85 % of that.
    assert_eq!(fx.flash.get(), 952_000_000);
    assert_eq!(frame.overlay_alpha, 809_200_000);
    assert_eq!(fx.hitstop.get(), 84_000);
    assert_eq!(fx.slowmo_remaining.get(), 1_000_000);
}

#[test]
fn flash_overlay_hides_once_faded() {
    let mut fx = GlobalFx::default();
    fx.flash = Intensity::new_clamped(2_000_000);
    let frame = fx.apply_global_fx(1_000);
    assert_eq!(fx.flash.get(), 0);
    assert!(!frame.overlay_visible);
    assert_eq!(frame.overlay_alpha, 0);
}

#[test]
fn shake_trauma_decays_and_phase_advances() {
    let mut fx = GlobalFx::default();
    fx.trauma = Intensity::new_clamped(INTENSITY_ONE);
    let frame = fx.apply_global_fx(16_000);
    // 0.9 per second over 16 ms.
    assert_eq!(frame.trauma, 985_600_000);
    assert_eq!(frame.shake_phase, 16_000);
    assert_eq!(frame.speed, SPEED_ONE);
}

#[test]
fn hitstop_precedence_over_slowmo_randomized() {
    let mut rng = TestRng(0xBADC0FFEE0DDF00D);
    let mut fx = GlobalFx::default();
    for _ in 0..5000 {
        let hitstop = rng.range(0, 200_000);
        let slowmo_remaining = rng.range(0, 2_000_000);
        let slowmo_duration = rng.range(50_000, 2_000_000);
        let min_speed = rng.range(50_000, 800_000) as u32;
        fx.hitstop = RealMicros(hitstop);
        fx.slowmo_duration = RealMicros(slowmo_duration);
        fx.slowmo_remaining = RealMicros(slowmo_remaining);
        fx.slowmo_min_speed = min_speed;
        fx.flash = Intensity::new_clamped(0);
        fx.trauma = Intensity::new_clamped(0);
        let speed = fx.apply_global_fx(16_000).speed;
        if hitstop > 0 {
            assert_eq!(speed, 0);
        } else if slowmo_remaining > 0 {
            assert!(speed >= min_speed);
            assert!(speed <= SPEED_ONE);
        } else {
            assert_eq!(speed, SPEED_ONE);
        }
    }
}

#[test]
fn hitstop_keeps_speed_zero_until_timer_expires() {
    let mut fx = GlobalFx::default();
    fx.hitstop = RealMicros(50_000);
    fx.slowmo_duration = RealMicros(1_000_000);
    fx.slowmo_remaining = RealMicros(1_000_000);
    fx.slowmo_min_speed = 250_000;
    for i in 0..10 {
        let speed = fx.apply_global_fx(10_000).speed;
        if i < 5 {
            assert_eq!(speed, 0);
        } else {
            assert!(speed >= 250_000);
            assert!(speed <= SPEED_ONE);
            break;
        }
    }
}

#[test]
fn slowmo_eases_from_floor_back_to_normal() {
    let mut fx = GlobalFx::default();
    fx.slowmo_duration = RealMicros(1_000_000);
    fx.slowmo_remaining = RealMicros(1_000_000);
    fx.slowmo_min_speed = 220_000;
    // Right at the start of the tail the speed is the floor.
    assert_eq!(fx.update_time_control(0), 220_000);
    // Half way through, the ease is half: 0.22 + 0.78 * 0.5.
    fx.slowmo_remaining = RealMicros(500_000);
    assert_eq!(fx.update_time_control(0), 610_000);
    // At the end of the tail the speed is normal.
    fx.slowmo_remaining = RealMicros(1);
    assert_eq!(fx.update_time_control(1), SPEED_ONE);
    assert_eq!(fx.update_time_control(1), SPEED_ONE);
}

#[test]
fn ensure_fx_handles_caches_camera_and_spawns_overlay_when_missing() {
    let mut handles = FxHandles::new();
    let cam: u64 = 42;
    // No overlay exists yet: the lookup hands back the one just spawned.
    let spawned_overlay: u64 = 77;
    handles.ensure(Some(cam), Some(spawned_overlay));
    assert_eq!(handles.camera, Some(cam));
    assert!(handles.overlay.is_some());
    assert_eq!(handles.overlay, Some(spawned_overlay));
    // Once cached, later lookups do not replace the handles.
    handles.ensure(Some(5), Some(6));
    assert_eq!(handles.camera, Some(cam));
    assert_eq!(handles.overlay, Some(spawned_overlay));
}

#[test]
fn countdowns_follow_precedence_through_apply() {
    let mut fx = GlobalFx::default();
    fx.hitstop = RealMicros(5_000);
    fx.slowmo_remaining = RealMicros(300_000);
    fx.apply_global_fx(16_000);
    assert_eq!(fx.hitstop.get(), 0);
    assert_eq!(fx.slowmo_remaining.get(), 300_000);
    fx.apply_global_fx(16_000);
    assert_eq!(fx.slowmo_remaining.get(), 284_000);
    fx.slowmo_remaining = RealMicros(0);
    let frame = fx.apply_global_fx(16_000);
    assert_eq!(frame.speed, SPEED_ONE);
    assert_eq!(fx.hitstop.get(), 0);
    assert_eq!(fx.slowmo_remaining.get(), 0);
}
