//! Enemies: combat attributes, the Alive -> Dying -> Dead lifecycle with
//! deferred removal, and the armour feedback that triggers global effects.
use vstd::prelude::*;
use crate::components::{Armour, Health, Vec2i};
use crate::fx::{
    GlobalFx, Intensity, RealMicros, INTENSITY_ONE, BREAK_TRAUMA, BREAK_HITSTOP_US, BREAK_SLOWMO_US,
    BREAK_SLOWMO_MIN_SPEED, decayed,
};
use crate::layers::{
    CollisionLayers, enemy_layers, enemy_layers_spec, non_interacting_enemy_layers,
    non_interacting_enemy_layers_spec,
};

verus! {

/// Length of the dying animation, in microseconds.
pub const DYING_DURATION_US: u64 = 350_000;

/// Length of the crackle after an armour break, in microseconds.
pub const CRACKLE_US: u64 = 320_000;

/// Hit flash lost per microsecond.
pub const HIT_FLASH_DECAY_PER_US: u32 = 8_000;

/// Break pulse lost per microsecond.
pub const BREAK_PULSE_DECAY_PER_US: u32 = 3_200;

/// Intensity above which a local effect counts as showing.
pub const FX_ACTIVE_EPSILON: u32 = 1_000_000;

/// Shortest dying duration used for animation progress, in microseconds.
pub const MIN_DYING_DURATION_US: u64 = 100;

/// Lifecycle of an enemy.
#[derive(Clone, Copy, Debug, PartialEq, Eq, Structural)]
pub enum EnemyLifeState {
    /// Interacts normally.
    Alive,
    /// Playing the death animation; `elapsed` of `duration` microseconds have passed.
    Dying { elapsed: u64, duration: u64 },
    /// Finished; waiting for removal.
    Dead,
}

/// Presentation state of an enemy's armour.
#[derive(Clone, Copy, Debug, PartialEq, Eq, Structural)]
pub struct ArmourFx {
    pub last_hits_remaining: u16,
    pub hit_flash: Intensity,
    pub break_pulse: Intensity,
    pub crackle_remaining: RealMicros,
    /// Real time the crackle has run, in microseconds.
    pub crackle_phase: u64,
}

impl ArmourFx {
    /// Quiet effects for armour that starts with `initial_hits`.
    pub fn new(initial_hits: u16) -> (r: ArmourFx)
        ensures
            r == (ArmourFx {
                last_hits_remaining: initial_hits,
                hit_flash: Intensity(0),
                break_pulse: Intensity(0),
                crackle_remaining: RealMicros(0),
                crackle_phase: 0,
            }),
    {
        ArmourFx {
            last_hits_remaining: initial_hits,
            hit_flash: Intensity(0),
            break_pulse: Intensity(0),
            crackle_remaining: RealMicros(0),
            crackle_phase: 0,
        }
    }

    /// Whether any local effect is still showing.
    pub fn any_active(&self) -> (r: bool)
        ensures
            r == (self.hit_flash.0 > FX_ACTIVE_EPSILON || self.break_pulse.0 > FX_ACTIVE_EPSILON
                || self.crackle_remaining.0 > 0),
    {
        self.hit_flash.get() > FX_ACTIVE_EPSILON || self.break_pulse.get() > FX_ACTIVE_EPSILON
            || self.crackle_remaining.is_positive()
    }
}

/// An enemy: combat attributes, lifecycle, layers and armour feedback.
#[derive(Clone, Copy, Debug, PartialEq, Eq, Structural)]
pub struct Enemy {
    pub armour: Armour,
    pub health: Health,
    pub life: EnemyLifeState,
    pub layers: CollisionLayers,
    pub fx: ArmourFx,
    /// Marked for removal outside the fixed-tick phase.
    pub pending_despawn: bool,
}

/// A live enemy with full armour of `hits` and `hp` hit points.
pub open spec fn fresh_enemy(hits: u16, hp: i32) -> Enemy {
    Enemy {
        armour: Armour { hits_remaining: hits, max_hits: hits },
        health: Health { hp },
        life: EnemyLifeState::Alive,
        layers: enemy_layers_spec(),
        fx: ArmourFx {
            last_hits_remaining: hits,
            hit_flash: Intensity(0),
            break_pulse: Intensity(0),
            crackle_remaining: RealMicros(0),
            crackle_phase: 0,
        },
        pending_despawn: false,
    }
}

/// Armour of each stationary target.
pub const TARGET_ARMOUR: u16 = 3;

/// Hit points of each stationary target.
pub const TARGET_HP: i32 = 5;

/// The stationary targets of a round: three enemies in a row above the
/// player's start, each with full armour.
pub open spec fn targets_roster() -> Seq<(Vec2i, Enemy)> {
    seq![
        (Vec2i { x: -200_000i32, y: 120_000 }, fresh_enemy(TARGET_ARMOUR, TARGET_HP)),
        (Vec2i { x: 0, y: 120_000 }, fresh_enemy(TARGET_ARMOUR, TARGET_HP)),
        (Vec2i { x: 200_000, y: 120_000 }, fresh_enemy(TARGET_ARMOUR, TARGET_HP)),
    ]
}

/// The stationary targets of a round, with their positions in world units.
pub fn spawn_targets() -> (r: Vec<(Vec2i, Enemy)>)
    ensures
        r@ == targets_roster(),
{
    let mut r: Vec<(Vec2i, Enemy)> = Vec::new();
    r.push((Vec2i { x: -200_000, y: 120_000 }, Enemy::new(TARGET_ARMOUR, TARGET_HP)));
    r.push((Vec2i { x: 0, y: 120_000 }, Enemy::new(TARGET_ARMOUR, TARGET_HP)));
    r.push((Vec2i { x: 200_000, y: 120_000 }, Enemy::new(TARGET_ARMOUR, TARGET_HP)));
    proof {
        assert(r@ =~= targets_roster());
    }
    r
}

/// The state the armour-break preset leaves global effects in.
pub open spec fn armour_break(fx: GlobalFx) -> GlobalFx {
    GlobalFx {
        trauma: Intensity(
            if fx.trauma.0 + BREAK_TRAUMA < INTENSITY_ONE {
                (fx.trauma.0 + BREAK_TRAUMA) as u32
            } else {
                INTENSITY_ONE
            },
        ),
        flash: Intensity(INTENSITY_ONE),
        hitstop: RealMicros(
            if fx.hitstop.0 >= BREAK_HITSTOP_US {
                fx.hitstop.0
            } else {
                BREAK_HITSTOP_US
            },
        ),
        slowmo_duration: RealMicros(BREAK_SLOWMO_US),
        slowmo_remaining: RealMicros(
            if fx.slowmo_remaining.0 >= BREAK_SLOWMO_US {
                fx.slowmo_remaining.0
            } else {
                BREAK_SLOWMO_US
            },
        ),
        slowmo_min_speed: BREAK_SLOWMO_MIN_SPEED,
        shake_phase: fx.shake_phase,
    }
}

/// Whether this fixed tick's armour update sees the armour of `e` break.
pub open spec fn breaks(e: Enemy) -> bool {
    &&& !e.pending_despawn
    &&& e.life == EnemyLifeState::Alive
    &&& e.armour.hits_remaining == 0
    &&& e.fx.last_hits_remaining > 0
}

/// The enemy after the death trigger.
pub open spec fn death_triggered(e: Enemy) -> Enemy {
    if !e.pending_despawn && e.life == EnemyLifeState::Alive && e.health.hp <= 0 {
        Enemy {
            life: EnemyLifeState::Dying { elapsed: 0, duration: DYING_DURATION_US },
            layers: non_interacting_enemy_layers_spec(),
            ..e
        }
    } else {
        e
    }
}

/// The enemy after `dt` microseconds of its dying animation.
pub open spec fn death_progressed(e: Enemy, dt: int) -> Enemy {
    match e.life {
        EnemyLifeState::Dying { elapsed, duration } => {
            if e.pending_despawn {
                e
            } else {
                let t = if elapsed + dt < duration { elapsed + dt } else { duration as int };
                if t >= duration {
                    Enemy { life: EnemyLifeState::Dead, pending_despawn: true, ..e }
                } else {
                    Enemy { life: EnemyLifeState::Dying { elapsed: t as u64, duration }, ..e }
                }
            }
        },
        _ => e,
    }
}

/// The armour feedback of `e` after one fixed tick of `dt` microseconds.
pub open spec fn armour_fx_stepped(e: Enemy, dt: int) -> ArmourFx {
    let new_hits = e.armour.hits_remaining;
    let fx = e.fx;
    let hit = new_hits < fx.last_hits_remaining;
    let brk = breaks(e);
    let flash0 = if hit { INTENSITY_ONE as int } else { fx.hit_flash.0 as int };
    let pulse0 = if brk { INTENSITY_ONE as int } else { fx.break_pulse.0 as int };
    let crackle0 = if brk { CRACKLE_US as int } else { fx.crackle_remaining.0 as int };
    let phase0 = if brk { 0 } else { fx.crackle_phase as int };
    ArmourFx {
        last_hits_remaining: new_hits,
        hit_flash: Intensity(decayed(flash0, HIT_FLASH_DECAY_PER_US as int, dt) as u32),
        break_pulse: Intensity(decayed(pulse0, BREAK_PULSE_DECAY_PER_US as int, dt) as u32),
        crackle_remaining: RealMicros(
            if crackle0 > 0 {
                if crackle0 >= dt { (crackle0 - dt) as u64 } else { 0 }
            } else {
                0
            },
        ),
        crackle_phase: if crackle0 > 0 {
            if phase0 + dt <= u64::MAX { (phase0 + dt) as u64 } else { u64::MAX }
        } else {
            phase0 as u64
        },
    }
}

impl Enemy {
    /// A live enemy with full armour of `armour_hits` and `hp` hit points.
    pub fn new(armour_hits: u16, hp: i32) -> (r: Enemy)
        ensures
            r == fresh_enemy(armour_hits, hp),
    {
        Enemy {
            armour: Armour { hits_remaining: armour_hits, max_hits: armour_hits },
            health: Health { hp },
            life: EnemyLifeState::Alive,
            layers: enemy_layers(),
            fx: ArmourFx::new(armour_hits),
            pending_despawn: false,
        }
    }

    /// Alive -> Dying once health is gone: the dying timer starts and the
    /// enemy stops colliding at once.
    pub fn death_trigger(&mut self)
        ensures
            *final(self) == death_triggered(*old(self)),
    {
        if !self.pending_despawn && self.life == EnemyLifeState::Alive && self.health.hp <= 0 {
            self.life = EnemyLifeState::Dying { elapsed: 0, duration: DYING_DURATION_US };
            self.layers = non_interacting_enemy_layers();
        }
    }

    /// Advance the dying animation by `dt` microseconds; at its end the
    /// enemy is Dead and marked for removal.
    pub fn death_progress(&mut self, dt: u64)
        ensures
            *final(self) == death_progressed(*old(self), dt as int),
    {
        if !self.pending_despawn {
            match self.life {
                EnemyLifeState::Dying { elapsed, duration } => {
                    let t: u64 = if (elapsed as u128 + dt as u128) < duration as u128 {
                        elapsed + dt
                    } else {
                        duration
                    };
                    if t >= duration {
                        self.life = EnemyLifeState::Dead;
                        self.pending_despawn = true;
                    } else {
                        self.life = EnemyLifeState::Dying { elapsed: t, duration };
                    }
                },
                _ => {},
            }
        }
    }

    /// How much of the enemy is still shown, in billionths: full while
    /// Alive, falling linearly to zero while Dying, zero when Dead.
    pub fn death_fade(&self) -> (r: u32)
        ensures
            r <= INTENSITY_ONE,
            self.life == EnemyLifeState::Alive ==> r == INTENSITY_ONE,
            self.life == EnemyLifeState::Dead ==> r == 0,
            match self.life {
                EnemyLifeState::Dying { elapsed, duration } => {
                    let d = if duration < MIN_DYING_DURATION_US { MIN_DYING_DURATION_US } else { duration };
                    r == INTENSITY_ONE - (if elapsed >= d {
                        INTENSITY_ONE as int
                    } else {
                        elapsed * INTENSITY_ONE / d as int
                    })
                },
                _ => true,
            },
    {
        match self.life {
            EnemyLifeState::Alive => INTENSITY_ONE,
            EnemyLifeState::Dead => 0,
            EnemyLifeState::Dying { elapsed, duration } => {
                let d: u64 = if duration < MIN_DYING_DURATION_US { MIN_DYING_DURATION_US } else { duration };
                let t: u64 = if elapsed >= d {
                    INTENSITY_ONE as u64
                } else {
                    proof {
                        assert(elapsed as int * INTENSITY_ONE as int / d as int <= INTENSITY_ONE as int)
                            by (nonlinear_arith)
                            requires elapsed < d, d > 0;
                        assert(elapsed as int * INTENSITY_ONE as int / d as int >= 0) by (nonlinear_arith)
                            requires d > 0;
                    }
                    ((elapsed as u128 * INTENSITY_ONE as u128) / d as u128) as u64
                };
                (INTENSITY_ONE as u64 - t) as u32
            },
        }
    }

    /// One fixed tick of armour feedback over `dt` microseconds: a lost
    /// armour hit flashes, a break (hits falling to zero) pulses, crackles
    /// and triggers the global armour-break preset; then everything decays.
    /// Enemies that are not Alive, or are marked for removal, are left alone.
    pub fn armour_fx_update(&mut self, global: &mut GlobalFx, dt: u64)
        ensures
            (old(self).pending_despawn || old(self).life != EnemyLifeState::Alive) ==> *final(self) == *old(self),
            !(old(self).pending_despawn || old(self).life != EnemyLifeState::Alive) ==> *final(self) == (Enemy {
                fx: armour_fx_stepped(*old(self), dt as int),
                ..*old(self)
            }),
            *final(global) == if breaks(*old(self)) { armour_break(*old(global)) } else { *old(global) },
    {
        if self.pending_despawn || self.life != EnemyLifeState::Alive {
            return;
        }
        let new_hits = self.armour.hits_remaining;
        let old_hits = self.fx.last_hits_remaining;
        if new_hits < old_hits {
            self.fx.hit_flash = Intensity::new_clamped(INTENSITY_ONE);
            if new_hits == 0 && old_hits > 0 {
                self.fx.break_pulse = Intensity::new_clamped(INTENSITY_ONE);
                self.fx.crackle_remaining = RealMicros(CRACKLE_US);
                self.fx.crackle_phase = 0;
                global.trigger_armour_break();
            }
        }
        self.fx.last_hits_remaining = new_hits;
        self.fx.hit_flash.decay_to_zero(HIT_FLASH_DECAY_PER_US, dt);
        self.fx.break_pulse.decay_to_zero(BREAK_PULSE_DECAY_PER_US, dt);
        if self.fx.crackle_remaining.is_positive() {
            self.fx.crackle_remaining.tick_down(dt);
            self.fx.crackle_phase = self.fx.crackle_phase.saturating_add(dt);
        }
    }
}

/// Run the death trigger on every enemy.
pub fn enemy_death_trigger(enemies: &mut Vec<Enemy>)
    ensures
        final(enemies)@.len() == old(enemies)@.len(),
        forall|i: int| 0 <= i < old(enemies)@.len() ==> #[trigger] final(enemies)@[i] == death_triggered(old(enemies)@[i]),
{
    let ghost old_e = enemies@;
    let n = enemies.len();
    let mut i: usize = 0;
    while i < n
        invariant
            n == enemies@.len(),
            n == old_e.len(),
            i <= n,
            forall|j: int| 0 <= j < i ==> #[trigger] enemies@[j] == death_triggered(old_e[j]),
            forall|j: int| i <= j < n ==> #[trigger] enemies@[j] == old_e[j],
        decreases n - i,
    {
        let mut e = enemies[i];
        e.death_trigger();
        enemies.set(i, e);
        i = i + 1;
    }
}

/// Advance every dying enemy by `dt` microseconds.
pub fn enemy_death_progress(enemies: &mut Vec<Enemy>, dt: u64)
    ensures
        final(enemies)@.len() == old(enemies)@.len(),
        forall|i: int| 0 <= i < old(enemies)@.len() ==> #[trigger] final(enemies)@[i] == death_progressed(old(enemies)@[i], dt as int),
{
    let ghost old_e = enemies@;
    let n = enemies.len();
    let mut i: usize = 0;
    while i < n
        invariant
            n == enemies@.len(),
            n == old_e.len(),
            i <= n,
            forall|j: int| 0 <= j < i ==> #[trigger] enemies@[j] == death_progressed(old_e[j], dt as int),
            forall|j: int| i <= j < n ==> #[trigger] enemies@[j] == old_e[j],
        decreases n - i,
    {
        let mut e = enemies[i];
        e.death_progress(dt);
        enemies.set(i, e);
        i = i + 1;
    }
}

/// The indices of enemies marked for removal, in increasing order.
pub open spec fn despawn_marked(es: Seq<Enemy>, n: int) -> Seq<usize>
    decreases n,
{
    if n <= 0 {
        Seq::empty()
    } else if es[n - 1].pending_despawn {
        despawn_marked(es, n - 1).push((n - 1) as usize)
    } else {
        despawn_marked(es, n - 1)
    }
}

/// The indices of the enemies marked for removal, for the later phase that
/// removes them.
pub fn despawn_marked_enemies(enemies: &Vec<Enemy>) -> (r: Vec<usize>)
    ensures
        r@ == despawn_marked(enemies@, enemies@.len() as int),
{
    let mut r: Vec<usize> = Vec::new();
    let mut i: usize = 0;
    while i < enemies.len()
        invariant
            i <= enemies@.len(),
            r@ == despawn_marked(enemies@, i as int),
        decreases enemies@.len() - i,
    {
        if enemies[i].pending_despawn {
            r.push(i);
        }
        i = i + 1;
    }
    r
}

/// The global effects after `k` armour breaks.
pub open spec fn breaks_applied(fx: GlobalFx, k: nat) -> GlobalFx
    decreases k,
{
    if k == 0 {
        fx
    } else {
        armour_break(breaks_applied(fx, (k - 1) as nat))
    }
}

/// How many of the first `n` enemies see their armour break this tick.
pub open spec fn count_breaks(es: Seq<Enemy>, n: int) -> nat
    decreases n,
{
    if n <= 0 {
        0
    } else {
        count_breaks(es, n - 1) + if breaks(es[n - 1]) { 1nat } else { 0nat }
    }
}

/// One fixed tick of armour feedback for every enemy; each break triggers
/// the global armour-break preset once.
pub fn armour_fx_update(enemies: &mut Vec<Enemy>, global: &mut GlobalFx, dt: u64)
    ensures
        final(enemies)@.len() == old(enemies)@.len(),
        forall|i: int|
            0 <= i < old(enemies)@.len() ==> {
                let e = #[trigger] old(enemies)@[i];
                final(enemies)@[i] == if e.pending_despawn || e.life != EnemyLifeState::Alive {
                    e
                } else {
                    Enemy { fx: armour_fx_stepped(e, dt as int), ..e }
                }
            },
        *final(global) == breaks_applied(*old(global), count_breaks(old(enemies)@, old(enemies)@.len() as int)),
{
    let ghost old_e = enemies@;
    let ghost old_g = *global;
    let n = enemies.len();
    let mut i: usize = 0;
    while i < n
        invariant
            n == enemies@.len(),
            n == old_e.len(),
            i <= n,
            *global == breaks_applied(old_g, count_breaks(old_e, i as int)),
            forall|j: int|
                0 <= j < i ==> {
                    let e = #[trigger] old_e[j];
                    enemies@[j] == if e.pending_despawn || e.life != EnemyLifeState::Alive {
                        e
                    } else {
                        Enemy { fx: armour_fx_stepped(e, dt as int), ..e }
                    }
                },
            forall|j: int| i <= j < n ==> #[trigger] enemies@[j] == old_e[j],
        decreases n - i,
    {
        let mut e = enemies[i];
        e.armour_fx_update(global, dt);
        enemies.set(i, e);
        proof {
            if breaks(old_e[i as int]) {
                assert(count_breaks(old_e, i + 1) == count_breaks(old_e, i as int) + 1);
            } else {
                assert(count_breaks(old_e, i + 1) == count_breaks(old_e, i as int));
            }
        }
        i = i + 1;
    }
}

/// The armour-break preset leaves trauma, flash, hit-stop and slow motion
/// all running, and however many times it fires, both intensities stay
/// within full strength; from enough repeats on, both sit at full strength.
pub proof fn lemma_armour_break_preset(fx: GlobalFx, k: nat)
    requires
        fx.wf(),
    ensures
        breaks_applied(fx, k).wf(),
        k >= 1 ==> {
            let after = breaks_applied(fx, k);
            &&& after.trauma.0 > 0
            &&& after.flash.0 == INTENSITY_ONE
            &&& after.hitstop.0 > 0
            &&& after.slowmo_remaining.0 > 0
        },
        k >= 2 ==> breaks_applied(fx, k).trauma.0 == INTENSITY_ONE,
    decreases k,
{
    if k > 0 {
        lemma_armour_break_preset(fx, (k - 1) as nat);
    }
}

} // verus!
