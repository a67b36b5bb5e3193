//! Game-feel effects: normalized intensities, real-time countdowns, and the
//! global effect state that drives playback rate, shake and screen flash.
//!
//! Units: an intensity counts billionths (`INTENSITY_ONE` is full strength),
//! time counts microseconds of real time, and the playback rate counts
//! millionths of normal speed (`SPEED_ONE` is normal speed).
use vstd::prelude::*;

verus! {

/// Full strength of a normalized intensity.
pub const INTENSITY_ONE: u32 = 1_000_000_000;

/// Normal playback speed.
pub const SPEED_ONE: u32 = 1_000_000;

/// Shortest slow-motion duration used for easing, in microseconds.
pub const MIN_SLOWMO_DURATION_US: u64 = 100;

/// Camera trauma added by an armour break.
pub const BREAK_TRAUMA: u32 = 950_000_000;

/// Hit-stop length after an armour break, in microseconds.
pub const BREAK_HITSTOP_US: u64 = 90_000;

/// Slow-motion tail after an armour break, in microseconds.
pub const BREAK_SLOWMO_US: u64 = 1_000_000;

/// Slowest playback speed of the slow-motion tail.
pub const BREAK_SLOWMO_MIN_SPEED: u32 = 220_000;

/// Trauma lost per microsecond.
pub const TRAUMA_DECAY_PER_US: u32 = 900;

/// Flash intensity lost per microsecond.
pub const FLASH_DECAY_PER_US: u32 = 3_000;

/// Flash intensity above which the overlay is shown.
pub const FLASH_VISIBLE_EPSILON: u32 = 1_000_000;

/// Largest overlay opacity, in hundredths of full opacity.
pub const OVERLAY_MAX_PERCENT: u32 = 85;

/// Saturating linear decay: `v` lowered by `rate * dt`, never below zero.
///
/// Trauma and flash fade at a constant rate rather than by a constant
/// factor: the fade reaches zero in finite time (so effects end cleanly),
/// it is computed exactly in integer units, and any split of a step into
/// sub-steps gives exactly the same result as the whole step.
pub open spec fn decayed(v: int, rate: int, dt: int) -> int {
    if v - rate * dt > 0 {
        v - rate * dt
    } else {
        0
    }
}

/// Decay applied in the given sub-steps, one after another.
pub open spec fn decayed_steps(v: int, rate: int, steps: Seq<nat>) -> int
    decreases steps.len(),
{
    if steps.len() == 0 {
        v
    } else {
        decayed(decayed_steps(v, rate, steps.drop_last()), rate, steps.last() as int)
    }
}

/// The total length of a sequence of steps.
pub open spec fn total(steps: Seq<nat>) -> nat
    decreases steps.len(),
{
    if steps.len() == 0 {
        0
    } else {
        total(steps.drop_last()) + steps.last()
    }
}

/// A normalized intensity, in billionths of full strength.
#[derive(Clone, Copy, Debug, PartialEq, Eq, Structural)]
pub struct Intensity(pub u32);

impl Intensity {
    /// Within `[0, INTENSITY_ONE]`.
    pub open spec fn wf(self) -> bool {
        self.0 <= INTENSITY_ONE
    }

    /// `v`, clamped to full strength.
    pub fn new_clamped(v: u32) -> (r: Intensity)
        ensures
            r.0 == if v < INTENSITY_ONE { v } else { INTENSITY_ONE },
            r.wf(),
    {
        if v < INTENSITY_ONE {
            Intensity(v)
        } else {
            Intensity(INTENSITY_ONE)
        }
    }

    /// The intensity in billionths.
    pub fn get(self) -> (r: u32)
        ensures
            r == self.0,
    {
        self.0
    }

    /// Raise by `dv`, clamped to full strength.
    pub fn add_clamped(&mut self, dv: u32)
        ensures
            final(self).0 == if old(self).0 + dv < INTENSITY_ONE {
                (old(self).0 + dv) as u32
            } else {
                INTENSITY_ONE
            },
            final(self).wf(),
    {
        let sum: u64 = self.0 as u64 + dv as u64;
        if sum < INTENSITY_ONE as u64 {
            self.0 = sum as u32;
        } else {
            self.0 = INTENSITY_ONE;
        }
    }

    /// Lower by `rate_per_us` for each of `dt_us` microseconds, stopping at zero.
    pub fn decay_to_zero(&mut self, rate_per_us: u32, dt_us: u64)
        ensures
            final(self).0 == decayed(old(self).0 as int, rate_per_us as int, dt_us as int),
            final(self).0 <= old(self).0,
    {
        proof {
            assert(rate_per_us as int * dt_us as int <= u32::MAX as int * u64::MAX as int) by (nonlinear_arith)
                requires rate_per_us <= u32::MAX, dt_us <= u64::MAX;
        }
        let amount: u128 = rate_per_us as u128 * dt_us as u128;
        if amount >= self.0 as u128 {
            self.0 = 0;
        } else {
            self.0 = (self.0 as u128 - amount) as u32;
        }
    }
}

/// A duration of real time in microseconds; never negative.
#[derive(Clone, Copy, Debug, PartialEq, Eq, Structural)]
pub struct RealMicros(pub u64);

impl RealMicros {
    /// The duration in microseconds.
    pub fn get(self) -> (r: u64)
        ensures
            r == self.0,
    {
        self.0
    }

    /// Raise to at least `v`; never lowers.
    pub fn set_max(&mut self, v: u64)
        ensures
            final(self).0 == if old(self).0 >= v { old(self).0 } else { v },
    {
        if self.0 < v {
            self.0 = v;
        }
    }

    /// Count down by `dt`, stopping at zero.
    pub fn tick_down(&mut self, dt: u64)
        ensures
            final(self).0 == if old(self).0 >= dt { (old(self).0 - dt) as u64 } else { 0u64 },
    {
        if self.0 >= dt {
            self.0 = self.0 - dt;
        } else {
            self.0 = 0;
        }
    }

    /// Whether any time remains.
    pub fn is_positive(self) -> (r: bool)
        ensures
            r == (self.0 > 0),
    {
        self.0 > 0
    }
}

/// Quintic ease `6x^5 - 15x^4 + 10x^3` on `[0, 1]`, with `x` and the result
/// in millionths (rounded down).
pub open spec fn smootherstep_spec(x: int) -> int {
    let s = SPEED_ONE as int;
    (x * x * x * (6 * (x * x) + 10 * (s * s) - 15 * (x * s))) / (s * s * s * s)
}

proof fn lemma_smootherstep_factors(x: int, s: int)
    requires
        0 <= x <= s,
    ensures
        6 * (x * x) + 10 * (s * s) - 15 * (x * s) >= 0,
        0 <= x * x * x * (6 * (x * x) + 10 * (s * s) - 15 * (x * s)),
        x * x * x * (6 * (x * x) + 10 * (s * s) - 15 * (x * s)) <= s * s * s * s * s,
{
    let f = 6 * (x * x) + 10 * (s * s) - 15 * (x * s);
    assert(f >= 0) by (nonlinear_arith)
        requires 0 <= x <= s, f == 6 * (x * x) + 10 * (s * s) - 15 * (x * s);
    assert(0 <= x * x * x) by (nonlinear_arith)
        requires 0 <= x;
    assert(0 <= x * x * x * f) by (nonlinear_arith)
        requires 0 <= x * x * x, f >= 0;
    let g = 6 * (x * x) + 3 * (x * s) + s * s;
    let c = (s - x) * (s - x) * (s - x);
    assert(c == s * s * s - 3 * (s * s * x) + 3 * (s * x * x) - x * x * x) by (nonlinear_arith)
        requires c == (s - x) * (s - x) * (s - x);
    let x3 = x * x * x;
    assert(x3 * f == 6 * (x3 * (x * x)) + 10 * (x3 * (s * s)) - 15 * (x3 * (x * s))) by (nonlinear_arith)
        requires f == 6 * (x * x) + 10 * (s * s) - 15 * (x * s);
    let s3 = s * s * s;
    let s2x = s * s * x;
    let sx2 = s * x * x;
    assert(c * g == s3 * g - 3 * (s2x * g) + 3 * (sx2 * g) - x3 * g) by (nonlinear_arith)
        requires c == s3 - 3 * s2x + 3 * sx2 - x3;
    assert(s3 * g == 6 * (s3 * (x * x)) + 3 * (s3 * (x * s)) + s3 * (s * s)) by (nonlinear_arith)
        requires g == 6 * (x * x) + 3 * (x * s) + s * s;
    assert(s2x * g == 6 * (s2x * (x * x)) + 3 * (s2x * (x * s)) + s2x * (s * s)) by (nonlinear_arith)
        requires g == 6 * (x * x) + 3 * (x * s) + s * s;
    assert(sx2 * g == 6 * (sx2 * (x * x)) + 3 * (sx2 * (x * s)) + sx2 * (s * s)) by (nonlinear_arith)
        requires g == 6 * (x * x) + 3 * (x * s) + s * s;
    assert(x3 * g == 6 * (x3 * (x * x)) + 3 * (x3 * (x * s)) + x3 * (s * s)) by (nonlinear_arith)
        requires g == 6 * (x * x) + 3 * (x * s) + s * s;
    assert(s3 * (x * s) == s2x * (s * s)) by (nonlinear_arith)
        requires s3 == s * s * s, s2x == s * s * x;
    assert(s3 * (x * x) == sx2 * (s * s)) by (nonlinear_arith)
        requires s3 == s * s * s, sx2 == s * x * x;
    assert(s2x * (x * s) == sx2 * (s * s)) by (nonlinear_arith)
        requires s2x == s * s * x, sx2 == s * x * x;
    assert(s2x * (x * x) == x3 * (s * s)) by (nonlinear_arith)
        requires s2x == s * s * x, x3 == x * x * x;
    assert(sx2 * (x * s) == x3 * (s * s)) by (nonlinear_arith)
        requires sx2 == s * x * x, x3 == x * x * x;
    assert(sx2 * (x * x) == x3 * (x * s)) by (nonlinear_arith)
        requires sx2 == s * x * x, x3 == x * x * x;
    assert(s3 * (s * s) == s * s * s * s * s) by (nonlinear_arith)
        requires s3 == s * s * s;
    assert(s * s * s * s * s - x3 * f == c * g);
    assert(0 <= c) by (nonlinear_arith)
        requires 0 <= s - x, c == (s - x) * (s - x) * (s - x);
    assert(0 <= g) by (nonlinear_arith)
        requires 0 <= x, 0 <= s, g == 6 * (x * x) + 3 * (x * s) + s * s;
    assert(0 <= c * g) by (nonlinear_arith)
        requires 0 <= c, 0 <= g;
}

/// Quintic ease on `[0, SPEED_ONE]`: zero slope at both ends, 0 at 0 and
/// `SPEED_ONE` at `SPEED_ONE`.
pub fn smootherstep(x: u32) -> (r: u32)
    requires
        x <= SPEED_ONE,
    ensures
        r == smootherstep_spec(x as int),
        r <= SPEED_ONE,
{
    let s: u128 = SPEED_ONE as u128;
    let xx: u128 = x as u128;
    proof {
        lemma_smootherstep_factors(xx as int, s as int);
        assert(xx * xx <= s * s) by (nonlinear_arith)
            requires xx <= s;
        assert(xx * xx * xx <= s * s * s) by (nonlinear_arith)
            requires xx <= s, xx * xx <= s * s;
        assert(xx * s <= s * s) by (nonlinear_arith)
            requires xx <= s;
        assert(s * s * s * s * s == 1_000_000_000_000_000_000_000_000_000_000);
    }
    let x2 = xx * xx;
    let x3 = x2 * xx;
    let inner = 6 * x2 + 10 * (s * s) - 15 * (xx * s);
    let num = x3 * inner;
    let q = s * s * s * s;
    proof {
        assert(num as int / q as int <= s as int) by (nonlinear_arith)
            requires num as int <= q as int * s as int, q > 0, num >= 0;
    }
    let r = num / q;
    r as u32
}

/// Playback speed during the slow-motion tail: from `min_speed` at the start
/// of the tail, eased back to normal as `remaining` runs out.
pub open spec fn slowmo_speed(remaining: int, duration: int, min_speed: int) -> int {
    let s = SPEED_ONE as int;
    let dur = if duration < MIN_SLOWMO_DURATION_US { MIN_SLOWMO_DURATION_US as int } else { duration };
    let ratio = if remaining >= dur { s } else { remaining * s / dur };
    let eased = smootherstep_spec(s - ratio);
    let lo = if min_speed < s { min_speed } else { s };
    lo + (s - lo) * eased / s
}

/// The global effect state; its only writer is the effects engine.
#[derive(Clone, Copy, Debug, PartialEq, Eq, Structural)]
pub struct GlobalFx {
    /// Camera shake intensity.
    pub trauma: Intensity,
    /// Real time accumulated by the shake oscillator, in microseconds.
    pub shake_phase: u64,
    /// Screen flash intensity.
    pub flash: Intensity,
    /// Remaining hit-stop, during which playback is frozen.
    pub hitstop: RealMicros,
    /// Remaining slow-motion tail.
    pub slowmo_remaining: RealMicros,
    /// Full length of the slow-motion tail.
    pub slowmo_duration: RealMicros,
    /// Slowest playback speed of the tail, in millionths.
    pub slowmo_min_speed: u32,
}

/// What one frame of effects hands to the presentation layer.
#[derive(Clone, Copy, Debug, PartialEq, Eq, Structural)]
pub struct FxFrame {
    /// Playback rate of the virtual clock, in millionths.
    pub speed: u32,
    /// Camera shake intensity after this frame's decay.
    pub trauma: u32,
    /// Phase of the shake oscillator, in microseconds.
    pub shake_phase: u64,
    /// Whether the flash overlay is shown.
    pub overlay_visible: bool,
    /// Overlay opacity, in billionths.
    pub overlay_alpha: u32,
}

/// The playback rate that one frame sets, from the state before the frame.
pub open spec fn frame_speed(fx: GlobalFx, dt: int) -> int {
    if fx.hitstop.0 > 0 {
        0
    } else if fx.slowmo_remaining.0 > 0 {
        let rem = if fx.slowmo_remaining.0 >= dt { fx.slowmo_remaining.0 - dt } else { 0 };
        slowmo_speed(rem, fx.slowmo_duration.0 as int, fx.slowmo_min_speed as int)
    } else {
        SPEED_ONE as int
    }
}

impl Default for GlobalFx {
    fn default() -> (r: GlobalFx)
        ensures
            r == (GlobalFx {
                trauma: Intensity(0),
                shake_phase: 0,
                flash: Intensity(0),
                hitstop: RealMicros(0),
                slowmo_remaining: RealMicros(0),
                slowmo_duration: RealMicros(BREAK_SLOWMO_US),
                slowmo_min_speed: BREAK_SLOWMO_MIN_SPEED,
            }),
    {
        GlobalFx {
            trauma: Intensity(0),
            shake_phase: 0,
            flash: Intensity(0),
            hitstop: RealMicros(0),
            slowmo_remaining: RealMicros(0),
            slowmo_duration: RealMicros(BREAK_SLOWMO_US),
            slowmo_min_speed: BREAK_SLOWMO_MIN_SPEED,
        }
    }
}

impl GlobalFx {
    /// Both intensities are normalized.
    pub open spec fn wf(self) -> bool {
        self.trauma.wf() && self.flash.wf()
    }

    /// The armour-break preset: near-full trauma, full flash, a short
    /// hit-stop and a slow-motion tail.
    pub fn trigger_armour_break(&mut self)
        ensures
            final(self).trauma.0 == if old(self).trauma.0 + BREAK_TRAUMA < INTENSITY_ONE {
                (old(self).trauma.0 + BREAK_TRAUMA) as u32
            } else {
                INTENSITY_ONE
            },
            final(self).flash.0 == INTENSITY_ONE,
            final(self).hitstop.0 == if old(self).hitstop.0 >= BREAK_HITSTOP_US {
                old(self).hitstop.0
            } else {
                BREAK_HITSTOP_US
            },
            final(self).slowmo_duration.0 == BREAK_SLOWMO_US,
            final(self).slowmo_remaining.0 == if old(self).slowmo_remaining.0 >= BREAK_SLOWMO_US {
                old(self).slowmo_remaining.0
            } else {
                BREAK_SLOWMO_US
            },
            final(self).slowmo_min_speed == BREAK_SLOWMO_MIN_SPEED,
            final(self).shake_phase == old(self).shake_phase,
            final(self).wf(),
    {
        self.trauma.add_clamped(BREAK_TRAUMA);
        self.flash = Intensity::new_clamped(INTENSITY_ONE);
        self.hitstop.set_max(BREAK_HITSTOP_US);
        self.slowmo_duration = RealMicros(BREAK_SLOWMO_US);
        let d = self.slowmo_duration.get();
        self.slowmo_remaining.set_max(d);
        self.slowmo_min_speed = BREAK_SLOWMO_MIN_SPEED;
    }

    /// Advance the time controls by `dt` microseconds of real time and
    /// return the playback rate: frozen while hit-stop remains; else, while
    /// slow motion remains, eased from its floor back to normal; else normal.
    pub fn update_time_control(&mut self, dt: u64) -> (r: u32)
        ensures
            r == frame_speed(*old(self), dt as int),
            old(self).hitstop.0 > 0 ==> r == 0,
            old(self).hitstop.0 == 0 && old(self).slowmo_remaining.0 > 0 ==> {
                &&& r <= SPEED_ONE
                &&& (old(self).slowmo_min_speed <= SPEED_ONE ==> old(self).slowmo_min_speed <= r)
            },
            old(self).hitstop.0 == 0 && old(self).slowmo_remaining.0 == 0 ==> r == SPEED_ONE,
            final(self).hitstop.0 == if old(self).hitstop.0 >= dt { (old(self).hitstop.0 - dt) as u64 } else { 0 },
            final(self).slowmo_remaining.0 == if old(self).hitstop.0 > 0 || old(self).slowmo_remaining.0 < dt {
                if old(self).hitstop.0 > 0 { old(self).slowmo_remaining.0 } else { 0 }
            } else {
                (old(self).slowmo_remaining.0 - dt) as u64
            },
            final(self).trauma == old(self).trauma,
            final(self).flash == old(self).flash,
            final(self).shake_phase == old(self).shake_phase,
            final(self).slowmo_duration == old(self).slowmo_duration,
            final(self).slowmo_min_speed == old(self).slowmo_min_speed,
    {
        if self.hitstop.is_positive() {
            self.hitstop.tick_down(dt);
            0
        } else if self.slowmo_remaining.is_positive() {
            self.slowmo_remaining.tick_down(dt);
            let s: u64 = SPEED_ONE as u64;
            let rem = self.slowmo_remaining.get();
            let d0 = self.slowmo_duration.get();
            let dur: u64 = if d0 < MIN_SLOWMO_DURATION_US { MIN_SLOWMO_DURATION_US } else { d0 };
            let ratio: u64 = if rem >= dur {
                s
            } else {
                proof {
                    assert(rem as int * s as int / dur as int <= s as int) by (nonlinear_arith)
                        requires rem < dur, dur > 0, s > 0;
                    assert(rem as int * s as int / dur as int >= 0) by (nonlinear_arith)
                        requires rem >= 0, dur > 0, s > 0;
                }
                ((rem as u128 * s as u128) / dur as u128) as u64
            };
            let eased = smootherstep((s - ratio) as u32) as u64;
            let lo: u64 = if (self.slowmo_min_speed as u64) < s { self.slowmo_min_speed as u64 } else { s };
            proof {
                assert((s - lo) * eased <= (s - lo) * s) by (nonlinear_arith)
                    requires eased <= s, lo <= s;
                assert((s - lo) as int * eased as int / s as int <= (s - lo) as int) by (nonlinear_arith)
                    requires (s - lo) * eased <= (s - lo) * s, s > 0, lo <= s, eased >= 0;
                assert((s - lo) as int * eased as int / s as int >= 0) by (nonlinear_arith)
                    requires lo <= s, eased >= 0, s > 0;
            }
            let speed = lo + (s - lo) * eased / s;
            speed as u32
        } else {
            SPEED_ONE
        }
    }

    /// One frame of effects over `dt` microseconds of real time: the time
    /// controls, then shake decay, then flash decay.
    pub fn apply_global_fx(&mut self, dt: u64) -> (r: FxFrame)
        ensures
            r.speed == frame_speed(*old(self), dt as int),
            final(self).hitstop.0 == if old(self).hitstop.0 >= dt { (old(self).hitstop.0 - dt) as u64 } else { 0 },
            final(self).slowmo_remaining.0 == if old(self).hitstop.0 > 0 || old(self).slowmo_remaining.0 < dt {
                if old(self).hitstop.0 > 0 { old(self).slowmo_remaining.0 } else { 0 }
            } else {
                (old(self).slowmo_remaining.0 - dt) as u64
            },
            final(self).slowmo_duration == old(self).slowmo_duration,
            final(self).slowmo_min_speed == old(self).slowmo_min_speed,
            final(self).shake_phase == if old(self).shake_phase as int + dt <= u64::MAX {
                (old(self).shake_phase + dt) as u64
            } else {
                u64::MAX
            },
            final(self).trauma.0 == decayed(old(self).trauma.0 as int, TRAUMA_DECAY_PER_US as int, dt as int),
            final(self).flash.0 == decayed(old(self).flash.0 as int, FLASH_DECAY_PER_US as int, dt as int),
            r.trauma == final(self).trauma.0,
            r.shake_phase == final(self).shake_phase,
            r.overlay_visible == (final(self).flash.0 > FLASH_VISIBLE_EPSILON),
            r.overlay_alpha == final(self).flash.0 * OVERLAY_MAX_PERCENT / 100,
            old(self).wf() ==> final(self).wf(),
    {
        let speed = self.update_time_control(dt);
        self.shake_phase = self.shake_phase.saturating_add(dt);
        self.trauma.decay_to_zero(TRAUMA_DECAY_PER_US, dt);
        self.flash.decay_to_zero(FLASH_DECAY_PER_US, dt);
        let f = self.flash.get();
        let alpha = (f as u64 * OVERLAY_MAX_PERCENT as u64 / 100) as u32;
        FxFrame {
            speed,
            trauma: self.trauma.get(),
            shake_phase: self.shake_phase,
            overlay_visible: f > FLASH_VISIBLE_EPSILON,
            overlay_alpha: alpha,
        }
    }
}

/// Handles of the camera and the flash overlay, resolved once and trusted
/// afterwards; each is looked up again only while it is unresolved.
#[derive(Clone, Copy, Debug, PartialEq, Eq, Structural)]
pub struct FxHandles {
    pub camera: Option<u64>,
    pub overlay: Option<u64>,
}

impl FxHandles {
    /// Neither handle resolved yet.
    pub fn new() -> (r: FxHandles)
        ensures
            r.camera is None && r.overlay is None,
    {
        FxHandles { camera: None, overlay: None }
    }

    /// Whether both handles are resolved.
    pub fn is_resolved(&self) -> (r: bool)
        ensures
            r == (self.camera is Some && self.overlay is Some),
    {
        self.camera.is_some() && self.overlay.is_some()
    }

    /// Fill each unresolved handle from this frame's lookup; a resolved
    /// handle is kept whatever the lookup found.
    pub fn ensure(&mut self, camera_found: Option<u64>, overlay_found: Option<u64>)
        ensures
            final(self).camera == if old(self).camera is Some { old(self).camera } else { camera_found },
            final(self).overlay == if old(self).overlay is Some { old(self).overlay } else { overlay_found },
    {
        if self.camera.is_none() {
            self.camera = camera_found;
        }
        if self.overlay.is_none() {
            self.overlay = overlay_found;
        }
    }
}

/// The slow-motion speed lies between its floor (clamped to normal speed)
/// and normal speed.
proof fn lemma_slowmo_speed_bounds(remaining: int, duration: int, min_speed: int)
    requires
        remaining >= 0,
        min_speed >= 0,
    ensures
        ({
            let lo = if min_speed < SPEED_ONE { min_speed } else { SPEED_ONE as int };
            lo <= slowmo_speed(remaining, duration, min_speed) <= SPEED_ONE
        }),
{
    let s = SPEED_ONE as int;
    let dur = if duration < MIN_SLOWMO_DURATION_US { MIN_SLOWMO_DURATION_US as int } else { duration };
    let ratio = if remaining >= dur { s } else { remaining * s / dur };
    if remaining < dur {
        assert(remaining * s / dur <= s) by (nonlinear_arith)
            requires 0 <= remaining < dur, s > 0;
        assert(remaining * s / dur >= 0) by (nonlinear_arith)
            requires 0 <= remaining, dur > 0, s > 0;
    }
    let x = s - ratio;
    lemma_smootherstep_factors(x, s);
    let eased = smootherstep_spec(x);
    let q = s * s * s * s;
    let num = x * x * x * (6 * (x * x) + 10 * (s * s) - 15 * (x * s));
    assert(q == 1_000_000_000_000_000_000_000_000);
    assert(num / q <= s && num / q >= 0) by (nonlinear_arith)
        requires num <= q * s, q > 0, num >= 0;
    let lo = if min_speed < s { min_speed } else { s };
    assert((s - lo) * eased / s <= s - lo && (s - lo) * eased / s >= 0) by (nonlinear_arith)
        requires 0 <= eased <= s, 0 <= lo <= s, s > 0;
}

/// Time precedence: while hit-stop remains, playback is frozen whatever
/// the slow-motion state; otherwise, while slow motion remains, the rate
/// lies between the floor speed and normal speed; otherwise it is normal.
pub proof fn lemma_time_precedence(fx: GlobalFx, dt: nat)
    ensures
        fx.hitstop.0 > 0 ==> frame_speed(fx, dt as int) == 0,
        fx.hitstop.0 == 0 && fx.slowmo_remaining.0 > 0 ==> {
            &&& frame_speed(fx, dt as int) <= SPEED_ONE
            &&& (fx.slowmo_min_speed <= SPEED_ONE ==> fx.slowmo_min_speed <= frame_speed(fx, dt as int))
        },
        fx.hitstop.0 == 0 && fx.slowmo_remaining.0 == 0 ==> frame_speed(fx, dt as int) == SPEED_ONE,
{
    if fx.hitstop.0 == 0 && fx.slowmo_remaining.0 > 0 {
        let rem = if fx.slowmo_remaining.0 >= dt { fx.slowmo_remaining.0 - dt } else { 0 };
        lemma_slowmo_speed_bounds(rem, fx.slowmo_duration.0 as int, fx.slowmo_min_speed as int);
    }
}

/// Decay over a total time `T` split into any sub-steps summing to `T`
/// ends where one step of `T` ends.
pub proof fn lemma_decay_split(v: int, rate: nat, steps: Seq<nat>)
    requires
        v >= 0,
    ensures
        decayed_steps(v, rate as int, steps) == decayed(v, rate as int, total(steps) as int),
    decreases steps.len(),
{
    if steps.len() == 0 {
        assert(total(steps) == 0);
        assert(rate as int * 0 == 0);
    } else {
        lemma_decay_split(v, rate, steps.drop_last());
        let a = total(steps.drop_last()) as int;
        let b = steps.last() as int;
        let r = rate as int;
        assert(total(steps) as int == a + b);
        assert(decayed_steps(v, r, steps) == decayed(decayed_steps(v, r, steps.drop_last()), r, b));
        assert(r * (a + b) == r * a + r * b) by (nonlinear_arith);
        assert(r * a >= 0 && r * b >= 0) by (nonlinear_arith)
            requires r >= 0, a >= 0, b >= 0;
        let v1 = decayed(v, r, a);
        assert(decayed_steps(v, r, steps.drop_last()) == v1);
        if v - r * a > 0 {
            assert(v1 == v - r * a);
            assert(decayed(v1, r, b) == decayed(v, r, a + b));
        } else {
            assert(v1 == 0);
            assert(decayed(v1, r, b) == 0);
            assert(decayed(v, r, a + b) == 0);
        }
        assert(decayed(v, r, total(steps) as int) == decayed(v, r, a + b));
    }
}

} // verus!
