//! The spawn producer: on a fire edge, turns the player position and the
//! resolved aim point into a spawn intent.
use vstd::prelude::*;
use crate::components::{Vec2i, UNITS_PER_PIXEL};
use crate::messages::{BulletKind, SpawnBulletRequest};

verus! {

/// Distance from the player at which a shot appears, in world units.
pub const MUZZLE_OFFSET: i32 = 18 * UNITS_PER_PIXEL;

/// Squared distance below which the aim is treated as on the player.
pub const MIN_AIM_DIST_SQ: u128 = 100;

/// Damage of a player shot.
pub const PLAYER_SHOT_DAMAGE: i32 = 1;

/// The integer square root: the largest `r` with `r * r <= n`.
pub open spec fn is_isqrt(n: int, r: int) -> bool {
    r >= 0 && r * r <= n && n < (r + 1) * (r + 1)
}

/// Integer square root by bisection.
pub fn isqrt(n: u128) -> (r: u128)
    requires
        n <= 0x4_0000_0000_0000_0000_0000,
    ensures
        is_isqrt(n as int, r as int),
{
    let mut lo: u128 = 0;
    let mut hi: u128 = 0x4_0000_0000_0001;
    proof {
        assert(0x4_0000_0000_0001u128 * 0x4_0000_0000_0001u128 > 0x4_0000_0000_0000_0000_0000u128) by (nonlinear_arith);
    }
    while hi - lo > 1
        invariant
            lo < hi,
            hi <= 0x4_0000_0000_0001,
            lo * lo <= n,
            n < hi * hi,
        decreases hi - lo,
    {
        let mid = lo + (hi - lo) / 2;
        proof {
            assert(mid * mid <= 0x4_0000_0000_0001u128 * 0x4_0000_0000_0001u128) by (nonlinear_arith)
                requires mid <= 0x4_0000_0000_0001u128;
        }
        if mid * mid <= n {
            lo = mid;
        } else {
            hi = mid;
        }
    }
    lo
}

/// The magnitude of `v`.
pub open spec fn abs(v: int) -> int {
    if v >= 0 {
        v
    } else {
        -v
    }
}

/// `d` scaled by `k / len`, rounded toward zero.
pub open spec fn scaled(d: int, k: int, len: int) -> int {
    let m = abs(d) * abs(k) / len;
    if (d >= 0) == (k >= 0) {
        m
    } else {
        -m
    }
}

/// `v` limited to the range of `i32`.
pub open spec fn sat_i32(v: int) -> i32 {
    if v < i32::MIN {
        i32::MIN
    } else if v > i32::MAX {
        i32::MAX
    } else {
        v as i32
    }
}

/// The spawn intent for a shot from `origin` towards `aim` at `speed`
/// world units per second: along the unit direction to the aim point, or
/// straight up when the aim is on the player.
pub open spec fn shot_request(origin: Vec2i, aim: Vec2i, speed: i32) -> SpawnBulletRequest {
    let dx = aim.x - origin.x;
    let dy = aim.y - origin.y;
    let n = dx * dx + dy * dy;
    let (ux, uy, len) = if n < MIN_AIM_DIST_SQ {
        (0int, 1int, 1int)
    } else {
        (dx, dy, choose|r: int| is_isqrt(n, r))
    };
    SpawnBulletRequest {
        kind: BulletKind::Player,
        pos: Vec2i {
            x: sat_i32(origin.x + scaled(ux, MUZZLE_OFFSET as int, len)),
            y: sat_i32(origin.y + scaled(uy, MUZZLE_OFFSET as int, len)),
        },
        vel: Vec2i { x: sat_i32(scaled(ux, speed as int, len)), y: sat_i32(scaled(uy, speed as int, len)) },
        damage: PLAYER_SHOT_DAMAGE,
    }
}

proof fn lemma_isqrt_unique(n: int, r: int, s: int)
    requires
        is_isqrt(n, r),
        is_isqrt(n, s),
    ensures
        r == s,
{
    if r < s {
        assert((r + 1) * (r + 1) <= s * s) by (nonlinear_arith)
            requires 0 <= r + 1 <= s;
    } else if s < r {
        assert((s + 1) * (s + 1) <= r * r) by (nonlinear_arith)
            requires 0 <= s + 1 <= r;
    }
}

/// `d * k / len` rounded toward zero, for `|d| <= len`; at most `|k|` in magnitude.
fn scale_component(d: i64, k: i32, len: u128) -> (r: i64)
    requires
        len > 0,
        len <= 0x1_0000_0000_0000_0000,
        (d as int) * (d as int) < (len + 1) * (len + 1),
    ensures
        r == scaled(d as int, k as int, len as int),
        -abs(k as int) <= r <= abs(k as int),
{
    let mag: u128 = if d >= 0 { d as u128 } else { (-(d as i128)) as u128 };
    let kmag: u128 = if k >= 0 { k as u128 } else { (-(k as i64)) as u128 };
    proof {
        assert(mag as int * mag as int == d as int * d as int) by (nonlinear_arith)
            requires mag as int == d as int || mag as int == -(d as int);
        if mag > len {
            assert(mag * mag >= (len + 1) * (len + 1)) by (nonlinear_arith)
                requires mag >= len + 1, len > 0;
        }
        assert(mag <= len);
        assert(kmag as int == abs(k as int));
        assert(mag as int * kmag as int <= len as int * kmag as int) by (nonlinear_arith)
            requires mag <= len, kmag >= 0;
        assert(mag as int * kmag as int / len as int <= kmag as int) by (nonlinear_arith)
            requires mag as int * kmag as int <= len as int * kmag as int, len > 0, kmag >= 0;
        assert(mag as int * kmag as int / len as int >= 0) by (nonlinear_arith)
            requires mag >= 0, kmag >= 0, len > 0;
        assert(mag as int * kmag as int <= 0x1_0000_0000_0000_0000 * 0x8000_0000) by (nonlinear_arith)
            requires mag <= 0x1_0000_0000_0000_0000, 0 <= kmag <= 0x8000_0000;
    }
    let q = (mag * kmag / len) as i64;
    if (d >= 0) == (k >= 0) {
        q
    } else {
        -q
    }
}

/// The spawn intent for a shot from `origin` towards `aim` at `speed`.
pub fn shot_towards(origin: Vec2i, aim: Vec2i, speed: i32) -> (r: SpawnBulletRequest)
    ensures
        r == shot_request(origin, aim, speed),
{
    let dx: i64 = aim.x as i64 - origin.x as i64;
    let dy: i64 = aim.y as i64 - origin.y as i64;
    proof {
        assert(dx as int * dx as int <= 0x1_0000_0000 * 0x1_0000_0000) by (nonlinear_arith)
            requires -0x1_0000_0000 <= dx <= 0x1_0000_0000;
        assert(dy as int * dy as int <= 0x1_0000_0000 * 0x1_0000_0000) by (nonlinear_arith)
            requires -0x1_0000_0000 <= dy <= 0x1_0000_0000;
        assert(dx as int * dx as int >= 0) by (nonlinear_arith);
        assert(dy as int * dy as int >= 0) by (nonlinear_arith);
    }
    let n: u128 = (dx as i128 * dx as i128) as u128 + (dy as i128 * dy as i128) as u128;
    let (ux, uy, len): (i64, i64, u128) = if n < MIN_AIM_DIST_SQ {
        (0, 1, 1)
    } else {
        let l = isqrt(n);
        proof {
            assert(l > 0) by {
                if l == 0 {
                    assert(n < 1) by (nonlinear_arith)
                        requires l == 0, (n as int) < (l as int + 1) * (l as int + 1);
                }
            }
            let c = choose|r: int| is_isqrt(n as int, r);
            lemma_isqrt_unique(n as int, l as int, c);
        }
        (dx, dy, l)
    };
    proof {
        assert(n as int == dx as int * dx as int + dy as int * dy as int);
        assert(len <= 0x1_0000_0000_0000_0000) by {
            if len > 0x1_0000_0000_0000_0000 {
                assert(len * len > 0x1_0000_0000_0000_0000u128 * 0x1_0000_0000_0000_0000u128) by (nonlinear_arith)
                    requires len > 0x1_0000_0000_0000_0000u128;
            }
        }
        let ghost xx = (ux as int) * (ux as int);
        let ghost yy = (uy as int) * (uy as int);
        let ghost bound = (len as int + 1) * (len as int + 1);
        if n < MIN_AIM_DIST_SQ {
            assert(xx == 0 && yy == 1 && bound == 4);
        } else {
            assert(xx >= 0 && yy >= 0) by (nonlinear_arith)
                requires xx == (ux as int) * (ux as int), yy == (uy as int) * (uy as int);
            assert(xx + yy == n as int);
            assert((n as int) < bound);
        }
        assert(xx < bound && yy < bound);
    }
    let ox = scale_component(ux, MUZZLE_OFFSET, len);
    let oy = scale_component(uy, MUZZLE_OFFSET, len);
    let vx = scale_component(ux, speed, len);
    let vy = scale_component(uy, speed, len);
    let px: i64 = origin.x as i64 + ox;
    let py: i64 = origin.y as i64 + oy;
    let sx: i32 = if px < i32::MIN as i64 { i32::MIN } else if px > i32::MAX as i64 { i32::MAX } else { px as i32 };
    let sy: i32 = if py < i32::MIN as i64 { i32::MIN } else if py > i32::MAX as i64 { i32::MAX } else { py as i32 };
    let wx: i32 = if vx > i32::MAX as i64 { i32::MAX } else if vx < i32::MIN as i64 { i32::MIN } else { vx as i32 };
    let wy: i32 = if vy > i32::MAX as i64 { i32::MAX } else if vy < i32::MIN as i64 { i32::MIN } else { vy as i32 };
    SpawnBulletRequest {
        kind: BulletKind::Player,
        pos: Vec2i { x: sx, y: sy },
        vel: Vec2i { x: wx, y: wy },
        damage: PLAYER_SHOT_DAMAGE,
    }
}

/// On a fire edge, with the player's position and an aim point both
/// known, the spawn intent for the shot; otherwise nothing (a missing
/// player or aim is a transient state, not an error).
pub fn request_player_bullets(
    fire_pressed: bool,
    player: Option<Vec2i>,
    aim: Option<Vec2i>,
    speed: i32,
) -> (r: Option<SpawnBulletRequest>)
    ensures
        r == if fire_pressed && player is Some && aim is Some {
            Some(shot_request(player.unwrap(), aim.unwrap(), speed))
        } else {
            None::<SpawnBulletRequest>
        },
{
    if !fire_pressed {
        return None;
    }
    match (player, aim) {
        (Some(origin), Some(target)) => Some(shot_towards(origin, target, speed)),
        _ => None,
    }
}

} // verus!
