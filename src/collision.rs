//! The collision resolver: consumes one fixed tick's collision-start facts,
//! applies the bounce budget and the armour gate, and marks absorbed
//! projectiles for return. Each projectile is processed at most once per
//! run, by comparing its stamp with the run's epoch.
use vstd::prelude::*;
use crate::components::{Bullet, BulletState, CollisionEpoch, CollisionStamp, next_epoch};
use crate::enemies::Enemy;
use crate::layers::{CollisionLayers, Layer, has_all, layer_bit};
use crate::pool::{BulletPool, BulletRecord};

verus! {

/// What a collision fact names: a pooled projectile slot, an enemy, or any
/// other body, known by its layers.
#[derive(Clone, Copy, Debug, PartialEq, Eq, Structural)]
pub enum EntityRef {
    Bullet(usize),
    Enemy(usize),
    Body(CollisionLayers),
}

/// One participant of a fact: the contact shape, and the body that owns it
/// when that is a different entity.
#[derive(Clone, Copy, Debug, PartialEq, Eq, Structural)]
pub struct CollisionTarget {
    pub collider: EntityRef,
    pub body: Option<EntityRef>,
}

/// The owner of a participant for gameplay: its body if it has one,
/// otherwise the contact shape itself.
pub open spec fn owner_of(t: CollisionTarget) -> EntityRef {
    match t.body {
        Some(b) => b,
        None => t.collider,
    }
}

impl CollisionTarget {
    /// The gameplay owner of this participant.
    pub fn gameplay_owner(self) -> (r: EntityRef)
        ensures
            r == owner_of(self),
    {
        match self.body {
            Some(b) => b,
            None => self.collider,
        }
    }
}

/// A collision-start fact: an unordered pair of participants.
#[derive(Clone, Copy, Debug, PartialEq, Eq, Structural)]
pub struct CollisionStart {
    pub collider1: EntityRef,
    pub collider2: EntityRef,
    pub body1: Option<EntityRef>,
    pub body2: Option<EntityRef>,
}

/// The two participants of a fact.
pub open spec fn targets_spec(ev: CollisionStart) -> (CollisionTarget, CollisionTarget) {
    (
        CollisionTarget { collider: ev.collider1, body: ev.body1 },
        CollisionTarget { collider: ev.collider2, body: ev.body2 },
    )
}

/// The two participants of a fact.
pub fn targets(ev: &CollisionStart) -> (r: (CollisionTarget, CollisionTarget))
    ensures
        r == targets_spec(*ev),
{
    (
        CollisionTarget { collider: ev.collider1, body: ev.body1 },
        CollisionTarget { collider: ev.collider2, body: ev.body2 },
    )
}

/// Whether `r` names a slot of a pool with `cap` slots.
pub open spec fn is_pooled(r: EntityRef, cap: int) -> bool {
    match r {
        EntityRef::Bullet(i) => i < cap,
        _ => false,
    }
}

/// The slot `r` names, when it names one.
pub open spec fn slot_of(r: EntityRef) -> int {
    match r {
        EntityRef::Bullet(i) => i as int,
        _ => -1,
    }
}

/// The projectile side and the other side of a fact, when exactly one
/// side's contact shape is a pooled projectile.
pub open spec fn bullet_side(ev: CollisionStart, cap: int) -> Option<(CollisionTarget, CollisionTarget)> {
    let (t1, t2) = targets_spec(ev);
    if is_pooled(t1.collider, cap) && !is_pooled(t2.collider, cap) {
        Some((t1, t2))
    } else if is_pooled(t2.collider, cap) && !is_pooled(t1.collider, cap) {
        Some((t2, t1))
    } else {
        None
    }
}

/// The layers of the entity `r` names, when it exists.
pub open spec fn layers_lookup(r: EntityRef, recs: Seq<BulletRecord>, ens: Seq<Enemy>) -> Option<CollisionLayers> {
    match r {
        EntityRef::Bullet(i) => if i < recs.len() { Some(recs[i as int].layers) } else { None },
        EntityRef::Enemy(j) => if j < ens.len() { Some(ens[j as int].layers) } else { None },
        EntityRef::Body(l) => Some(l),
    }
}

/// `v` limited to the range of `i32`.
pub open spec fn clamp_i32(v: int) -> i32 {
    if v < i32::MIN {
        i32::MIN
    } else if v > i32::MAX {
        i32::MAX
    } else {
        v as i32
    }
}

/// A projectile record after a resolved contact with the world: one bounce
/// fewer (never below zero), and absorbed once none are left.
pub open spec fn world_bounced(r: BulletRecord, epoch: u32) -> BulletRecord {
    let left: u8 = if r.bullet.wall_bounces_left > 0 { (r.bullet.wall_bounces_left - 1) as u8 } else { 0 };
    BulletRecord {
        bullet: Bullet { wall_bounces_left: left, ..r.bullet },
        state: if left == 0 { BulletState::PendingReturn } else { BulletState::Active },
        stamp: CollisionStamp { last_epoch: epoch },
        ..r
    }
}

/// Combat state after one fact of the run with the given epoch.
pub open spec fn resolve_step(
    recs: Seq<BulletRecord>,
    ens: Seq<Enemy>,
    ev: CollisionStart,
    epoch: u32,
) -> (Seq<BulletRecord>, Seq<Enemy>) {
    match bullet_side(ev, recs.len() as int) {
        None => (recs, ens),
        Some((b, o)) => {
            let i = slot_of(b.collider);
            let r = recs[i];
            if r.stamp.last_epoch == epoch || r.state != BulletState::Active {
                (recs, ens)
            } else {
                let r1 = BulletRecord { stamp: CollisionStamp { last_epoch: epoch }, ..r };
                let absorbed = BulletRecord { state: BulletState::PendingReturn, ..r1 };
                match layers_lookup(o.collider, recs, ens) {
                    None => (recs.update(i, r1), ens),
                    Some(l) => {
                        if has_all(l.memberships, layer_bit(Layer::World)) {
                            (recs.update(i, world_bounced(r, epoch)), ens)
                        } else if has_all(l.memberships, layer_bit(Layer::Enemy)) {
                            match owner_of(o) {
                                EntityRef::Enemy(j) => {
                                    if j < ens.len() {
                                        let e = ens[j as int];
                                        if e.armour.hits_remaining > 0 {
                                            let worn = Enemy {
                                                armour: crate::components::Armour {
                                                    hits_remaining: (e.armour.hits_remaining - 1) as u16,
                                                    ..e.armour
                                                },
                                                ..e
                                            };
                                            (recs.update(i, r1), ens.update(j as int, worn))
                                        } else {
                                            let hurt = Enemy {
                                                health: crate::components::Health {
                                                    hp: clamp_i32(e.health.hp - r.bullet.damage),
                                                },
                                                ..e
                                            };
                                            (recs.update(i, absorbed), ens.update(j as int, hurt))
                                        }
                                    } else {
                                        (recs.update(i, absorbed), ens)
                                    }
                                },
                                _ => (recs.update(i, absorbed), ens),
                            }
                        } else {
                            (recs.update(i, r1), ens)
                        }
                    },
                }
            }
        },
    }
}

/// Combat state after the facts `evs`, in order, in the run with the given epoch.
pub open spec fn resolve_all(
    recs: Seq<BulletRecord>,
    ens: Seq<Enemy>,
    evs: Seq<CollisionStart>,
    epoch: u32,
) -> (Seq<BulletRecord>, Seq<Enemy>)
    decreases evs.len(),
{
    if evs.len() == 0 {
        (recs, ens)
    } else {
        let prev = resolve_all(recs, ens, evs.drop_last(), epoch);
        resolve_step(prev.0, prev.1, evs.last(), epoch)
    }
}

/// Records keep their Inactive status and resting records are untouched.
pub open spec fn rests_kept(before: Seq<BulletRecord>, after: Seq<BulletRecord>) -> bool {
    &&& after.len() == before.len()
    &&& forall|k: int|
        0 <= k < before.len() ==> (#[trigger] after[k].state == BulletState::Inactive <==> before[k].state
            == BulletState::Inactive)
    &&& forall|k: int| 0 <= k < before.len() && before[k].state == BulletState::Inactive ==> #[trigger] after[k] == before[k]
}

/// Whether `r` names a pooled projectile; yields its slot.
fn pooled_slot(r: EntityRef, cap: usize) -> (s: Option<usize>)
    ensures
        s.is_some() == is_pooled(r, cap as int),
        s.is_some() ==> s.unwrap() as int == slot_of(r),
{
    match r {
        EntityRef::Bullet(i) => if i < cap { Some(i) } else { None },
        _ => None,
    }
}

/// The layers of the entity `r` names, when it exists.
fn lookup_layers(r: EntityRef, pool: &BulletPool, enemies: &Vec<Enemy>) -> (l: Option<CollisionLayers>)
    ensures
        l == layers_lookup(r, pool.records@, enemies@),
{
    match r {
        EntityRef::Bullet(i) => if i < pool.records.len() { Some(pool.records[i].layers) } else { None },
        EntityRef::Enemy(j) => if j < enemies.len() { Some(enemies[j].layers) } else { None },
        EntityRef::Body(l) => Some(l),
    }
}

/// Apply one fact of the run with the given epoch.
fn resolve_one(pool: &mut BulletPool, enemies: &mut Vec<Enemy>, ev: &CollisionStart, epoch: u32)
    requires
        old(pool).wf(),
    ensures
        final(pool).wf(),
        final(pool).free@ == old(pool).free@,
        final(pool).capacity == old(pool).capacity,
        (final(pool).records@, final(enemies)@) == resolve_step(old(pool).records@, old(enemies)@, *ev, epoch),
        rests_kept(old(pool).records@, final(pool).records@),
{
    let cap = pool.records.len();
    let (t1, t2) = targets(ev);
    let s1 = pooled_slot(t1.collider, cap);
    let s2 = pooled_slot(t2.collider, cap);
    let (i, other) = match (s1, s2) {
        (Some(i), None) => (i, t2),
        (None, Some(i)) => (i, t1),
        _ => {
            return;
        },
    };
    let r = pool.records[i];
    if r.stamp.last_epoch == epoch || r.state != BulletState::Active {
        return;
    }
    let stamped = BulletRecord { stamp: CollisionStamp { last_epoch: epoch }, ..r };
    let absorbed = BulletRecord { state: BulletState::PendingReturn, ..stamped };
    let ghost before = pool.records@;
    let new_rec: BulletRecord = match lookup_layers(other.collider, pool, enemies) {
        None => stamped,
        Some(l) => {
            if l.is_in_layer(Layer::World) {
                let left: u8 = if r.bullet.wall_bounces_left > 0 { r.bullet.wall_bounces_left - 1 } else { 0 };
                BulletRecord {
                    bullet: Bullet { wall_bounces_left: left, ..r.bullet },
                    state: if left == 0 { BulletState::PendingReturn } else { BulletState::Active },
                    ..stamped
                }
            } else if l.is_in_layer(Layer::Enemy) {
                match other.gameplay_owner() {
                    EntityRef::Enemy(j) => {
                        if j < enemies.len() {
                            let mut e = enemies[j];
                            if e.armour.is_up() {
                                e.armour.wear_one();
                                enemies.set(j, e);
                                stamped
                            } else {
                                let hp = e.health.hp as i64 - r.bullet.damage as i64;
                                e.health.hp = if hp < i32::MIN as i64 {
                                    i32::MIN
                                } else if hp > i32::MAX as i64 {
                                    i32::MAX
                                } else {
                                    hp as i32
                                };
                                enemies.set(j, e);
                                absorbed
                            }
                        } else {
                            absorbed
                        }
                    },
                    _ => absorbed,
                }
            } else {
                stamped
            }
        },
    };
    pool.records.set(i, new_rec);
    proof {
        let p = *pool;
        assert(new_rec.state != BulletState::Inactive);
        assert(before[i as int].state == BulletState::Active);
        assert forall|s: usize| s < p.capacity implies (#[trigger] p.free@.contains(s)
            <==> p.records@[s as int].state == BulletState::Inactive) by {
            if s == i {
                assert(old(pool).free@.contains(s) <==> before[s as int].state == BulletState::Inactive);
            } else {
                assert(old(pool).free@.contains(s) <==> before[s as int].state == BulletState::Inactive);
            }
        }
    }
}

/// Resolve one fixed tick's collision-start facts, in order. The epoch
/// advances first; a projectile is processed for at most one fact per run.
/// World contacts spend a bounce and absorb the projectile when none are
/// left; enemy contacts wear armour while it is up, and otherwise deal the
/// projectile's damage to health and absorb the projectile.
pub fn process_player_bullet_collisions(
    pool: &mut BulletPool,
    enemies: &mut Vec<Enemy>,
    epoch: &mut CollisionEpoch,
    events: &Vec<CollisionStart>,
)
    requires
        old(pool).wf(),
    ensures
        final(epoch).0 == next_epoch(old(epoch).0),
        final(pool).wf(),
        final(pool).free@ == old(pool).free@,
        final(pool).capacity == old(pool).capacity,
        (final(pool).records@, final(enemies)@) == resolve_all(
            old(pool).records@,
            old(enemies)@,
            events@,
            final(epoch).0,
        ),
        rests_kept(old(pool).records@, final(pool).records@),
{
    epoch.advance();
    let e = epoch.0;
    let ghost recs0 = pool.records@;
    let ghost ens0 = enemies@;
    let ghost free0 = pool.free@;
    let n = events.len();
    let mut k: usize = 0;
    while k < n
        invariant
            n == events@.len(),
            k <= n,
            pool.wf(),
            pool.free@ == free0,
            pool.capacity == recs0.len(),
            (pool.records@, enemies@) == resolve_all(recs0, ens0, events@.take(k as int), e),
            rests_kept(recs0, pool.records@),
        decreases n - k,
    {
        let ghost before = pool.records@;
        resolve_one(pool, enemies, &events[k], e);
        proof {
            assert(events@.take(k + 1).drop_last() =~= events@.take(k as int));
            assert(events@.take(k + 1).last() == events@[k as int]);
        }
        k = k + 1;
    }
    proof {
        assert(events@.take(n as int) =~= events@);
    }
}

/// Fact `ev` is a fresh contact, in the run with the given epoch, between
/// active projectile `i` and a body of the world.
pub open spec fn fresh_world_contact(
    recs: Seq<BulletRecord>,
    ens: Seq<Enemy>,
    ev: CollisionStart,
    epoch: u32,
    i: int,
) -> bool {
    match bullet_side(ev, recs.len() as int) {
        Some((b, o)) => {
            &&& slot_of(b.collider) == i
            &&& recs[i].state == BulletState::Active
            &&& recs[i].stamp.last_epoch != epoch
            &&& match layers_lookup(o.collider, recs, ens) {
                Some(l) => has_all(l.memberships, layer_bit(Layer::World)),
                None => false,
            }
        },
        None => false,
    }
}

/// Fact `ev` is a fresh contact, in the run with the given epoch, between
/// active projectile `i` and enemy `j` (a body in the Enemy layer and not
/// in the World layer, owned by enemy `j`).
pub open spec fn fresh_enemy_contact(
    recs: Seq<BulletRecord>,
    ens: Seq<Enemy>,
    ev: CollisionStart,
    epoch: u32,
    i: int,
    j: usize,
) -> bool {
    match bullet_side(ev, recs.len() as int) {
        Some((b, o)) => {
            &&& slot_of(b.collider) == i
            &&& recs[i].state == BulletState::Active
            &&& recs[i].stamp.last_epoch != epoch
            &&& match layers_lookup(o.collider, recs, ens) {
                Some(l) => !has_all(l.memberships, layer_bit(Layer::World)) && has_all(
                    l.memberships,
                    layer_bit(Layer::Enemy),
                ),
                None => false,
            }
            &&& owner_of(o) == EntityRef::Enemy(j)
            &&& j < ens.len()
        },
        None => false,
    }
}

/// A resolved world contact spends exactly one bounce of that projectile
/// and changes nothing else.
pub proof fn lemma_world_contact(recs: Seq<BulletRecord>, ens: Seq<Enemy>, ev: CollisionStart, epoch: u32, i: int)
    requires
        fresh_world_contact(recs, ens, ev, epoch, i),
    ensures
        resolve_step(recs, ens, ev, epoch) == (recs.update(i, world_bounced(recs[i], epoch)), ens),
{
}

/// Whether `ev` has exactly one pooled projectile side, and it is slot `i`.
pub open spec fn names_projectile(ev: CollisionStart, cap: int, i: int) -> bool {
    match bullet_side(ev, cap) {
        Some((b, o)) => slot_of(b.collider) == i,
        None => false,
    }
}

/// After a fact about projectile `i`, that projectile either carries the
/// run's epoch or is not active: no later fact of the run can touch it.
proof fn lemma_settled_after_step(recs: Seq<BulletRecord>, ens: Seq<Enemy>, ev: CollisionStart, epoch: u32, i: int)
    requires
        names_projectile(ev, recs.len() as int, i),
    ensures
        ({
            let t = resolve_step(recs, ens, ev, epoch);
            &&& t.0.len() == recs.len()
            &&& (t.0[i].stamp.last_epoch == epoch || t.0[i].state != BulletState::Active)
        }),
{
}

/// However many facts of one run name the same projectile (the same pair
/// reported again, in either order, or other partners), only the first is
/// resolved; the rest change nothing.
pub proof fn lemma_one_resolution_per_projectile(
    recs: Seq<BulletRecord>,
    ens: Seq<Enemy>,
    evs: Seq<CollisionStart>,
    epoch: u32,
    i: int,
)
    requires
        evs.len() >= 1,
        forall|k: int| 0 <= k < evs.len() ==> names_projectile(#[trigger] evs[k], recs.len() as int, i),
    ensures
        resolve_all(recs, ens, evs, epoch) == resolve_step(recs, ens, evs[0], epoch),
    decreases evs.len(),
{
    if evs.len() == 1 {
        assert(evs.drop_last().len() == 0);
        assert(resolve_all(recs, ens, evs.drop_last(), epoch) == (recs, ens));
    } else {
        let rest = evs.drop_last();
        assert forall|k: int| 0 <= k < rest.len() implies names_projectile(#[trigger] rest[k], recs.len() as int, i) by {
            assert(rest[k] == evs[k]);
        }
        lemma_one_resolution_per_projectile(recs, ens, rest, epoch, i);
        assert(rest[0] == evs[0]);
        lemma_settled_after_step(recs, ens, evs[0], epoch, i);
        let t = resolve_step(recs, ens, evs[0], epoch);
        assert(names_projectile(evs[evs.len() - 1], recs.len() as int, i));
        assert(resolve_step(t.0, t.1, evs.last(), epoch) == t);
    }
}

/// The partner of the projectile side of a fact that names one.
pub open spec fn partner(ev: CollisionStart, cap: int) -> CollisionTarget {
    bullet_side(ev, cap)->Some_0.1
}

/// Whether `ev` names projectile `i` and pairs it with a world body.
pub open spec fn world_fact_for(ev: CollisionStart, cap: int, i: int) -> bool {
    &&& names_projectile(ev, cap, i)
    &&& match partner(ev, cap).collider {
        EntityRef::Body(l) => has_all(l.memberships, layer_bit(Layer::World)),
        _ => false,
    }
}

/// Whether some fact of `evs` names projectile `i`.
pub open spec fn mentions(evs: Seq<CollisionStart>, cap: int, i: int) -> bool
    decreases evs.len(),
{
    if evs.len() == 0 {
        false
    } else {
        mentions(evs.drop_last(), cap, i) || names_projectile(evs.last(), cap, i)
    }
}

/// A fact that does not name projectile `i` leaves its record alone, and
/// no fact changes any layers or the number of records and enemies.
proof fn lemma_step_frame(recs: Seq<BulletRecord>, ens: Seq<Enemy>, ev: CollisionStart, epoch: u32, i: int)
    ensures
        ({
            let t = resolve_step(recs, ens, ev, epoch);
            &&& t.0.len() == recs.len()
            &&& t.1.len() == ens.len()
            &&& forall|k: int| 0 <= k < recs.len() ==> #[trigger] t.0[k].layers == recs[k].layers
            &&& forall|j: int| 0 <= j < ens.len() ==> #[trigger] t.1[j].layers == ens[j].layers
            &&& (0 <= i < recs.len() && !names_projectile(ev, recs.len() as int, i)) ==> t.0[i] == recs[i]
        }),
{
}

/// A run changes no layers and keeps the record of every projectile that
/// none of its facts names.
proof fn lemma_run_frame(recs: Seq<BulletRecord>, ens: Seq<Enemy>, evs: Seq<CollisionStart>, epoch: u32, i: int)
    ensures
        ({
            let t = resolve_all(recs, ens, evs, epoch);
            &&& t.0.len() == recs.len()
            &&& t.1.len() == ens.len()
            &&& forall|k: int| 0 <= k < recs.len() ==> #[trigger] t.0[k].layers == recs[k].layers
            &&& forall|j: int| 0 <= j < ens.len() ==> #[trigger] t.1[j].layers == ens[j].layers
            &&& (0 <= i < recs.len() && forall|k: int|
                0 <= k < evs.len() ==> !names_projectile(#[trigger] evs[k], recs.len() as int, i)) ==> t.0[i]
                == recs[i]
        }),
    decreases evs.len(),
{
    if evs.len() > 0 {
        let rest = evs.drop_last();
        lemma_run_frame(recs, ens, rest, epoch, i);
        let prev = resolve_all(recs, ens, rest, epoch);
        lemma_step_frame(prev.0, prev.1, evs.last(), epoch, i);
        if 0 <= i < recs.len() && forall|k: int|
            0 <= k < evs.len() ==> !names_projectile(#[trigger] evs[k], recs.len() as int, i) {
            assert forall|k: int| 0 <= k < rest.len() implies !names_projectile(#[trigger] rest[k], recs.len() as int, i) by {
                assert(rest[k] == evs[k]);
            }
            assert(!names_projectile(evs[evs.len() - 1], recs.len() as int, i));
        }
    }
}

/// The first fact of a run about active projectile `i`, against enemy `e`
/// whose armour is gone when the fact comes, lowers that enemy's health by
/// exactly the projectile's damage (when the difference fits an `i32`),
/// leaves its armour at zero, and absorbs the projectile.
pub proof fn lemma_run_first_unarmoured_contact(
    recs: Seq<BulletRecord>,
    ens: Seq<Enemy>,
    pre: Seq<CollisionStart>,
    ev: CollisionStart,
    epoch: u32,
    i: int,
    e: usize,
)
    requires
        0 <= i < recs.len(),
        recs[i].state == BulletState::Active,
        recs[i].stamp.last_epoch != epoch,
        forall|k: int| 0 <= k < pre.len() ==> !names_projectile(#[trigger] pre[k], recs.len() as int, i),
        enemy_fact_for(ev, recs, ens, i, e),
        resolve_all(recs, ens, pre, epoch).1[e as int].armour.hits_remaining == 0,
    ensures
        ({
            let before = resolve_all(recs, ens, pre, epoch);
            let after = resolve_all(recs, ens, pre.push(ev), epoch);
            &&& after.0[i].state == BulletState::PendingReturn
            &&& after.1[e as int].armour == before.1[e as int].armour
            &&& (i32::MIN <= before.1[e as int].health.hp - recs[i].bullet.damage <= i32::MAX
                ==> after.1[e as int].health.hp == before.1[e as int].health.hp - recs[i].bullet.damage)
        }),
{
    lemma_run_frame(recs, ens, pre, epoch, i);
    let before = resolve_all(recs, ens, pre, epoch);
    let evs = pre.push(ev);
    assert(evs.drop_last() =~= pre);
    assert(evs.last() == ev);
    let o = partner(ev, recs.len() as int);
    assert(layers_lookup(o.collider, before.0, before.1) == layers_lookup(o.collider, recs, ens));
    assert(before.0[i] == recs[i]);
    assert(fresh_enemy_contact(before.0, before.1, ev, epoch, i, e));
    lemma_enemy_contact(before.0, before.1, ev, epoch, i, e);
}

/// Within one run, while every fact about projectile `i` pairs it with a
/// world body: before the first such fact its record is untouched, and
/// from then on it is exactly the record after one world bounce.
proof fn lemma_run_world_prefix(recs: Seq<BulletRecord>, ens: Seq<Enemy>, evs: Seq<CollisionStart>, epoch: u32, i: int)
    requires
        0 <= i < recs.len(),
        recs[i].state == BulletState::Active,
        recs[i].stamp.last_epoch != epoch,
        forall|k: int|
            0 <= k < evs.len() && names_projectile(#[trigger] evs[k], recs.len() as int, i) ==> world_fact_for(
                evs[k],
                recs.len() as int,
                i,
            ),
    ensures
        ({
            let t = resolve_all(recs, ens, evs, epoch);
            &&& t.0.len() == recs.len()
            &&& t.0[i] == if mentions(evs, recs.len() as int, i) { world_bounced(recs[i], epoch) } else { recs[i] }
        }),
    decreases evs.len(),
{
    if evs.len() > 0 {
        let rest = evs.drop_last();
        assert forall|k: int|
            0 <= k < rest.len() && names_projectile(#[trigger] rest[k], recs.len() as int, i) implies world_fact_for(
                rest[k],
                recs.len() as int,
                i,
            ) by {
            assert(rest[k] == evs[k]);
        }
        lemma_run_world_prefix(recs, ens, rest, epoch, i);
        let prev = resolve_all(recs, ens, rest, epoch);
        let ev = evs.last();
        lemma_step_frame(prev.0, prev.1, ev, epoch, i);
        if names_projectile(ev, recs.len() as int, i) {
            assert(world_fact_for(evs[evs.len() - 1], recs.len() as int, i));
        }
    }
}

/// Repeated facts in one run: when a run has at least one fact about
/// active projectile `i`, and every fact about it pairs it with a world
/// body (however many, in either order, among facts about other
/// projectiles), the run spends exactly one bounce of it.
pub proof fn lemma_run_world_contacts(recs: Seq<BulletRecord>, ens: Seq<Enemy>, evs: Seq<CollisionStart>, epoch: u32, i: int)
    requires
        0 <= i < recs.len(),
        recs[i].state == BulletState::Active,
        recs[i].stamp.last_epoch != epoch,
        mentions(evs, recs.len() as int, i),
        forall|k: int|
            0 <= k < evs.len() && names_projectile(#[trigger] evs[k], recs.len() as int, i) ==> world_fact_for(
                evs[k],
                recs.len() as int,
                i,
            ),
    ensures
        resolve_all(recs, ens, evs, epoch).0[i] == world_bounced(recs[i], epoch),
{
    lemma_run_world_prefix(recs, ens, evs, epoch, i);
}

/// Combat state and epoch after consecutive resolver runs, each of which
/// advances the epoch first.
pub open spec fn resolve_runs(
    recs: Seq<BulletRecord>,
    ens: Seq<Enemy>,
    runs: Seq<Seq<CollisionStart>>,
    epoch: u32,
) -> (Seq<BulletRecord>, Seq<Enemy>, u32)
    decreases runs.len(),
{
    if runs.len() == 0 {
        (recs, ens, epoch)
    } else {
        let prev = resolve_runs(recs, ens, runs.drop_last(), epoch);
        let e = next_epoch(prev.2);
        let t = resolve_all(prev.0, prev.1, runs.last(), e);
        (t.0, t.1, e)
    }
}

/// Bounce budget over runs: an active projectile with `n >= 1` wall
/// bounces, in consecutive runs that each report it against world bodies
/// (any number of times) and never against anything else, is still active
/// with `n - k` bounces after `k < n` runs, and is absorbed with its budget
/// spent after exactly `n` runs.
pub proof fn lemma_runs_bounce_budget(
    recs: Seq<BulletRecord>,
    ens: Seq<Enemy>,
    runs: Seq<Seq<CollisionStart>>,
    epoch: u32,
    i: int,
)
    requires
        0 <= i < recs.len(),
        recs[i].state == BulletState::Active,
        recs[i].stamp.last_epoch != next_epoch(epoch),
        1 <= runs.len() <= recs[i].bullet.wall_bounces_left,
        forall|r: int| 0 <= r < runs.len() ==> mentions(#[trigger] runs[r], recs.len() as int, i),
        forall|r: int, k: int|
            0 <= r < runs.len() && 0 <= k < runs[r].len() && names_projectile(#[trigger] runs[r][k], recs.len() as int, i)
                ==> world_fact_for(runs[r][k], recs.len() as int, i),
    ensures
        ({
            let t = resolve_runs(recs, ens, runs, epoch);
            &&& t.0.len() == recs.len()
            &&& t.0[i].stamp.last_epoch == t.2
            &&& t.0[i].bullet.wall_bounces_left == recs[i].bullet.wall_bounces_left - runs.len()
            &&& t.0[i].state == if runs.len() == recs[i].bullet.wall_bounces_left {
                BulletState::PendingReturn
            } else {
                BulletState::Active
            }
        }),
    decreases runs.len(),
{
    let rest = runs.drop_last();
    let cap = recs.len() as int;
    let prev = resolve_runs(recs, ens, rest, epoch);
    if runs.len() > 1 {
        assert forall|r: int| 0 <= r < rest.len() implies mentions(#[trigger] rest[r], cap, i) by {
            assert(rest[r] == runs[r]);
        }
        assert forall|r: int, k: int|
            0 <= r < rest.len() && 0 <= k < rest[r].len() && names_projectile(#[trigger] rest[r][k], cap, i)
                implies world_fact_for(rest[r][k], cap, i) by {
            assert(rest[r] == runs[r]);
        }
        lemma_runs_bounce_budget(recs, ens, rest, epoch, i);
        assert(next_epoch(prev.2) != prev.2);
    } else {
        assert(rest.len() == 0);
        assert(prev == (recs, ens, epoch));
    }
    let e = next_epoch(prev.2);
    let last = runs.last();
    assert(last == runs[runs.len() - 1]);
    assert forall|k: int| 0 <= k < last.len() && names_projectile(#[trigger] last[k], prev.0.len() as int, i)
        implies world_fact_for(last[k], prev.0.len() as int, i) by {
        assert(last[k] == runs[runs.len() - 1][k]);
    }
    assert(prev.0.len() == recs.len());
    assert(prev.0[i].state == BulletState::Active);
    assert(prev.0[i].stamp.last_epoch != e);
    assert(prev.0[i].bullet.wall_bounces_left == recs[i].bullet.wall_bounces_left - (runs.len() - 1));
    assert(mentions(last, cap, i));
    lemma_run_world_prefix(prev.0, prev.1, last, e, i);
    let t = resolve_runs(recs, ens, runs, epoch);
    assert(t.2 == e);
    assert(t.0 == resolve_all(prev.0, prev.1, last, e).0);
    assert(t.0[i] == world_bounced(prev.0[i], e));
}

/// Whether `ev` names projectile `i` and pairs it with enemy `e`: the
/// partner is in the Enemy layer and not in the World layer, and its owner
/// is enemy `e`.
pub open spec fn enemy_fact_for(ev: CollisionStart, recs: Seq<BulletRecord>, ens: Seq<Enemy>, i: int, e: usize) -> bool {
    let o = partner(ev, recs.len() as int);
    &&& names_projectile(ev, recs.len() as int, i)
    &&& match layers_lookup(o.collider, recs, ens) {
        Some(l) => !has_all(l.memberships, layer_bit(Layer::World)) && has_all(
            l.memberships,
            layer_bit(Layer::Enemy),
        ),
        None => false,
    }
    &&& owner_of(o) == EntityRef::Enemy(e)
    &&& e < ens.len()
}

/// Armour gate over a run: when a run's facts pair enemy `e` with `m`
/// different active projectiles (each fact the first about its
/// projectile), and the armour holds at least `m` hits, the enemy's health
/// does not change, its armour loses exactly `m` hits, and every one of
/// those projectiles stays active with its damage and bounces unchanged.
pub proof fn lemma_run_armour_gate(
    recs: Seq<BulletRecord>,
    ens: Seq<Enemy>,
    evs: Seq<CollisionStart>,
    epoch: u32,
    e: usize,
    slots: Seq<int>,
)
    requires
        e < ens.len(),
        slots.len() == evs.len(),
        evs.len() <= ens[e as int].armour.hits_remaining,
        slots.no_duplicates(),
        forall|k: int| 0 <= k < evs.len() ==> enemy_fact_for(#[trigger] evs[k], recs, ens, slots[k], e),
        forall|k: int|
            0 <= k < slots.len() ==> 0 <= #[trigger] slots[k] < recs.len() && recs[slots[k]].state == BulletState::Active
                && recs[slots[k]].stamp.last_epoch != epoch,
    ensures
        ({
            let t = resolve_all(recs, ens, evs, epoch);
            &&& t.0.len() == recs.len()
            &&& t.1.len() == ens.len()
            &&& forall|k: int| 0 <= k < recs.len() ==> #[trigger] t.0[k].layers == recs[k].layers
            &&& forall|j: int| 0 <= j < ens.len() ==> #[trigger] t.1[j].layers == ens[j].layers
            &&& t.1[e as int].health == ens[e as int].health
            &&& t.1[e as int].armour.hits_remaining == ens[e as int].armour.hits_remaining - evs.len()
            &&& forall|k: int|
                0 <= k < slots.len() ==> #[trigger] t.0[slots[k]] == (BulletRecord {
                    stamp: CollisionStamp { last_epoch: epoch },
                    ..recs[slots[k]]
                })
            &&& forall|q: int| 0 <= q < recs.len() && !slots.contains(q) ==> #[trigger] t.0[q] == recs[q]
        }),
    decreases evs.len(),
{
    if evs.len() == 0 {
        return;
    }
    let rest = evs.drop_last();
    let rslots = slots.drop_last();
    let n = evs.len() - 1;
    assert forall|k: int| 0 <= k < rest.len() implies enemy_fact_for(#[trigger] rest[k], recs, ens, rslots[k], e) by {
        assert(rest[k] == evs[k]);
        assert(rslots[k] == slots[k]);
    }
    assert forall|k: int| 0 <= k < rslots.len() implies 0 <= #[trigger] rslots[k] < recs.len() && recs[rslots[k]].state
        == BulletState::Active && recs[rslots[k]].stamp.last_epoch != epoch by {
        assert(rslots[k] == slots[k]);
    }
    assert(rslots.no_duplicates()) by {
        assert forall|a: int, b: int| 0 <= a < rslots.len() && 0 <= b < rslots.len() && a != b implies rslots[a]
            != rslots[b] by {
            assert(rslots[a] == slots[a] && rslots[b] == slots[b]);
        }
    }
    lemma_run_armour_gate(recs, ens, rest, epoch, e, rslots);
    let prev = resolve_all(recs, ens, rest, epoch);
    let ev = evs[n];
    let sl = slots[n];
    assert(evs.last() == ev);
    assert(enemy_fact_for(ev, recs, ens, sl, e));
    assert(!rslots.contains(sl)) by {
        if rslots.contains(sl) {
            let k = choose|k: int| 0 <= k < rslots.len() && rslots[k] == sl;
            assert(slots[k] == sl);
        }
    }
    assert(prev.0[sl] == recs[sl]);
    let o = partner(ev, recs.len() as int);
    assert(layers_lookup(o.collider, prev.0, prev.1) == layers_lookup(o.collider, recs, ens));
    lemma_step_frame(prev.0, prev.1, ev, epoch, sl);
    let t = resolve_all(recs, ens, evs, epoch);
    assert(t == resolve_step(prev.0, prev.1, ev, epoch));
    assert forall|k: int| 0 <= k < slots.len() implies #[trigger] t.0[slots[k]] == (BulletRecord {
        stamp: CollisionStamp { last_epoch: epoch },
        ..recs[slots[k]]
    }) by {
        if k < n {
            assert(slots[k] == rslots[k]);
            assert(slots[k] != sl);
        }
    }
    assert forall|q: int| 0 <= q < recs.len() && !slots.contains(q) implies #[trigger] t.0[q] == recs[q] by {
        if rslots.contains(q) {
            let k = choose|k: int| 0 <= k < rslots.len() && rslots[k] == q;
            assert(slots[k] == q);
        }
        assert(q != sl) by {
            if q == sl {
                assert(slots[n] == q);
            }
        }
    }
}

/// A projectile record after one resolved world contact in each of the
/// given runs.
pub open spec fn bounced_runs(r: BulletRecord, epochs: Seq<u32>) -> BulletRecord
    decreases epochs.len(),
{
    if epochs.len() == 0 {
        r
    } else {
        world_bounced(bounced_runs(r, epochs.drop_last()), epochs.last())
    }
}

/// Bounce budget: an active projectile with `n >= 1` wall bounces stays
/// active through its first `n - 1` resolved world contacts and is absorbed
/// by the `n`-th, with its budget spent.
pub proof fn lemma_bounce_budget(r: BulletRecord, epochs: Seq<u32>)
    requires
        r.state == BulletState::Active,
        1 <= epochs.len() <= r.bullet.wall_bounces_left,
    ensures
        bounced_runs(r, epochs).bullet.wall_bounces_left == r.bullet.wall_bounces_left - epochs.len(),
        bounced_runs(r, epochs).state == if epochs.len() == r.bullet.wall_bounces_left {
            BulletState::PendingReturn
        } else {
            BulletState::Active
        },
    decreases epochs.len(),
{
    let prev = bounced_runs(r, epochs.drop_last());
    assert(bounced_runs(r, epochs) == world_bounced(prev, epochs.last()));
    if epochs.len() > 1 {
        lemma_bounce_budget(r, epochs.drop_last());
        assert(prev.bullet.wall_bounces_left == r.bullet.wall_bounces_left - (epochs.len() - 1));
    } else {
        assert(epochs.drop_last().len() == 0);
        assert(prev == r);
    }
    assert(prev.bullet.wall_bounces_left > 0);
}

/// Armour gate: while an enemy's armour holds, no fact lowers its health;
/// the armour absorbs the hit instead.
pub proof fn lemma_armour_gate(recs: Seq<BulletRecord>, ens: Seq<Enemy>, ev: CollisionStart, epoch: u32, j: int)
    requires
        0 <= j < ens.len(),
        ens[j].armour.hits_remaining > 0,
    ensures
        resolve_step(recs, ens, ev, epoch).1.len() == ens.len(),
        resolve_step(recs, ens, ev, epoch).1[j].health == ens[j].health,
{
}

/// The first contact after an enemy's armour is gone lowers its health by
/// exactly the projectile's damage and absorbs the projectile; while the
/// armour holds, a contact wears one hit and the projectile stays active.
pub proof fn lemma_enemy_contact(
    recs: Seq<BulletRecord>,
    ens: Seq<Enemy>,
    ev: CollisionStart,
    epoch: u32,
    i: int,
    j: usize,
)
    requires
        fresh_enemy_contact(recs, ens, ev, epoch, i, j),
    ensures
        ({
            let after = resolve_step(recs, ens, ev, epoch);
            &&& ens[j as int].armour.hits_remaining > 0 ==> {
                &&& after.1[j as int].armour.hits_remaining == ens[j as int].armour.hits_remaining - 1
                &&& after.1[j as int].health == ens[j as int].health
                &&& after.0[i].state == BulletState::Active
            }
            &&& ens[j as int].armour.hits_remaining == 0 ==> {
                &&& after.1[j as int].armour == ens[j as int].armour
                &&& after.0[i].state == BulletState::PendingReturn
                &&& (i32::MIN <= ens[j as int].health.hp - recs[i].bullet.damage <= i32::MAX ==> after.1[j as int].health.hp
                    == ens[j as int].health.hp - recs[i].bullet.damage)
            }
        }),
{
}

} // verus!
