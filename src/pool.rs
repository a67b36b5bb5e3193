//! The projectile pool: a fixed arena of records plus a stack of free slots.
//! Storage is allocated once, by `init_bullet_pool`; play only moves records
//! between states and slots between the free stack and play.
use vstd::prelude::*;
use vstd::set_lib::{lemma_int_range, set_int_range, lemma_set_disjoint_lens};
use crate::components::{Bullet, BulletEntity, BulletState, CollisionStamp, Vec2i, DEFAULT_WALL_BOUNCES};
use crate::layers::{
    CollisionLayers, active_player_layers, active_player_layers_spec, inactive_bullet_layers,
    inactive_bullet_layers_spec,
};

verus! {

/// Everything a pool slot holds.
#[derive(Clone, Copy, Debug, PartialEq, Eq, Structural)]
pub struct BulletRecord {
    pub state: BulletState,
    pub bullet: Bullet,
    pub pos: Vec2i,
    pub vel: Vec2i,
    pub visible: bool,
    pub layers: CollisionLayers,
    pub stamp: CollisionStamp,
}

/// A record at rest in the pool: hidden, still, colliding with nothing.
pub open spec fn is_resting(r: BulletRecord) -> bool {
    &&& r.state == BulletState::Inactive
    &&& !r.visible
    &&& r.vel == Vec2i { x: 0, y: 0 }
    &&& r.layers == inactive_bullet_layers_spec()
}

/// A record brought into play with the given layers and shot.
pub open spec fn activated(
    r: BulletRecord,
    layers: CollisionLayers,
    pos: Vec2i,
    vel: Vec2i,
    damage: i32,
) -> BulletRecord {
    BulletRecord {
        state: BulletState::Active,
        bullet: Bullet { damage, wall_bounces_left: DEFAULT_WALL_BOUNCES },
        pos,
        vel,
        visible: true,
        layers,
        stamp: r.stamp,
    }
}

/// A record put back to rest; position, damage and stamp are kept.
pub open spec fn deactivated(r: BulletRecord) -> BulletRecord {
    BulletRecord {
        state: BulletState::Inactive,
        vel: Vec2i { x: 0, y: 0 },
        visible: false,
        layers: inactive_bullet_layers_spec(),
        ..r
    }
}

/// The record each slot holds when the pool is created.
pub open spec fn fresh_record() -> BulletRecord {
    BulletRecord {
        state: BulletState::Inactive,
        bullet: Bullet { damage: 1, wall_bounces_left: DEFAULT_WALL_BOUNCES },
        pos: Vec2i { x: 0, y: 0 },
        vel: Vec2i { x: 0, y: 0 },
        visible: false,
        layers: inactive_bullet_layers_spec(),
        stamp: CollisionStamp { last_epoch: 0 },
    }
}

/// The slots among the first `n` whose record waits for the return commit,
/// in increasing order.
pub open spec fn pending_slots(recs: Seq<BulletRecord>, n: int) -> Seq<usize>
    decreases n,
{
    if n <= 0 {
        Seq::empty()
    } else if recs[n - 1].state == BulletState::PendingReturn {
        pending_slots(recs, n - 1).push((n - 1) as usize)
    } else {
        pending_slots(recs, n - 1)
    }
}

/// The fixed-capacity pool of projectile records.
#[derive(Debug)]
pub struct BulletPool {
    pub records: Vec<BulletRecord>,
    pub free: Vec<usize>,
    pub capacity: usize,
}

impl BulletPool {
    /// A pool of `capacity` slots whose storage is not allocated yet.
    pub fn new(capacity: usize) -> (r: BulletPool)
        ensures
            r.capacity == capacity,
            r.records@.len() == 0,
            r.free@.len() == 0,
    {
        BulletPool { records: Vec::new(), free: Vec::with_capacity(capacity), capacity }
    }

    /// The pool invariant: one record per slot; the free stack holds each
    /// slot at most once, and exactly the slots whose record is Inactive;
    /// every Inactive record is at rest.
    pub open spec fn wf(&self) -> bool {
        &&& self.records@.len() == self.capacity
        &&& self.free@.no_duplicates()
        &&& forall|k: int| 0 <= k < self.free@.len() ==> #[trigger] self.free@[k] < self.capacity
        &&& forall|i: usize|
            i < self.capacity ==> (#[trigger] self.free@.contains(i) <==> self.records@[i as int].state
                == BulletState::Inactive)
        &&& forall|i: int|
            0 <= i < self.capacity && #[trigger] self.records@[i].state == BulletState::Inactive
                ==> is_resting(self.records@[i])
    }

    /// The slots in play: those whose record is not Inactive.
    pub open spec fn in_play(&self) -> Set<int> {
        Set::new(|i: int| 0 <= i < self.capacity && self.records@[i].state != BulletState::Inactive)
    }

    /// The slots whose record is Inactive.
    pub open spec fn resting_slots(&self) -> Set<int> {
        Set::new(|i: int| 0 <= i < self.capacity && self.records@[i].state == BulletState::Inactive)
    }

    /// Take a free slot off the stack, if any.
    pub fn pop_free(&mut self) -> (r: Option<BulletEntity>)
        requires
            old(self).wf(),
        ensures
            final(self).records@ == old(self).records@,
            final(self).capacity == old(self).capacity,
            old(self).free@.len() == 0 ==> r.is_none() && final(self).free@ == old(self).free@,
            old(self).free@.len() > 0 ==> r == Some(BulletEntity(old(self).free@.last()))
                && final(self).free@ == old(self).free@.drop_last(),
    {
        match self.free.pop() {
            Some(i) => Some(BulletEntity(i)),
            None => None,
        }
    }
}

/// Allocate the pool's storage: `capacity` records at rest and a free stack
/// holding every slot. Nothing is allocated after this.
pub fn init_bullet_pool(pool: &mut BulletPool)
    ensures
        final(pool).wf(),
        final(pool).capacity == old(pool).capacity,
        final(pool).free@.len() == old(pool).capacity,
        forall|i: int| 0 <= i < old(pool).capacity ==> #[trigger] final(pool).records@[i] == fresh_record(),
        forall|k: int| 0 <= k < old(pool).capacity ==> #[trigger] final(pool).free@[k] == k,
{
    let cap = pool.capacity;
    let mut records: Vec<BulletRecord> = Vec::with_capacity(cap);
    let mut free: Vec<usize> = Vec::with_capacity(cap);
    let fresh = BulletRecord {
        state: BulletState::Inactive,
        bullet: Bullet::activate(1),
        pos: Vec2i::zero(),
        vel: Vec2i::zero(),
        visible: false,
        layers: inactive_bullet_layers(),
        stamp: CollisionStamp { last_epoch: 0 },
    };
    let mut i: usize = 0;
    while i < cap
        invariant
            i <= cap,
            records@.len() == i,
            free@.len() == i,
            forall|j: int| 0 <= j < i ==> #[trigger] records@[j] == fresh_record(),
            forall|k: int| 0 <= k < i ==> #[trigger] free@[k] == k,
            fresh == fresh_record(),
        decreases cap - i,
    {
        records.push(fresh);
        free.push(i);
        i = i + 1;
    }
    pool.records = records;
    pool.free = free;
    proof {
        let p = *pool;
        assert forall|a: int, b: int| 0 <= a < p.free@.len() && 0 <= b < p.free@.len() && a != b
            implies p.free@[a] != p.free@[b] by {}
        assert forall|s: usize| s < p.capacity implies (#[trigger] p.free@.contains(s)
            <==> p.records@[s as int].state == BulletState::Inactive) by {
            assert(p.free@[s as int] == s);
        }
    }
}

/// Bring a free slot into play as a player projectile at `pos`, moving at
/// `vel`, dealing `damage`; none when the pool is exhausted.
pub fn acquire_bullet(pool: &mut BulletPool, pos: Vec2i, vel: Vec2i, damage: i32) -> (r: Option<BulletEntity>)
    requires
        old(pool).wf(),
    ensures
        final(pool).wf(),
        final(pool).capacity == old(pool).capacity,
        old(pool).free@.len() == 0 ==> r.is_none() && final(pool).records@ == old(pool).records@
            && final(pool).free@ == old(pool).free@,
        old(pool).free@.len() > 0 ==> {
            let h = old(pool).free@.last();
            &&& r == Some(BulletEntity(h))
            &&& final(pool).free@ == old(pool).free@.drop_last()
            &&& final(pool).records@ == old(pool).records@.update(
                h as int,
                activated(old(pool).records@[h as int], active_player_layers_spec(), pos, vel, damage),
            )
        },
{
    let layers = active_player_layers();
    activate_slot(pool, layers, pos, vel, damage)
}

/// Pop a free slot and activate its record with the given layers and shot.
pub(crate) fn activate_slot(
    pool: &mut BulletPool,
    layers: CollisionLayers,
    pos: Vec2i,
    vel: Vec2i,
    damage: i32,
) -> (r: Option<BulletEntity>)
    requires
        old(pool).wf(),
    ensures
        final(pool).wf(),
        final(pool).capacity == old(pool).capacity,
        old(pool).free@.len() == 0 ==> r.is_none() && final(pool).records@ == old(pool).records@
            && final(pool).free@ == old(pool).free@,
        old(pool).free@.len() > 0 ==> {
            let h = old(pool).free@.last();
            &&& r == Some(BulletEntity(h))
            &&& final(pool).free@ == old(pool).free@.drop_last()
            &&& final(pool).records@ == old(pool).records@.update(
                h as int,
                activated(old(pool).records@[h as int], layers, pos, vel, damage),
            )
        },
{
    let ghost old_free = pool.free@;
    match pool.pop_free() {
        None => None,
        Some(BulletEntity(h)) => {
            proof {
                assert(old_free.contains(h));
                assert(h < pool.capacity);
            }
            let old_rec = pool.records[h];
            let rec = BulletRecord {
                state: BulletState::Active,
                bullet: Bullet::activate(damage),
                pos,
                vel,
                visible: true,
                layers,
                stamp: old_rec.stamp,
            };
            pool.records.set(h, rec);
            proof {
                let p = *pool;
                assert(old_free.no_duplicates());
                assert forall|s: usize| s < p.capacity implies (#[trigger] p.free@.contains(s)
                    <==> p.records@[s as int].state == BulletState::Inactive) by {
                    if s == h {
                        if p.free@.contains(s) {
                            let k = choose|k: int| 0 <= k < p.free@.len() && p.free@[k] == s;
                            assert(old_free[k] == old_free[old_free.len() - 1]);
                        }
                    } else {
                        if old_free.contains(s) {
                            let k = choose|k: int| 0 <= k < old_free.len() && old_free[k] == s;
                            assert(k != old_free.len() - 1);
                            assert(p.free@[k] == s);
                        }
                    }
                }
                assert forall|k: int| 0 <= k < p.free@.len() implies #[trigger] p.free@[k] < p.capacity by {
                    assert(p.free@[k] == old_free[k]);
                }
            }
            Some(BulletEntity(h))
        },
    }
}

/// Put every record that waits for return back to rest and push its slot
/// onto the free stack, in increasing slot order.
pub fn return_to_pool_commit(pool: &mut BulletPool)
    requires
        old(pool).wf(),
    ensures
        final(pool).wf(),
        final(pool).capacity == old(pool).capacity,
        final(pool).free@ == old(pool).free@ + pending_slots(old(pool).records@, old(pool).capacity as int),
        forall|i: int|
            0 <= i < old(pool).capacity ==> #[trigger] final(pool).records@[i] == if old(
                pool,
            ).records@[i].state == BulletState::PendingReturn {
                deactivated(old(pool).records@[i])
            } else {
                old(pool).records@[i]
            },
{
    let ghost old_recs = pool.records@;
    let ghost old_free = pool.free@;
    let n = pool.records.len();
    let rest = inactive_bullet_layers();
    proof {
        assert forall|k: int| 0 <= k < old_free.len() implies #[trigger] old_recs[old_free[k] as int].state
            == BulletState::Inactive by {
            assert(old_free.contains(old_free[k]));
        }
    }
    let mut i: usize = 0;
    while i < n
        invariant
            n == pool.capacity,
            n == old_recs.len(),
            pool.wf(),
            i <= n,
            rest == inactive_bullet_layers_spec(),
            pool.free@ == old_free + pending_slots(old_recs, i as int),
            forall|k: int| old_free.len() <= k < pool.free@.len() ==> #[trigger] pool.free@[k] < i,
            forall|k: int| 0 <= k < old_free.len() ==> #[trigger] old_recs[old_free[k] as int].state
                == BulletState::Inactive,
            forall|j: int|
                0 <= j < n ==> #[trigger] pool.records@[j] == if j < i && old_recs[j].state
                    == BulletState::PendingReturn {
                    deactivated(old_recs[j])
                } else {
                    old_recs[j]
                },
        decreases n - i,
    {
        let rec = pool.records[i];
        if rec.state == BulletState::PendingReturn {
            let new_rec = BulletRecord {
                state: BulletState::Inactive,
                vel: Vec2i::zero(),
                visible: false,
                layers: rest,
                ..rec
            };
            let ghost before_free = pool.free@;
            proof {
                assert(!before_free.contains(i)) by {
                    if before_free.contains(i) {
                        let k = choose|k: int| 0 <= k < before_free.len() && before_free[k] == i;
                        if k < old_free.len() {
                            assert(old_free[k] == i);
                        }
                    }
                }
            }
            pool.records.set(i, new_rec);
            pool.free.push(i);
            proof {
                let p = *pool;
                assert(p.free@ == before_free.push(i));
                assert forall|s: usize| s < p.capacity implies (#[trigger] p.free@.contains(s)
                    <==> p.records@[s as int].state == BulletState::Inactive) by {
                    if s != i {
                        if p.free@.contains(s) {
                            let k = choose|k: int| 0 <= k < p.free@.len() && p.free@[k] == s;
                            assert(before_free[k] == s);
                        }
                        if before_free.contains(s) {
                            let k = choose|k: int| 0 <= k < before_free.len() && before_free[k] == s;
                            assert(p.free@[k] == s);
                        }
                    } else {
                        assert(p.free@[p.free@.len() - 1] == s);
                    }
                }
                assert forall|a: int, b: int| 0 <= a < p.free@.len() && 0 <= b < p.free@.len() && a != b
                    implies p.free@[a] != p.free@[b] by {
                    if a == p.free@.len() - 1 {
                        assert(!before_free.contains(i));
                        assert(before_free[b] == p.free@[b]);
                    } else if b == p.free@.len() - 1 {
                        assert(before_free[a] == p.free@[a]);
                    }
                }
                assert(pending_slots(old_recs, i + 1) == pending_slots(old_recs, i as int).push(i));
            }
        } else {
            proof {
                assert(pending_slots(old_recs, i + 1) == pending_slots(old_recs, i as int));
            }
        }
        i = i + 1;
    }
}

/// Pool partition: at every moment the free slots and the slots in play
/// together account for the whole capacity, and every free slot's record
/// is Inactive.
pub proof fn lemma_pool_partition(pool: &BulletPool)
    requires
        pool.wf(),
    ensures
        pool.free@.len() + pool.in_play().len() == pool.capacity,
        forall|k: int| 0 <= k < pool.free@.len() ==> #[trigger] pool.records@[pool.free@[k] as int].state
            == BulletState::Inactive,
{
    let cap = pool.capacity as int;
    let free_ints = pool.free@.map_values(|h: usize| h as int);
    assert(free_ints.no_duplicates()) by {
        assert forall|a: int, b: int| 0 <= a < free_ints.len() && 0 <= b < free_ints.len() && a != b
            implies free_ints[a] != free_ints[b] by {
            assert(pool.free@[a] != pool.free@[b]);
        }
    }
    free_ints.unique_seq_to_set();
    assert(free_ints.to_set() =~= pool.resting_slots()) by {
        assert forall|i: int| pool.resting_slots().contains(i) implies free_ints.to_set().contains(i) by {
            assert(pool.free@.contains(i as usize));
            let k = choose|k: int| 0 <= k < pool.free@.len() && pool.free@[k] == i as usize;
            assert(free_ints[k] == i);
        }
        assert forall|i: int| free_ints.to_set().contains(i) implies pool.resting_slots().contains(i) by {
            let k = choose|k: int| 0 <= k < free_ints.len() && free_ints[k] == i;
            assert(pool.free@[k] < pool.capacity);
            assert(pool.free@.contains(pool.free@[k]));
        }
    }
    lemma_int_range(0, cap);
    assert(pool.resting_slots() + pool.in_play() =~= set_int_range(0, cap));
    assert(pool.resting_slots().subset_of(set_int_range(0, cap)));
    assert(pool.in_play().subset_of(set_int_range(0, cap)));
    vstd::set_lib::lemma_len_subset(pool.resting_slots(), set_int_range(0, cap));
    vstd::set_lib::lemma_len_subset(pool.in_play(), set_int_range(0, cap));
    assert(pool.resting_slots().disjoint(pool.in_play()));
    lemma_set_disjoint_lens(pool.resting_slots(), pool.in_play());
    assert forall|k: int| 0 <= k < pool.free@.len() implies #[trigger] pool.records@[pool.free@[k] as int].state
        == BulletState::Inactive by {
        assert(pool.free@.contains(pool.free@[k]));
    }
}

} // verus!
