//! The spawn consumer: turns queued spawn intents into active pool records.
use vstd::prelude::*;
use crate::messages::{SpawnBulletRequest, kind_layers};
use crate::pool::{BulletPool, activate_slot, activated};

verus! {

/// How many of `n` requests a pool with `free` free slots serves.
pub open spec fn served(n: int, free: int) -> int {
    if n < free {
        n
    } else {
        free
    }
}

/// The record that request `q` makes of record `r`.
pub open spec fn fulfilled(r: crate::pool::BulletRecord, q: SpawnBulletRequest) -> crate::pool::BulletRecord {
    activated(r, kind_layers(q.kind), q.pos, q.vel, q.damage)
}

/// Serve the requests in order, each from the top of the free stack; once
/// the pool is exhausted the remaining requests are dropped.
pub fn allocate_bullets_from_pool(pool: &mut BulletPool, requests: &Vec<SpawnBulletRequest>)
    requires
        old(pool).wf(),
    ensures
        final(pool).wf(),
        final(pool).capacity == old(pool).capacity,
        ({
            let m = old(pool).free@.len() as int;
            let k = served(requests@.len() as int, m);
            &&& final(pool).free@ == old(pool).free@.subrange(0, m - k)
            &&& forall|j: int|
                0 <= j < k ==> #[trigger] final(pool).records@[old(pool).free@[m - 1 - j] as int]
                    == fulfilled(old(pool).records@[old(pool).free@[m - 1 - j] as int], requests@[j])
            &&& forall|s: int|
                0 <= s < old(pool).capacity && !old(pool).free@.subrange(m - k, m).contains(s as usize)
                    ==> #[trigger] final(pool).records@[s] == old(pool).records@[s]
        }),
{
    let ghost old_free = pool.free@;
    let ghost old_recs = pool.records@;
    let ghost m = old_free.len() as int;
    let n = requests.len();
    let mut i: usize = 0;
    while i < n
        invariant
            n == requests@.len(),
            i <= n,
            pool.wf(),
            pool.capacity == old_recs.len(),
            old_free.no_duplicates(),
            m == old_free.len(),
            forall|k: int| 0 <= k < m ==> #[trigger] old_free[k] < pool.capacity,
            pool.free@ == old_free.subrange(0, m - served(i as int, m)),
            forall|j: int|
                0 <= j < served(i as int, m) ==> #[trigger] pool.records@[old_free[m - 1 - j] as int]
                    == fulfilled(old_recs[old_free[m - 1 - j] as int], requests@[j]),
            forall|s: int|
                0 <= s < pool.capacity && !old_free.subrange(m - served(i as int, m), m).contains(s as usize)
                    ==> #[trigger] pool.records@[s] == old_recs[s],
        decreases n - i,
    {
        let req = requests[i];
        let layers = req.kind.active_layers();
        let ghost before = pool.records@;
        let ghost before_free = pool.free@;
        let r = activate_slot(pool, layers, req.pos, req.vel, req.damage);
        proof {
            if i < m {
                let h = old_free[m - 1 - i];
                assert(before_free.last() == h);
                assert(pool.free@ =~= old_free.subrange(0, m - served(i + 1, m)));
                assert forall|j: int| 0 <= j < served(i + 1, m) implies #[trigger] pool.records@[old_free[m
                    - 1 - j] as int] == fulfilled(old_recs[old_free[m - 1 - j] as int], requests@[j]) by {
                    if j < i {
                        assert(old_free[m - 1 - j] != h);
                    } else {
                        let sub = old_free.subrange(m - served(i as int, m), m);
                        assert(!sub.contains(h)) by {
                            if sub.contains(h) {
                                let q = choose|q: int| 0 <= q < sub.len() && #[trigger] sub[q] == h;
                                assert(old_free[m - i + q] == h);
                            }
                        }
                    }
                }
                assert forall|s: int|
                    0 <= s < pool.capacity && !old_free.subrange(m - served(i + 1, m), m).contains(s as usize)
                        implies #[trigger] pool.records@[s] == old_recs[s] by {
                    assert(old_free.subrange(m - served(i + 1, m), m)[0] == h);
                    assert(s != h as int);
                    let sub = old_free.subrange(m - served(i as int, m), m);
                    if sub.contains(s as usize) {
                        let q = choose|q: int| 0 <= q < sub.len() && #[trigger] sub[q] == s as usize;
                        assert(old_free.subrange(m - served(i + 1, m), m)[q + 1] == s as usize);
                    }
                }
            } else {
                assert(served(i + 1, m) == served(i as int, m));
                assert(before_free.len() == 0);
            }
        }
        i = i + 1;
    }
}

} // verus!
