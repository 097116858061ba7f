//! Serving the simulation's requests for shadow chunks.
//!
//! The active window is not consulted: a chunk inside it is read by the
//! simulation from the published world directly.
use vstd::prelude::*;
use crate::io::channels::ShadowLoadRequest;
use crate::queues::shadow_requests::{ShadowRequest, ShadowRequestBuffer, ShadowRequestKind};
use crate::voxel::shadow_pool::{ShadowPool, ShadowRequestResult, SHADOW_SLOT_COUNT,
    request_outcome, release_outcome, has_evictable, lru_slot};

verus! {

/// The load a request answered with `r` sends to the worker, if any.
pub open spec fn load_for(req: ShadowRequest, r: ShadowRequestResult) -> Option<ShadowLoadRequest> {
    match r {
        ShadowRequestResult::Queued(s) => Some(ShadowLoadRequest { slot: s, chunk_x: req.chunk_x, chunk_z: req.chunk_z }),
        _ => None,
    }
}

/// Appends `o` to `s` when it is present.
pub open spec fn push_some<A>(s: Seq<A>, o: Option<A>) -> Seq<A> {
    match o {
        Some(a) => s.push(a),
        None => s,
    }
}

/// Serving the requests `reqs` in order takes the pool `p0` to `p1`, sends
/// the loads `loads` and finds no room for the chunks `refused`, in order.
pub open spec fn requests_served(
    p0: ShadowPool,
    p1: ShadowPool,
    reqs: Seq<ShadowRequest>,
    loads: Seq<ShadowLoadRequest>,
    refused: Seq<(usize, usize)>,
) -> bool
    decreases reqs.len(),
{
    if reqs.len() == 0 {
        p1 == p0 && loads.len() == 0 && refused.len() == 0
    } else {
        let req = reqs.last();
        let cx = (req.chunk_x as i64) as int;
        let cz = (req.chunk_z as i64) as int;
        match req.kind {
            ShadowRequestKind::Request => exists|mid: ShadowPool, r: ShadowRequestResult|
                #![trigger request_outcome(mid, p1, cx, cz, r)]
                {
                    &&& request_outcome(mid, p1, cx, cz, r)
                    &&& match r {
                        ShadowRequestResult::Queued(s) => {
                            &&& loads.len() > 0
                            &&& loads.last() == (ShadowLoadRequest { slot: s, chunk_x: req.chunk_x, chunk_z: req.chunk_z })
                            &&& requests_served(p0, mid, reqs.drop_last(), loads.drop_last(), refused)
                        },
                        ShadowRequestResult::NotAvailable => {
                            &&& refused.len() > 0
                            &&& refused.last() == (req.chunk_x, req.chunk_z)
                            &&& requests_served(p0, mid, reqs.drop_last(), loads, refused.drop_last())
                        },
                        _ => requests_served(p0, mid, reqs.drop_last(), loads, refused),
                    }
                },
            ShadowRequestKind::Release => exists|mid: ShadowPool|
                #![trigger release_outcome(mid, p1, cx, cz)]
                {
                    &&& requests_served(p0, mid, reqs.drop_last(), loads, refused)
                    &&& release_outcome(mid, p1, cx, cz)
                },
        }
    }
}

/// One more request extends a serving run by the pool's answer to it.
proof fn lemma_served_request(
    p0: ShadowPool,
    mid: ShadowPool,
    p1: ShadowPool,
    reqs: Seq<ShadowRequest>,
    l: Seq<ShadowLoadRequest>,
    f: Seq<(usize, usize)>,
    r: ShadowRequestResult,
)
    requires
        reqs.len() > 0,
        reqs.last().kind == ShadowRequestKind::Request,
        requests_served(p0, mid, reqs.drop_last(), l, f),
        request_outcome(mid, p1, (reqs.last().chunk_x as i64) as int, (reqs.last().chunk_z as i64) as int, r),
    ensures
        requests_served(p0, p1, reqs, push_some(l, load_for(reqs.last(), r)),
            if r is NotAvailable { f.push((reqs.last().chunk_x, reqs.last().chunk_z)) } else { f }),
{
    let req = reqs.last();
    match r {
        ShadowRequestResult::Queued(s) => {
            let load = ShadowLoadRequest { slot: s, chunk_x: req.chunk_x, chunk_z: req.chunk_z };
            assert(l.push(load).drop_last() =~= l);
        },
        ShadowRequestResult::NotAvailable => {
            assert(f.push((req.chunk_x, req.chunk_z)).drop_last() =~= f);
        },
        _ => {},
    }
}

/// One more release extends a serving run by its effect on the pool.
proof fn lemma_served_release(
    p0: ShadowPool,
    mid: ShadowPool,
    p1: ShadowPool,
    reqs: Seq<ShadowRequest>,
    l: Seq<ShadowLoadRequest>,
    f: Seq<(usize, usize)>,
)
    requires
        reqs.len() > 0,
        reqs.last().kind == ShadowRequestKind::Release,
        requests_served(p0, mid, reqs.drop_last(), l, f),
        release_outcome(mid, p1, (reqs.last().chunk_x as i64) as int, (reqs.last().chunk_z as i64) as int),
    ensures
        requests_served(p0, p1, reqs, l, f),
{
}

/// The request `req` would find its chunk in the pool `p` with a reference
/// count already at the largest `u32`, which one more reference overflows.
pub open spec fn count_at_max(p: ShadowPool, req: ShadowRequest) -> bool {
    let key = p.chunk_key((req.chunk_x as i64) as int, (req.chunk_z as i64) as int);
    p.slot_map@.contains_key(key) && p.meta@[p.slot_map@[key] as int].ref_count >= u32::MAX
}

/// Serving the requests `reqs` in order from the pool `p0`, no request
/// finds its chunk with a reference count at the largest `u32`.
pub open spec fn serving_keeps_counts(p0: ShadowPool, reqs: Seq<ShadowRequest>) -> bool {
    forall|k: int, mid: ShadowPool, l: Seq<ShadowLoadRequest>, f: Seq<(usize, usize)>|
        #![trigger requests_served(p0, mid, reqs.subrange(0, k), l, f)]
        0 <= k < reqs.len() && reqs[k].kind == ShadowRequestKind::Request
            && requests_served(p0, mid, reqs.subrange(0, k), l, f)
            ==> !count_at_max(mid, reqs[k])
}

/// The pool has one metadata entry per slot, and the map and the free list
/// name only slots.
pub open spec fn slots_bounded(p: ShadowPool) -> bool {
    &&& p.meta@.len() == SHADOW_SLOT_COUNT
    &&& forall|k: (i64, i64)| #[trigger] p.slot_map@.contains_key(k) ==> p.slot_map@[k] < SHADOW_SLOT_COUNT
    &&& forall|i: int| 0 <= i < p.free_slots@.len() ==> #[trigger] p.free_slots@[i] < SHADOW_SLOT_COUNT
}

/// Serving requests raises a slot's reference count by at most one per
/// request, and keeps slot indices in range.
proof fn lemma_served_counts(
    p0: ShadowPool,
    mid: ShadowPool,
    reqs: Seq<ShadowRequest>,
    l: Seq<ShadowLoadRequest>,
    f: Seq<(usize, usize)>,
    n: int,
)
    requires
        slots_bounded(p0),
        reqs.len() <= n,
        forall|s: int| 0 <= s < SHADOW_SLOT_COUNT ==> #[trigger] p0.meta@[s].ref_count + n < u32::MAX,
        requests_served(p0, mid, reqs, l, f),
    ensures
        slots_bounded(mid),
        forall|s: int| 0 <= s < SHADOW_SLOT_COUNT ==> #[trigger] mid.meta@[s].ref_count + (n - reqs.len()) < u32::MAX,
    decreases reqs.len(),
{
    if reqs.len() > 0 {
        let req = reqs.last();
        let cx = (req.chunk_x as i64) as int;
        let cz = (req.chunk_z as i64) as int;
        let rest = n - reqs.len();
        match req.kind {
            ShadowRequestKind::Request => {
                let (prev, r) = choose|prev: ShadowPool, r: ShadowRequestResult| {
                    &&& #[trigger] request_outcome(prev, mid, cx, cz, r)
                    &&& match r {
                        ShadowRequestResult::Queued(s) => {
                            &&& l.len() > 0
                            &&& l.last() == (ShadowLoadRequest { slot: s, chunk_x: req.chunk_x, chunk_z: req.chunk_z })
                            &&& requests_served(p0, prev, reqs.drop_last(), l.drop_last(), f)
                        },
                        ShadowRequestResult::NotAvailable => {
                            &&& f.len() > 0
                            &&& f.last() == (req.chunk_x, req.chunk_z)
                            &&& requests_served(p0, prev, reqs.drop_last(), l, f.drop_last())
                        },
                        _ => requests_served(p0, prev, reqs.drop_last(), l, f),
                    }
                };
                match r {
                    ShadowRequestResult::Queued(_) => lemma_served_counts(p0, prev, reqs.drop_last(), l.drop_last(), f, n),
                    ShadowRequestResult::NotAvailable => lemma_served_counts(p0, prev, reqs.drop_last(), l, f.drop_last(), n),
                    _ => lemma_served_counts(p0, prev, reqs.drop_last(), l, f, n),
                }
                let key = prev.chunk_key(cx, cz);
                assert(prev.meta@[0].ref_count + (rest + 1) < u32::MAX);
                if prev.slot_map@.contains_key(key) {
                    let t = prev.slot_map@[key] as int;
                    assert(0 <= t < SHADOW_SLOT_COUNT);
                    assert forall|s: int| 0 <= s < SHADOW_SLOT_COUNT implies
                        #[trigger] mid.meta@[s].ref_count + rest < u32::MAX by {
                        assert(prev.meta@[s].ref_count + (rest + 1) < u32::MAX);
                    }
                } else if prev.free_slots@.len() > 0 {
                    let t = prev.free_slots@.last() as int;
                    assert(prev.free_slots@[prev.free_slots@.len() - 1] < SHADOW_SLOT_COUNT);
                    assert forall|k: (i64, i64)| #[trigger] mid.slot_map@.contains_key(k) implies mid.slot_map@[k] < SHADOW_SLOT_COUNT by {
                        if k != key {
                            assert(prev.slot_map@.contains_key(k));
                        }
                    }
                    assert forall|i: int| 0 <= i < mid.free_slots@.len() implies #[trigger] mid.free_slots@[i] < SHADOW_SLOT_COUNT by {
                        assert(mid.free_slots@[i] == prev.free_slots@[i]);
                    }
                    assert forall|s: int| 0 <= s < SHADOW_SLOT_COUNT implies
                        #[trigger] mid.meta@[s].ref_count + rest < u32::MAX by {
                        assert(prev.meta@[s].ref_count + (rest + 1) < u32::MAX);
                    }
                } else if has_evictable(prev.meta@) {
                    let t = lru_slot(prev.meta@);
                    assert forall|k: (i64, i64)| #[trigger] mid.slot_map@.contains_key(k) implies mid.slot_map@[k] < SHADOW_SLOT_COUNT by {
                        if k != key {
                            assert(prev.slot_map@.contains_key(k));
                        }
                    }
                    assert forall|s: int| 0 <= s < SHADOW_SLOT_COUNT implies
                        #[trigger] mid.meta@[s].ref_count + rest < u32::MAX by {
                        assert(prev.meta@[s].ref_count + (rest + 1) < u32::MAX);
                    }
                } else {
                    assert forall|s: int| 0 <= s < SHADOW_SLOT_COUNT implies
                        #[trigger] mid.meta@[s].ref_count + rest < u32::MAX by {
                        assert(prev.meta@[s].ref_count + (rest + 1) < u32::MAX);
                    }
                }
            },
            ShadowRequestKind::Release => {
                let prev = choose|prev: ShadowPool| {
                    &&& requests_served(p0, prev, reqs.drop_last(), l, f)
                    &&& #[trigger] release_outcome(prev, mid, cx, cz)
                };
                lemma_served_counts(p0, prev, reqs.drop_last(), l, f, n);
                let key = prev.chunk_key(cx, cz);
                assert forall|s: int| 0 <= s < SHADOW_SLOT_COUNT implies
                    #[trigger] mid.meta@[s].ref_count + rest < u32::MAX by {
                    assert(prev.meta@[s].ref_count + (rest + 1) < u32::MAX);
                }
            },
        }
    }
}

/// When every slot's reference count plus the number of buffered requests
/// stays below the largest `u32`, serving the requests never finds a count
/// at the largest `u32`.
pub proof fn lemma_bounded_counts_are_kept(p0: ShadowPool, reqs: Seq<ShadowRequest>)
    requires
        p0.wf(),
        forall|s: int| 0 <= s < SHADOW_SLOT_COUNT ==> #[trigger] p0.meta@[s].ref_count + reqs.len() < u32::MAX,
    ensures
        serving_keeps_counts(p0, reqs),
{
    assert(p0.slot_map.values_below(SHADOW_SLOT_COUNT as int));
    assert forall|k: int, mid: ShadowPool, l: Seq<ShadowLoadRequest>, f: Seq<(usize, usize)>|
        0 <= k < reqs.len() && reqs[k].kind == ShadowRequestKind::Request
            && #[trigger] requests_served(p0, mid, reqs.subrange(0, k), l, f)
        implies !count_at_max(mid, reqs[k]) by {
        lemma_served_counts(p0, mid, reqs.subrange(0, k), l, f, reqs.len() as int);
        let req = reqs[k];
        let key = mid.chunk_key((req.chunk_x as i64) as int, (req.chunk_z as i64) as int);
        if mid.slot_map@.contains_key(key) {
            let t = mid.slot_map@[key] as int;
            assert(mid.meta@[t].ref_count + (reqs.len() - k) < u32::MAX);
        }
    }
}

/// Serves every buffered shadow request, oldest first: a request asks the
/// shadow pool for its chunk, and each one that is queued for loading gives
/// a load for the worker; a release drops one reference to its chunk.
/// Returns the loads to send and the chunks for which the pool had no room,
/// both in request order.
pub fn process_shadow_requests(buffer: &mut ShadowRequestBuffer, shadow_pool: &mut ShadowPool)
    -> (r: (Vec<ShadowLoadRequest>, Vec<(usize, usize)>))
    requires
        old(shadow_pool).wf(),
        old(shadow_pool).topology.valid(),
        serving_keeps_counts(*old(shadow_pool), old(buffer)@),
    ensures
        final(buffer)@ == Seq::<ShadowRequest>::empty(),
        final(shadow_pool).wf(),
        final(shadow_pool).topology == old(shadow_pool).topology,
        final(shadow_pool).frame_counter == old(shadow_pool).frame_counter,
        requests_served(*old(shadow_pool), *final(shadow_pool), old(buffer)@, r.0@, r.1@),
{
    let requests = buffer.drain();
    let ghost p0 = *shadow_pool;
    let mut loads: Vec<ShadowLoadRequest> = Vec::new();
    let mut refused: Vec<(usize, usize)> = Vec::new();
    let mut i: usize = 0;
    while i < requests.len()
        invariant
            0 <= i <= requests@.len(),
            requests@ == old(buffer)@,
            p0 == *old(shadow_pool),
            shadow_pool.wf(),
            shadow_pool.topology == p0.topology,
            shadow_pool.frame_counter == p0.frame_counter,
            p0.topology.valid(),
            serving_keeps_counts(p0, requests@),
            requests_served(p0, *shadow_pool, requests@.subrange(0, i as int), loads@, refused@),
        decreases requests@.len() - i,
    {
        let req = requests[i];
        let ghost mid = *shadow_pool;
        let ghost l0 = loads@;
        let ghost f0 = refused@;
        let chunk_x = #[verifier::truncate] (req.chunk_x as i64);
        let chunk_z = #[verifier::truncate] (req.chunk_z as i64);
        proof {
            assert(requests@.subrange(0, i + 1).drop_last() =~= requests@.subrange(0, i as int));
        }
        match req.kind {
            ShadowRequestKind::Request => {
                proof {
                    assert(requests_served(p0, mid, requests@.subrange(0, i as int), l0, f0));
                    assert(requests@[i as int] == req);
                    assert(!count_at_max(mid, req));
                }
                let result = shadow_pool.request_chunk(chunk_x, chunk_z);
                match result {
                    ShadowRequestResult::Queued(slot) => {
                        loads.push(ShadowLoadRequest { slot, chunk_x: req.chunk_x, chunk_z: req.chunk_z });
                    },
                    ShadowRequestResult::NotAvailable => {
                        refused.push((req.chunk_x, req.chunk_z));
                    },
                    _ => {},
                }
                proof {
                    let sub = requests@.subrange(0, i + 1);
                    assert(sub.last() == req);
                    assert(request_outcome(mid, *shadow_pool, chunk_x as int, chunk_z as int, result));
                    assert(requests_served(p0, mid, sub.drop_last(), l0, f0));
                    assert(loads@ =~= push_some(l0, load_for(req, result)));
                    assert(refused@ =~= (if result is NotAvailable { f0.push((req.chunk_x, req.chunk_z)) } else { f0 }));
                    lemma_served_request(p0, mid, *shadow_pool, sub, l0, f0, result);
                }
            },
            ShadowRequestKind::Release => {
                shadow_pool.release_chunk(chunk_x, chunk_z);
                proof {
                    let sub = requests@.subrange(0, i + 1);
                    assert(sub.last() == req);
                    assert(release_outcome(mid, *shadow_pool, chunk_x as int, chunk_z as int));
                    assert(requests_served(p0, mid, sub.drop_last(), l0, f0));
                    lemma_served_release(p0, mid, *shadow_pool, sub, l0, f0);
                }
            },
        }
        i = i + 1;
    }
    proof {
        assert(requests@.subrange(0, requests@.len() as int) =~= requests@);
    }
    (loads, refused)
}

} // verus!
