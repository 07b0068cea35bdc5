//! Laws of the simulation core, proved once and for all over the spec
//! functions that the executable pipeline is verified against.

use vstd::prelude::*;

use crate::classifier::{
    classify_all_spec, classify_spec, lemma_classified_requests, CollisionPair, DamageRequest,
};
use crate::damage::{
    apply_damage_all_spec, apply_damage_spec, health_after, lemma_damage_step_wf, FractureRequest,
};
use crate::entity::{
    all_alive, ent, has_id, health_of, idx_of, is_destructible_id, is_projectile_id, lemma_idx_of,
    lemma_idx_of_unique, wf_state, Entity, EntityKind,
};
use crate::fracture::{
    degenerate, fracture_all_spec, fracture_spec, fragment_extent, lemma_fracture_wf,
};
use crate::geometry::Vec2;
use crate::pipeline::tick_spec;
use crate::sweeper::{lemma_sweep_elements, lemma_sweep_wf, sweep_spec};
use crate::{DAMAGE_PER_HIT, MAX_EXTENT};

verus! {

/// Sum of the damage amounts of a request sequence.
pub open spec fn total_damage(reqs: Seq<DamageRequest>) -> int
    decreases reqs.len(),
{
    if reqs.len() == 0 {
        0
    } else {
        total_damage(reqs.drop_last()) + reqs.last().amount
    }
}

/// A request sequence of non-negative amounts has a non-negative total.
proof fn lemma_total_damage_nonneg(reqs: Seq<DamageRequest>)
    requires
        forall|k: int| 0 <= k < reqs.len() ==> (#[trigger] reqs[k]).amount >= 0,
    ensures
        total_damage(reqs) >= 0,
    decreases reqs.len(),
{
    if reqs.len() > 0 {
        lemma_total_damage_nonneg(reqs.drop_last());
    }
}

/// Some request of the sequence names this target.
pub open spec fn contains_target(frs: Seq<FractureRequest>, id: u64) -> bool {
    exists|k: int| 0 <= k < frs.len() && frs[k].target == id
}

/// Draining a damage queue of non-negative amounts preserves
/// well-formedness, presence and roles; and any destructible it leaves at
/// zero or below either started there or has a fracture request on the
/// emitted queue.
pub proof fn lemma_damage_all_wf(s: Seq<Entity>, next_id: u64, reqs: Seq<DamageRequest>)
    requires
        wf_state(s, next_id),
        forall|k: int| 0 <= k < reqs.len() ==> (#[trigger] reqs[k]).amount >= 0,
    ensures
        ({
            let (s1, frs) = apply_damage_all_spec(s, reqs);
            &&& wf_state(s1, next_id)
            &&& s1.len() == s.len()
            &&& forall|id: u64| has_id(s1, id) == has_id(s, id)
            &&& forall|id: u64| is_destructible_id(s1, id) == is_destructible_id(s, id)
            &&& forall|id: u64|
                is_destructible_id(s, id) && health_of(s1, id)->0 <= 0 ==> health_of(s, id)->0
                    <= 0 || contains_target(frs, id)
        }),
    decreases reqs.len(),
{
    if reqs.len() > 0 {
        lemma_damage_all_wf(s, next_id, reqs.drop_last());
        let (s1, frs1) = apply_damage_all_spec(s, reqs.drop_last());
        let r = reqs.last();
        let (s2, fr) = apply_damage_spec(s1, r.target, r.amount as int);
        let frs2 = apply_damage_all_spec(s, reqs).1;
        lemma_damage_step_wf(s1, r.target, r.amount as int, next_id);
        assert(forall|id: u64|
            contains_target(frs1, id) ==> #[trigger] contains_target(frs2, id)) by {
            assert(forall|k: int| 0 <= k < frs1.len() ==> frs2[k] == frs1[k]);
        }
        assert forall|id: u64|
            is_destructible_id(s, id) && health_of(s2, id)->0 <= 0 implies health_of(s, id)->0
            <= 0 || contains_target(frs2, id) by {
            if id == r.target && is_destructible_id(s1, id) {
                lemma_idx_of(s1, id);
                let h1 = health_of(s1, id)->0 as int;
                if health_after(h1, r.amount as int) <= 0 {
                    assert(fr == Some(FractureRequest { target: id }));
                    assert(frs2.last().target == id);
                } else {
                    assert(health_of(s2, id)->0 > 0);
                }
            }
        }
    }
}

/// Damage monotonicity: a sequence of non-negative damage amounts against
/// one destructible leaves it a destructible whose health has dropped by
/// exactly the total (saturating only far below zero), and never rises.
pub proof fn lemma_damage_monotonicity(
    s: Seq<Entity>,
    next_id: u64,
    target: u64,
    reqs: Seq<DamageRequest>,
)
    requires
        wf_state(s, next_id),
        is_destructible_id(s, target),
        forall|k: int|
            0 <= k < reqs.len() ==> (#[trigger] reqs[k]).target == target && reqs[k].amount >= 0,
    ensures
        ({
            let h = health_of(s, target)->0 as int;
            let s1 = apply_damage_all_spec(s, reqs).0;
            &&& is_destructible_id(s1, target)
            &&& health_of(s1, target)->0 as int == health_after(h, total_damage(reqs))
            &&& health_of(s1, target)->0 <= h
            &&& h - total_damage(reqs) >= i64::MIN ==> health_of(s1, target)->0 as int == h
                - total_damage(reqs)
        }),
    decreases reqs.len(),
{
    lemma_total_damage_nonneg(reqs);
    if reqs.len() > 0 {
        lemma_damage_monotonicity(s, next_id, target, reqs.drop_last());
        lemma_damage_all_wf(s, next_id, reqs.drop_last());
        let (s1, _) = apply_damage_all_spec(s, reqs.drop_last());
        let r = reqs.last();
        lemma_total_damage_nonneg(reqs.drop_last());
        lemma_damage_step_wf(s1, target, r.amount as int, next_id);
    }
}

/// Draining a fracture queue preserves well-formedness; a destructible that
/// survives it had no request on the queue, and kept its health.
pub proof fn lemma_fracture_all_wf(s: Seq<Entity>, next: u64, frs: Seq<FractureRequest>)
    requires
        wf_state(s, next),
    ensures
        ({
            let (s2, next2) = fracture_all_spec(s, next, frs);
            &&& wf_state(s2, next2)
            &&& next <= next2
            &&& forall|id: u64|
                #[trigger] is_destructible_id(s2, id) ==> is_destructible_id(s, id)
                    && !contains_target(frs, id) && health_of(s2, id) == health_of(s, id)
        }),
    decreases frs.len(),
{
    if frs.len() > 0 {
        lemma_fracture_all_wf(s, next, frs.drop_last());
        let (s1, next1) = fracture_all_spec(s, next, frs.drop_last());
        let t = frs.last().target;
        lemma_fracture_wf(s1, next1, t);
        let (s2, next2) = fracture_all_spec(s, next, frs);
        assert forall|id: u64| #[trigger] is_destructible_id(s2, id) implies is_destructible_id(
            s,
            id,
        ) && !contains_target(frs, id) && health_of(s2, id) == health_of(s, id) by {
            assert(id != t && is_destructible_id(s1, id));
            if contains_target(frs, id) {
                let k = choose|k: int| 0 <= k < frs.len() && frs[k].target == id;
                if k < frs.len() - 1 {
                    assert(frs.drop_last()[k].target == id);
                    assert(contains_target(frs.drop_last(), id));
                }
            }
        }
    }
}

/// A brick destroyed during a tick does not survive it: a tick of a
/// well-formed state whose destructibles are all alive yields a state whose
/// destructibles are again all alive — health crossing zero and removal
/// happen in the same tick.
pub proof fn lemma_tick_keeps_alive(
    s: Seq<Entity>,
    next: u64,
    evs: Seq<CollisionPair>,
    vps: Seq<Vec2>,
)
    requires
        wf_state(s, next),
        all_alive(s),
    ensures
        ({
            let (sr, nextr) = tick_spec(s, next, evs, vps);
            &&& wf_state(sr, nextr)
            &&& all_alive(sr)
        }),
{
    let dreqs = classify_all_spec(s, evs);
    lemma_classified_requests(s, evs);
    lemma_damage_all_wf(s, next, dreqs);
    let (s1, freqs) = apply_damage_all_spec(s, dreqs);
    lemma_fracture_all_wf(s1, next, freqs);
    let (s2, next2) = fracture_all_spec(s1, next, freqs);
    lemma_sweep_wf(s2, vps, next2);
    lemma_sweep_elements(s2, vps);
    let sr = sweep_spec(s2, vps);
    assert forall|i: int|
        0 <= i < s2.len() implies ((#[trigger] s2[i].kind) matches EntityKind::Destructible {
        health,
    } ==> health > 0) by {
        if s2[i].kind is Destructible {
            let id = s2[i].id;
            lemma_idx_of_unique(s2, id, i);
            assert(is_destructible_id(s2, id));
            assert(is_destructible_id(s1, id) && !contains_target(freqs, id) && health_of(s2, id)
                == health_of(s1, id));
            assert(is_destructible_id(s, id));
            assert(health_of(s, id)->0 > 0) by {
                lemma_idx_of(s, id);
                assert(s[idx_of(s, id)].kind matches EntityKind::Destructible { health }
                    ==> health > 0);
            }
            assert(health_of(s1, id)->0 > 0);
        }
    }
    assert forall|i: int|
        0 <= i < sr.len() implies ((#[trigger] sr[i].kind) matches EntityKind::Destructible {
        health,
    } ==> health > 0) by {
        assert(s2.contains(sr[i]));
        let m = choose|m: int| 0 <= m < s2.len() && s2[m] == sr[i];
        assert(s2[m].kind matches EntityKind::Destructible { health } ==> health > 0);
    }
}

/// Fracture conservation of count: destroying one destructible with
/// non-degenerate geometry removes it and appends exactly four fragments,
/// so the registry grows by three.
pub proof fn lemma_fracture_count(s: Seq<Entity>, next: u64, target: u64)
    requires
        wf_state(s, next),
        is_destructible_id(s, target),
        !degenerate(ent(s, target).size),
        next <= u64::MAX - 4,
    ensures
        ({
            let s2 = fracture_spec(s, next, target).0;
            &&& s2.len() == s.len() + 3
            &&& !has_id(s2, target)
            &&& forall|k: int| s.len() - 1 <= k < s2.len() ==> (#[trigger] s2[k]).kind is Fragment
            &&& forall|k: int|
                s.len() - 1 <= k < s2.len() ==> (#[trigger] s2[k]).size == fragment_extent(
                    ent(s, target).size,
                )
        }),
{
    lemma_idx_of(s, target);
    lemma_fracture_wf(s, next, target);
}

/// Area shrinkage: when the original extents are even, each fragment covers
/// exactly one quarter of the original footprint; the gap affects placement
/// only, not size.
pub proof fn lemma_fracture_area(size: Vec2)
    requires
        0 < size.x <= MAX_EXTENT,
        0 < size.y <= MAX_EXTENT,
        size.x % 2 == 0,
        size.y % 2 == 0,
    ensures
        4 * (fragment_extent(size).x * fragment_extent(size).y) == size.x * size.y,
{
    let hx = (size.x as int) / 2;
    let hy = (size.y as int) / 2;
    assert(size.x == 2 * hx && size.y == 2 * hy);
    assert(4 * (hx * hy) == (2 * hx) * (2 * hy)) by (nonlinear_arith);
}

/// Idempotent stale requests: a damage or fracture request against an
/// identifier not in the registry leaves the state untouched and produces
/// no event.
pub proof fn lemma_stale_request_noop(s: Seq<Entity>, next: u64, target: u64, amount: int)
    requires
        !has_id(s, target),
    ensures
        apply_damage_spec(s, target, amount) == (s, None::<FractureRequest>),
        fracture_spec(s, next, target) == (s, next),
{
    lemma_idx_of(s, target);
}

/// Classifier selectivity: a Started collision between exactly one
/// projectile and one destructible yields exactly one damage request, for
/// the fixed per-impact damage, against the destructible; every other pair
/// yields none, and Ended events yield none.
pub proof fn lemma_classifier_selectivity(s: Seq<Entity>, ev: CollisionPair)
    ensures
        ev.phase is Started && is_projectile_id(s, ev.a) && is_destructible_id(s, ev.b)
            ==> classify_spec(s, ev) == Some(
            DamageRequest { target: ev.b, amount: DAMAGE_PER_HIT },
        ),
        ev.phase is Started && is_projectile_id(s, ev.b) && is_destructible_id(s, ev.a)
            && !is_projectile_id(s, ev.a) ==> classify_spec(s, ev) == Some(
            DamageRequest { target: ev.a, amount: DAMAGE_PER_HIT },
        ),
        !is_projectile_id(s, ev.a) && !is_projectile_id(s, ev.b) ==> classify_spec(s, ev) is None,
        !is_destructible_id(s, ev.a) && !is_destructible_id(s, ev.b) ==> classify_spec(
            s,
            ev,
        ) is None,
        ev.phase is Ended ==> classify_spec(s, ev) is None,
{
}

} // verus!
