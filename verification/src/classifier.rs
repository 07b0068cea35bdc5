//! The collision classifier: turns raw collision events into damage
//! requests.
//!
//! A `Started` event between exactly one projectile and one destructible
//! yields one damage request against the destructible, for the fixed
//! per-impact damage. Every other pair is discarded, and `Ended` events are
//! ignored entirely: damage is impulse-based, not duration-based.

use vstd::prelude::*;

use crate::entity::{is_destructible_id, is_projectile_id, Entity};
use crate::registry::Registry;
use crate::DAMAGE_PER_HIT;

verus! {

/// Whether a collision pair has just started or just ended touching.
#[derive(Clone, Copy, PartialEq, Eq, Structural, Debug)]
pub enum CollisionPhase {
    Started,
    Ended,
}

/// One raw collision event from the physics collaborator: an unordered pair
/// of body identifiers and its phase.
#[derive(Clone, Copy, PartialEq, Eq, Structural, Debug)]
pub struct CollisionPair {
    pub a: u64,
    pub b: u64,
    pub phase: CollisionPhase,
}

/// A classified impact: damage to be applied to one destructible.
#[derive(Clone, Copy, PartialEq, Eq, Structural, Debug)]
pub struct DamageRequest {
    pub target: u64,
    pub amount: i64,
}

/// What the classifier emits for one event against the state `s`: one
/// request when exactly one side is a projectile and the other a
/// destructible, nothing otherwise.
pub open spec fn classify_spec(s: Seq<Entity>, ev: CollisionPair) -> Option<DamageRequest> {
    if ev.phase is Started {
        if is_projectile_id(s, ev.a) && is_destructible_id(s, ev.b) {
            Some(DamageRequest { target: ev.b, amount: DAMAGE_PER_HIT })
        } else if is_projectile_id(s, ev.b) && is_destructible_id(s, ev.a) {
            Some(DamageRequest { target: ev.a, amount: DAMAGE_PER_HIT })
        } else {
            None
        }
    } else {
        None
    }
}

/// The requests emitted for a stream of events, in arrival order.
pub open spec fn classify_all_spec(s: Seq<Entity>, evs: Seq<CollisionPair>) -> Seq<DamageRequest>
    decreases evs.len(),
{
    if evs.len() == 0 {
        Seq::empty()
    } else {
        let rest = classify_all_spec(s, evs.drop_last());
        match classify_spec(s, evs.last()) {
            Some(r) => rest.push(r),
            None => rest,
        }
    }
}

/// Every request a stream of events produces carries the fixed per-impact
/// damage and targets a destructible of `s`.
pub proof fn lemma_classified_requests(s: Seq<Entity>, evs: Seq<CollisionPair>)
    ensures
        forall|k: int|
            0 <= k < classify_all_spec(s, evs).len() ==> {
                let r = #[trigger] classify_all_spec(s, evs)[k];
                r.amount == DAMAGE_PER_HIT && is_destructible_id(s, r.target)
            },
    decreases evs.len(),
{
    if evs.len() > 0 {
        lemma_classified_requests(s, evs.drop_last());
        let rest = classify_all_spec(s, evs.drop_last());
        let cur = classify_all_spec(s, evs);
        match classify_spec(s, evs.last()) {
            Some(r) => {
                assert(cur == rest.push(r));
                assert(forall|k: int| 0 <= k < rest.len() ==> cur[k] == rest[k]);
                assert(cur[cur.len() - 1] == r);
            },
            None => {
                assert(cur == rest);
            },
        }
    }
}

/// Classify one collision event against the current registry state.
pub fn classify(reg: &Registry, ev: &CollisionPair) -> (r: Option<DamageRequest>)
    ensures
        r == classify_spec(reg@, *ev),
{
    match ev.phase {
        CollisionPhase::Started => {
            if reg.is_projectile(ev.a) && reg.is_destructible(ev.b) {
                Some(DamageRequest { target: ev.b, amount: DAMAGE_PER_HIT })
            } else if reg.is_projectile(ev.b) && reg.is_destructible(ev.a) {
                Some(DamageRequest { target: ev.a, amount: DAMAGE_PER_HIT })
            } else {
                None
            }
        },
        CollisionPhase::Ended => None,
    }
}

/// Classify a whole tick's stream of collision events, in arrival order.
pub fn classify_all(reg: &Registry, evs: &Vec<CollisionPair>) -> (r: Vec<DamageRequest>)
    ensures
        r@ == classify_all_spec(reg@, evs@),
{
    let mut out: Vec<DamageRequest> = Vec::new();
    let n = evs.len();
    let mut i: usize = 0;
    while i < n
        invariant
            n == evs@.len(),
            i <= n,
            out@ == classify_all_spec(reg@, evs@.subrange(0, i as int)),
        decreases n - i,
    {
        proof {
            assert(evs@.subrange(0, i + 1 as int).drop_last() =~= evs@.subrange(0, i as int));
            assert(evs@.subrange(0, i + 1 as int).last() == evs@[i as int]);
        }
        match classify(reg, &evs[i]) {
            Some(req) => out.push(req),
            None => (),
        }
        i = i + 1;
    }
    proof {
        assert(evs@.subrange(0, n as int) =~= evs@);
    }
    out
}

} // verus!
