//! The explicit per-tick pipeline.
//!
//! One tick processes one batch of collision input through the full chain —
//! classifier, damage model, fracture engine, lifetime sweeper — with each
//! stage's queue fully drained before the next stage runs. The registry is
//! mutated by nothing else during a tick.

use vstd::prelude::*;

use crate::classifier::{classify_all, classify_all_spec, lemma_classified_requests, CollisionPair};
use crate::damage::{apply_damage_all, apply_damage_all_spec};
use crate::entity::Entity;
use crate::fracture::{fracture_all, fracture_all_spec};
use crate::geometry::{in_world, Vec2};
use crate::registry::Registry;
use crate::sweeper::{sweep, sweep_spec};

verus! {

/// The state one tick produces from the state `s`: the registry contents
/// and the next fresh identifier after classifying `evs`, draining the
/// damage queue, draining the fracture queue and sweeping against `vps`.
pub open spec fn tick_spec(s: Seq<Entity>, next: u64, evs: Seq<CollisionPair>, vps: Seq<Vec2>) -> (
    Seq<Entity>,
    u64,
) {
    let dreqs = classify_all_spec(s, evs);
    let (s1, freqs) = apply_damage_all_spec(s, dreqs);
    let (s2, next2) = fracture_all_spec(s1, next, freqs);
    (sweep_spec(s2, vps), next2)
}

/// Run one full simulation tick: classify this tick's collision events,
/// drain the damage requests they produce, drain the fracture requests the
/// damage produces, then sweep far-away entities.
pub fn tick(reg: &mut Registry, events: &Vec<CollisionPair>, viewpoints: &Vec<Vec2>)
    requires
        old(reg).wf(),
        forall|j: int| 0 <= j < viewpoints@.len() ==> in_world(#[trigger] viewpoints@[j]),
    ensures
        final(reg).wf(),
        final(reg)@ == tick_spec(old(reg)@, old(reg).fresh(), events@, viewpoints@).0,
        final(reg).fresh() == tick_spec(old(reg)@, old(reg).fresh(), events@, viewpoints@).1,
{
    proof {
        lemma_classified_requests(old(reg)@, events@);
    }
    let damage_requests = classify_all(reg, events);
    let fracture_requests = apply_damage_all(reg, &damage_requests);
    fracture_all(reg, &fracture_requests);
    sweep(reg, viewpoints);
}

} // verus!
