//! The lifetime sweeper: removes entities that have drifted beyond the
//! despawn distance from every active viewpoint.
//!
//! Every entity is swept — destructibles, fragments and projectiles alike —
//! since viewpoints themselves are not registry records. With zero
//! viewpoints nothing is ever despawned: the rule quantifies over all
//! viewpoints, and the sweeper demands at least one before it removes
//! anything.

use vstd::prelude::*;

use crate::entity::{wf_entity, wf_state, Entity};
use crate::geometry::{beyond_despawn, in_play, in_world, is_beyond_despawn, Vec2};
use crate::registry::Registry;

verus! {

/// The entity is strictly farther than the despawn distance from every one
/// of at least one viewpoint.
pub open spec fn swept(e: Entity, vps: Seq<Vec2>) -> bool {
    vps.len() > 0 && forall|j: int| 0 <= j < vps.len() ==> beyond_despawn(e.pos, #[trigger] vps[j])
}

/// The state after one sweep: the records not swept, in their old order.
pub open spec fn sweep_spec(s: Seq<Entity>, vps: Seq<Vec2>) -> Seq<Entity>
    decreases s.len(),
{
    if s.len() == 0 {
        Seq::empty()
    } else {
        let rest = sweep_spec(s.drop_last(), vps);
        if swept(s.last(), vps) {
            rest
        } else {
            rest.push(s.last())
        }
    }
}

/// Every record the sweep keeps is a record of the input state.
pub proof fn lemma_sweep_elements(s: Seq<Entity>, vps: Seq<Vec2>)
    ensures
        forall|k: int|
            0 <= k < sweep_spec(s, vps).len() ==> s.contains(#[trigger] sweep_spec(s, vps)[k])
                && !swept(sweep_spec(s, vps)[k], vps),
    decreases s.len(),
{
    if s.len() > 0 {
        lemma_sweep_elements(s.drop_last(), vps);
        let rest = sweep_spec(s.drop_last(), vps);
        let cur = sweep_spec(s, vps);
        assert forall|k: int| 0 <= k < cur.len() implies s.contains(cur[k]) && !swept(
            cur[k],
            vps,
        ) by {
            if k < rest.len() {
                assert(cur[k] == rest[k]);
                assert(s.drop_last().contains(rest[k]));
                let m = choose|m: int|
                    0 <= m < s.drop_last().len() && s.drop_last()[m] == rest[k];
                assert(s[m] == rest[k]);
            } else {
                assert(cur[k] == s.last());
                assert(s[s.len() - 1] == s.last());
            }
        }
    }
}

/// A sweep of a well-formed state is well formed under the same next
/// identifier.
pub proof fn lemma_sweep_wf(s: Seq<Entity>, vps: Seq<Vec2>, next_id: u64)
    requires
        wf_state(s, next_id),
    ensures
        wf_state(sweep_spec(s, vps), next_id),
    decreases s.len(),
{
    if s.len() > 0 {
        assert(forall|k: int| 0 <= k < s.len() - 1 ==> s.drop_last()[k] == s[k]);
        lemma_sweep_wf(s.drop_last(), vps, next_id);
        let rest = sweep_spec(s.drop_last(), vps);
        let cur = sweep_spec(s, vps);
        if !swept(s.last(), vps) {
            lemma_sweep_elements(s.drop_last(), vps);
            assert forall|k1: int, k2: int| 0 <= k1 < k2 < cur.len() implies cur[k1].id
                != cur[k2].id by {
                if k2 == cur.len() - 1 {
                    assert(cur[k1] == rest[k1]);
                    let m = choose|m: int|
                        0 <= m < s.drop_last().len() && s.drop_last()[m] == rest[k1];
                    assert(s[m] == cur[k1]);
                    assert(s[m].id != s[s.len() - 1].id);
                }
            }
        }
    }
}

/// Whether this entity is beyond the despawn distance from every one of the
/// given viewpoints.
fn swept_exec(e: &Entity, viewpoints: &Vec<Vec2>) -> (r: bool)
    requires
        in_play(e.pos),
        forall|j: int| 0 <= j < viewpoints@.len() ==> in_world(#[trigger] viewpoints@[j]),
    ensures
        r == swept(*e, viewpoints@),
{
    let n = viewpoints.len();
    if n == 0 {
        return false;
    }
    let mut j: usize = 0;
    while j < n
        invariant
            n == viewpoints@.len(),
            j <= n,
            in_play(e.pos),
            forall|k: int| 0 <= k < viewpoints@.len() ==> in_world(#[trigger] viewpoints@[k]),
            forall|k: int| 0 <= k < j ==> beyond_despawn(e.pos, #[trigger] viewpoints@[k]),
        decreases n - j,
    {
        if !is_beyond_despawn(e.pos, viewpoints[j]) {
            return false;
        }
        j = j + 1;
    }
    true
}

/// Remove every entity farther than the despawn distance from all of the
/// given viewpoints; with no viewpoints, remove nothing.
pub fn sweep(reg: &mut Registry, viewpoints: &Vec<Vec2>)
    requires
        old(reg).wf(),
        forall|j: int| 0 <= j < viewpoints@.len() ==> in_world(#[trigger] viewpoints@[j]),
    ensures
        final(reg).wf(),
        final(reg)@ == sweep_spec(old(reg)@, viewpoints@),
        final(reg).fresh() == old(reg).fresh(),
{
    let mut kept: Vec<Entity> = Vec::new();
    let n = reg.entities.len();
    let mut i: usize = 0;
    while i < n
        invariant
            reg == old(reg),
            reg.wf(),
            n == reg@.len(),
            i <= n,
            forall|j: int| 0 <= j < viewpoints@.len() ==> in_world(#[trigger] viewpoints@[j]),
            kept@ == sweep_spec(reg@.subrange(0, i as int), viewpoints@),
        decreases n - i,
    {
        let e = reg.entities[i];
        proof {
            assert(wf_entity(reg@[i as int]));
            assert(reg@.subrange(0, i + 1 as int).drop_last() =~= reg@.subrange(0, i as int));
            assert(reg@.subrange(0, i + 1 as int).last() == reg@[i as int]);
        }
        if !swept_exec(&e, viewpoints) {
            kept.push(e);
        }
        i = i + 1;
    }
    proof {
        assert(reg@.subrange(0, n as int) =~= reg@);
        lemma_sweep_wf(reg@, viewpoints@, reg.fresh());
    }
    reg.entities = kept;
}

} // verus!
