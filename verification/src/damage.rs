//! The damage model: applies damage requests to destructible health and
//! emits fracture requests when health crosses zero.
//!
//! Health only ever decreases, and a request against an identifier that no
//! longer exists — or that no longer names a destructible — is an expected
//! race between simultaneous collisions and is absorbed silently. The
//! visual intensity of a brick is derived from its remaining health on
//! read; it is never stored.

use vstd::prelude::*;

use crate::classifier::DamageRequest;
use crate::entity::{
    has_id, health_of, idx_of, is_destructible_id, lemma_idx_of, wf_state, Entity, EntityKind,
};
use crate::registry::Registry;
use crate::HEALTH_MAX;

verus! {

/// A request to fracture one destroyed destructible.
#[derive(Clone, Copy, PartialEq, Eq, Structural, Debug)]
pub struct FractureRequest {
    pub target: u64,
}

/// Health after taking `amount` damage: plain subtraction, saturating at the
/// bottom of `i64` (far below the point where the brick is destroyed).
pub open spec fn health_after(h: int, amount: int) -> int {
    if h - amount < i64::MIN {
        i64::MIN as int
    } else {
        h - amount
    }
}

/// One damage application against the state `s`: the new state and the
/// fracture request it emits, if any. A stale or non-destructible target
/// leaves the state untouched.
pub open spec fn apply_damage_spec(s: Seq<Entity>, target: u64, amount: int) -> (
    Seq<Entity>,
    Option<FractureRequest>,
) {
    let i = idx_of(s, target);
    if 0 <= i < s.len() && s[i].kind is Destructible {
        let h2 = health_after(s[i].kind->health as int, amount);
        let s2 = s.update(i, (Entity { kind: EntityKind::Destructible { health: h2 as i64 }, ..s[i] }));
        if h2 <= 0 {
            (s2, Some(FractureRequest { target }))
        } else {
            (s2, None)
        }
    } else {
        (s, None)
    }
}

/// A whole tick's damage requests applied in arrival order: the final state
/// and the fracture requests emitted, in emission order.
pub open spec fn apply_damage_all_spec(s: Seq<Entity>, reqs: Seq<DamageRequest>) -> (
    Seq<Entity>,
    Seq<FractureRequest>,
)
    decreases reqs.len(),
{
    if reqs.len() == 0 {
        (s, Seq::empty())
    } else {
        let (s1, frs) = apply_damage_all_spec(s, reqs.drop_last());
        let r = reqs.last();
        let (s2, fr) = apply_damage_spec(s1, r.target, r.amount as int);
        match fr {
            Some(f) => (s2, frs.push(f)),
            None => (s2, frs),
        }
    }
}

/// Damage preserves well-formedness and touches nothing but the target's
/// health, which does not increase when the damage is non-negative.
pub proof fn lemma_damage_step_wf(s: Seq<Entity>, target: u64, amount: int, next_id: u64)
    requires
        wf_state(s, next_id),
        amount >= 0,
    ensures
        wf_state(apply_damage_spec(s, target, amount).0, next_id),
        apply_damage_spec(s, target, amount).0.len() == s.len(),
        forall|id: u64| has_id(apply_damage_spec(s, target, amount).0, id) == has_id(s, id),
        forall|id: u64|
            is_destructible_id(apply_damage_spec(s, target, amount).0, id) == is_destructible_id(
                s,
                id,
            ),
        forall|id: u64|
            id != target ==> health_of(apply_damage_spec(s, target, amount).0, id) == health_of(
                s,
                id,
            ),
        is_destructible_id(s, target) ==> health_of(apply_damage_spec(s, target, amount).0, target)
            == Some(health_after(health_of(s, target)->0 as int, amount) as i64),
{
    lemma_idx_of(s, target);
    let i = idx_of(s, target);
    let s2 = apply_damage_spec(s, target, amount).0;
    if 0 <= i < s.len() && s[i].kind is Destructible {
        assert(forall|k: int| 0 <= k < s.len() && k != i ==> s2[k] == s[k]);
        assert(s2[i].id == s[i].id);
        assert(wf_state(s2, next_id)) by {
            assert(s2[i].kind->health <= HEALTH_MAX);
        }
        assert(forall|id: u64| has_id(s2, id) == has_id(s, id)) by {
            assert(forall|k: int| 0 <= k < s.len() ==> s2[k].id == s[k].id);
        }
        assert forall|id: u64|
            is_destructible_id(s2, id) == is_destructible_id(s, id) && (id != target ==> health_of(
                s2,
                id,
            ) == health_of(s, id)) by {
            lemma_same_ids_same_idx(s, s2, id);
            lemma_idx_of(s, id);
            let w = idx_of(s, id);
            if 0 <= w < s.len() {
                if id != target {
                    assert(s[i].id == target);
                    assert(w != i);
                    assert(s2[w] == s[w]);
                }
            }
        }
        lemma_same_ids_same_idx(s, s2, target);
        assert(health_of(s2, target) == Some(s2[i].kind->health));
    } else {
        assert(s2 == s);
    }
}

/// Two states whose records carry the same identifiers position any
/// identifier at the same index.
pub proof fn lemma_same_ids_same_idx(s: Seq<Entity>, t: Seq<Entity>, id: u64)
    requires
        s.len() == t.len(),
        forall|k: int| 0 <= k < s.len() ==> s[k].id == t[k].id,
    ensures
        idx_of(s, id) == idx_of(t, id),
    decreases s.len(),
{
    if s.len() > 0 && s[0].id != id {
        let ssub = s.subrange(1, s.len() as int);
        let tsub = t.subrange(1, t.len() as int);
        assert(forall|k: int| 0 <= k < ssub.len() ==> ssub[k].id == tsub[k].id);
        lemma_same_ids_same_idx(ssub, tsub, id);
    }
}

/// Apply one damage request. Decreases the target's health by `amount` and
/// returns the fracture request the impact provokes, if the brick is now
/// destroyed; absorbs stale targets silently.
pub fn apply_damage(reg: &mut Registry, target: u64, amount: i64) -> (fr: Option<FractureRequest>)
    requires
        old(reg).wf(),
        amount >= 0,
    ensures
        final(reg).wf(),
        final(reg)@ == apply_damage_spec(old(reg)@, target, amount as int).0,
        fr == apply_damage_spec(old(reg)@, target, amount as int).1,
        final(reg).fresh() == old(reg).fresh(),
{
    proof {
        lemma_damage_step_wf(old(reg)@, target, amount as int, old(reg).fresh());
    }
    match reg.find_index(target) {
        Some(i) => {
            proof {
                lemma_idx_of(reg@, target);
            }
            let e = reg.entities[i];
            match e.kind {
                EntityKind::Destructible { health } => {
                    let h2: i64 = if health >= i64::MIN + amount {
                        health - amount
                    } else {
                        i64::MIN
                    };
                    reg.entities[i] = Entity {
                        kind: EntityKind::Destructible { health: h2 },
                        ..e
                    };
                    if h2 <= 0 {
                        Some(FractureRequest { target })
                    } else {
                        None
                    }
                },
                _ => None,
            }
        },
        None => None,
    }
}

/// Drain a whole tick's damage requests in arrival order, collecting the
/// fracture requests they provoke in emission order.
pub fn apply_damage_all(reg: &mut Registry, reqs: &Vec<DamageRequest>) -> (frs: Vec<
    FractureRequest,
>)
    requires
        old(reg).wf(),
        forall|k: int| 0 <= k < reqs@.len() ==> (#[trigger] reqs@[k]).amount >= 0,
    ensures
        final(reg).wf(),
        final(reg)@ == apply_damage_all_spec(old(reg)@, reqs@).0,
        frs@ == apply_damage_all_spec(old(reg)@, reqs@).1,
        final(reg).fresh() == old(reg).fresh(),
{
    let mut out: Vec<FractureRequest> = Vec::new();
    let n = reqs.len();
    let mut i: usize = 0;
    while i < n
        invariant
            n == reqs@.len(),
            i <= n,
            reg.wf(),
            forall|k: int| 0 <= k < reqs@.len() ==> (#[trigger] reqs@[k]).amount >= 0,
            reg@ == apply_damage_all_spec(old(reg)@, reqs@.subrange(0, i as int)).0,
            out@ == apply_damage_all_spec(old(reg)@, reqs@.subrange(0, i as int)).1,
            reg.fresh() == old(reg).fresh(),
        decreases n - i,
    {
        proof {
            assert(reqs@.subrange(0, i + 1 as int).drop_last() =~= reqs@.subrange(0, i as int));
            assert(reqs@.subrange(0, i + 1 as int).last() == reqs@[i as int]);
        }
        let req = reqs[i];
        match apply_damage(reg, req.target, req.amount) {
            Some(f) => out.push(f),
            None => (),
        }
        i = i + 1;
    }
    proof {
        assert(reqs@.subrange(0, n as int) =~= reqs@);
    }
    out
}

/// Visual intensity derived from remaining health: how far the brick has
/// moved from healthy toward critical, in percent, clamped to `[0, 100]`.
pub open spec fn intensity_spec(health: int) -> int {
    if health >= HEALTH_MAX {
        0
    } else if health <= 0 {
        100
    } else {
        HEALTH_MAX - health
    }
}

/// Visual intensity of a brick with the given remaining health.
pub fn visual_intensity(health: i64) -> (r: i64)
    ensures
        r == intensity_spec(health as int),
        0 <= r <= 100,
{
    if health >= HEALTH_MAX {
        0
    } else if health <= 0 {
        100
    } else {
        HEALTH_MAX - health
    }
}

/// A colour with channels in percent.
#[derive(Clone, Copy, PartialEq, Eq, Structural, Debug)]
pub struct Rgb {
    pub r: i64,
    pub g: i64,
    pub b: i64,
}

/// The rendered colour of a brick: a linear interpolation from the healthy
/// colour (pure green) toward the critical colour (pure red), parameterised
/// by the visual intensity.
pub open spec fn health_color_spec(health: int) -> Rgb {
    Rgb { r: intensity_spec(health) as i64, g: (100 - intensity_spec(health)) as i64, b: 0 }
}

/// Colour of a brick with the given remaining health.
pub fn health_color(health: i64) -> (c: Rgb)
    ensures
        c == health_color_spec(health as int),
{
    let t = visual_intensity(health);
    Rgb { r: t, g: 100 - t, b: 0 }
}

/// The colour a record is rendered with: bricks fade from green to red as
/// they weaken, fragments are blue, projectiles a dark red.
pub open spec fn entity_color_spec(kind: EntityKind) -> Rgb {
    match kind {
        EntityKind::Destructible { health } => health_color_spec(health as int),
        EntityKind::Fragment => Rgb { r: 0, g: 0, b: 100 },
        EntityKind::Projectile { .. } => Rgb { r: 80, g: 0, b: 0 },
    }
}

/// Colour of one record, for the per-tick rendering snapshot.
pub fn entity_color(e: &Entity) -> (c: Rgb)
    ensures
        c == entity_color_spec(e.kind),
{
    match e.kind {
        EntityKind::Destructible { health } => health_color(health),
        EntityKind::Fragment => Rgb { r: 0, g: 0, b: 100 },
        EntityKind::Projectile { .. } => Rgb { r: 80, g: 0, b: 0 },
    }
}

} // verus!
