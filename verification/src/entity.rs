//! Registry records and the mathematical model of a registry state.
//!
//! A registry state is modelled as a sequence of records, ordered by spawn
//! time; identifiers are unique and always below the next identifier to be
//! handed out.

use vstd::prelude::*;

use crate::geometry::{in_play, in_world, valid_extent, Vec2};
use crate::HEALTH_MAX;

verus! {

/// The role a registry record plays in the simulation.
#[derive(Clone, Copy, PartialEq, Eq, Structural, Debug)]
pub enum EntityKind {
    /// A fixed brick with remaining health; fractures when health reaches zero.
    Destructible { health: i64 },
    /// An inert dynamic piece of a destroyed brick; carries no health.
    Fragment,
    /// A dynamic damage source, flying under the given impulse.
    Projectile { impulse: Vec2 },
}

/// One registry record: identity, centre position, collision footprint
/// and role.
#[derive(Clone, Copy, PartialEq, Eq, Structural, Debug)]
pub struct Entity {
    pub id: u64,
    pub pos: Vec2,
    pub size: Vec2,
    pub kind: EntityKind,
}

/// Some record of `s` carries the identifier `id`.
pub open spec fn has_id(s: Seq<Entity>, id: u64) -> bool {
    exists|i: int| 0 <= i < s.len() && s[i].id == id
}

/// Index of the first record carrying `id`, or `-1` when there is none.
pub open spec fn idx_of(s: Seq<Entity>, id: u64) -> int
    decreases s.len(),
{
    if s.len() == 0 {
        -1
    } else if s[0].id == id {
        0
    } else {
        let r = idx_of(s.subrange(1, s.len() as int), id);
        if r == -1 {
            -1
        } else {
            r + 1
        }
    }
}

/// `idx_of` finds `id` exactly when some record carries it, and then points
/// at the first such record.
pub proof fn lemma_idx_of(s: Seq<Entity>, id: u64)
    ensures
        has_id(s, id) <==> 0 <= idx_of(s, id) < s.len(),
        !has_id(s, id) <==> idx_of(s, id) == -1,
        0 <= idx_of(s, id) ==> s[idx_of(s, id)].id == id,
        forall|j: int| 0 <= j < idx_of(s, id) ==> s[j].id != id,
    decreases s.len(),
{
    if s.len() == 0 {
    } else if s[0].id == id {
    } else {
        let sub = s.subrange(1, s.len() as int);
        lemma_idx_of(sub, id);
        assert(forall|i: int| 1 <= i < s.len() ==> s[i] == sub[i - 1]);
        if has_id(s, id) {
            let w = choose|i: int| 0 <= i < s.len() && s[i].id == id;
            assert(sub[w - 1].id == id);
            assert(has_id(sub, id));
        }
        if has_id(sub, id) {
            let w = choose|i: int| 0 <= i < sub.len() && sub[i].id == id;
            assert(s[w + 1].id == id);
            assert(has_id(s, id));
        }
    }
}

/// A single record is well formed: it sits inside the play area, its
/// footprint is a valid extent, and a destructible's health never exceeds
/// the initial value. Destructibles are fixed bodies and therefore still sit
/// inside the spawn range.
pub open spec fn wf_entity(e: Entity) -> bool {
    &&& in_play(e.pos)
    &&& valid_extent(e.size)
    &&& e.kind matches EntityKind::Destructible { health } ==> health <= HEALTH_MAX && in_world(
        e.pos,
    )
}

/// No two records of `s` share an identifier.
pub open spec fn ids_unique(s: Seq<Entity>) -> bool {
    forall|i: int, j: int| 0 <= i < j < s.len() ==> s[i].id != s[j].id
}

/// A registry state is well formed: every record is well formed, identifiers
/// are unique and all lie below the next identifier to be handed out.
pub open spec fn wf_state(s: Seq<Entity>, next_id: u64) -> bool {
    &&& ids_unique(s)
    &&& forall|i: int| 0 <= i < s.len() ==> wf_entity(#[trigger] s[i]) && s[i].id < next_id
}

/// The record carrying `id` (meaningful only when `has_id` holds).
pub open spec fn ent(s: Seq<Entity>, id: u64) -> Entity {
    s[idx_of(s, id)]
}

/// `id` names a destructible record of `s`.
pub open spec fn is_destructible_id(s: Seq<Entity>, id: u64) -> bool {
    has_id(s, id) && ent(s, id).kind is Destructible
}

/// `id` names a projectile record of `s`.
pub open spec fn is_projectile_id(s: Seq<Entity>, id: u64) -> bool {
    has_id(s, id) && ent(s, id).kind is Projectile
}

/// Remaining health of the destructible named `id`, if there is one.
pub open spec fn health_of(s: Seq<Entity>, id: u64) -> Option<i64> {
    if is_destructible_id(s, id) {
        Some(ent(s, id).kind->health)
    } else {
        None
    }
}

/// Every destructible of `s` still has positive health. This holds at every
/// tick boundary: a brick whose health drops to zero is fractured away in
/// the same tick.
pub open spec fn all_alive(s: Seq<Entity>) -> bool {
    forall|i: int|
        0 <= i < s.len() ==> ((#[trigger] s[i].kind) matches EntityKind::Destructible { health }
            ==> health > 0)
}

/// In a state with unique identifiers, any index holding `id` is the one
/// `idx_of` returns.
pub proof fn lemma_idx_of_unique(s: Seq<Entity>, id: u64, i: int)
    requires
        ids_unique(s),
        0 <= i < s.len(),
        s[i].id == id,
    ensures
        idx_of(s, id) == i,
{
    lemma_idx_of(s, id);
    let w = idx_of(s, id);
    if w < i {
        assert(s[w].id != s[i].id);
    }
    if w > i {
        assert(s[i].id != id);
    }
}

} // verus!
