//! The entity registry: identity and component storage for destructible
//! bricks, projectiles and fragments.
//!
//! The registry owns every simulated entity. Spawning validates geometry at
//! the boundary: a zero or negative extent, an oversized extent or an
//! out-of-range position is the one kind of input that is reported as an
//! error rather than absorbed silently.

use vstd::prelude::*;

use crate::entity::{
    ent, has_id, health_of, idx_of, is_destructible_id, is_projectile_id, lemma_idx_of,
    wf_state, Entity, EntityKind,
};
use crate::geometry::{in_world, valid_extent, Vec2};
use crate::{HEALTH_MAX, MAX_EXTENT, PROJECTILE_EXTENT};

verus! {

/// Why a spawn or a position update was rejected.
#[derive(Clone, Copy, PartialEq, Eq, Structural, Debug)]
pub enum GeometryError {
    /// A width or height of zero or less.
    NonPositiveExtent,
    /// A width or height above `MAX_EXTENT`.
    ExtentTooLarge,
    /// A centre coordinate outside the spawn range.
    PositionOutOfRange,
    /// The identifier space is used up.
    IdsExhausted,
}

/// The verdict of the spawn boundary on a requested position and footprint,
/// with checks applied in this order.
pub open spec fn spawn_check(pos: Vec2, size: Vec2, next_id: u64) -> Result<(), GeometryError> {
    if size.x <= 0 || size.y <= 0 {
        Err(GeometryError::NonPositiveExtent)
    } else if size.x > MAX_EXTENT || size.y > MAX_EXTENT {
        Err(GeometryError::ExtentTooLarge)
    } else if !in_world(pos) {
        Err(GeometryError::PositionOutOfRange)
    } else if next_id == u64::MAX {
        Err(GeometryError::IdsExhausted)
    } else {
        Ok(())
    }
}

/// The brick record a level-load pair produces under the identifier `id`.
pub open spec fn level_brick(id: u64, pos: Vec2, size: Vec2) -> Entity {
    Entity { id, pos, size, kind: EntityKind::Destructible { health: HEALTH_MAX } }
}

/// Loading a list of `(position, size)` pairs in order: the state, the next
/// identifier and the spawned identifiers after one destructible per pair,
/// stopping at the first malformed pair.
pub open spec fn load_level_spec(s: Seq<Entity>, next: u64, pairs: Seq<(Vec2, Vec2)>) -> (
    Seq<Entity>,
    u64,
    Result<Seq<u64>, GeometryError>,
)
    decreases pairs.len(),
{
    if pairs.len() == 0 {
        (s, next, Ok(Seq::empty()))
    } else {
        let (s1, n1, r1) = load_level_spec(s, next, pairs.drop_last());
        let (pos, size) = pairs.last();
        match r1 {
            Err(e) => (s1, n1, Err(e)),
            Ok(ids) => match spawn_check(pos, size, n1) {
                Err(e) => (s1, n1, Err(e)),
                Ok(()) => (
                    s1.push(level_brick(n1, pos, size)),
                    (n1 + 1) as u64,
                    Ok(ids.push(n1)),
                ),
            },
        }
    }
}

/// Once loading has failed on a prefix, the remaining pairs change nothing.
proof fn lemma_load_level_error_sticks(s: Seq<Entity>, next: u64, pairs: Seq<(Vec2, Vec2)>, i: int)
    requires
        0 <= i <= pairs.len(),
        load_level_spec(s, next, pairs.subrange(0, i)).2 is Err,
    ensures
        load_level_spec(s, next, pairs) == load_level_spec(s, next, pairs.subrange(0, i)),
    decreases pairs.len(),
{
    if pairs.len() == i {
        assert(pairs.subrange(0, i) =~= pairs);
    } else {
        assert(pairs.drop_last() =~= pairs.subrange(0, pairs.len() - 1));
        assert(pairs.drop_last().subrange(0, i) =~= pairs.subrange(0, i));
        lemma_load_level_error_sticks(s, next, pairs.drop_last(), i);
    }
}

/// Identity and component storage for every simulated entity.
pub struct Registry {
    pub(crate) entities: Vec<Entity>,
    pub(crate) next_id: u64,
}

impl Registry {
    /// The registry state: its records in spawn order.
    pub open(crate) spec fn view(&self) -> Seq<Entity> {
        self.entities@
    }

    /// The identifier the next spawn will receive.
    pub open(crate) spec fn fresh(&self) -> u64 {
        self.next_id
    }

    /// The registry invariant; established by `new` and preserved by every
    /// operation.
    pub open(crate) spec fn wf(&self) -> bool {
        wf_state(self@, self.fresh())
    }

    /// An empty registry.
    pub fn new() -> (r: Registry)
        ensures
            r.wf(),
            r@.len() == 0,
            r.fresh() == 0,
    {
        Registry { entities: Vec::new(), next_id: 0 }
    }

    /// Number of entities currently stored.
    pub fn len(&self) -> (n: usize)
        ensures
            n == self@.len(),
    {
        self.entities.len()
    }

    /// Read-only access to the stored records, in spawn order; the basis of
    /// the per-tick rendering snapshot.
    pub fn records(&self) -> (r: &Vec<Entity>)
        ensures
            r@ == self@,
    {
        &self.entities
    }

    /// Index of the record carrying `id`, if any.
    pub(crate) fn find_index(&self, id: u64) -> (r: Option<usize>)
        ensures
            match r {
                Some(i) => idx_of(self@, id) == i as int,
                None => idx_of(self@, id) == -1,
            },
    {
        proof {
            lemma_idx_of(self@, id);
        }
        let n = self.entities.len();
        let mut i: usize = 0;
        while i < n
            invariant
                n == self@.len(),
                i <= n,
                forall|j: int| 0 <= j < i ==> self@[j].id != id,
            decreases n - i,
        {
            if self.entities[i].id == id {
                proof {
                    assert(has_id(self@, id));
                    lemma_idx_of(self@, id);
                    let w = idx_of(self@, id);
                    if w < i as int {
                        assert(self@[w].id != id);
                    }
                    if w > i as int {
                        assert(self@[i as int].id != id);
                    }
                }
                return Some(i);
            }
            i = i + 1;
        }
        None
    }

    /// Whether some record carries `id`.
    pub fn contains(&self, id: u64) -> (r: bool)
        ensures
            r == has_id(self@, id),
    {
        proof {
            lemma_idx_of(self@, id);
        }
        self.find_index(id).is_some()
    }

    /// Capability query of the collision classifier: is `id` a projectile?
    pub fn is_projectile(&self, id: u64) -> (r: bool)
        ensures
            r == is_projectile_id(self@, id),
    {
        proof {
            lemma_idx_of(self@, id);
        }
        match self.find_index(id) {
            Some(i) => match self.entities[i].kind {
                EntityKind::Projectile { .. } => true,
                _ => false,
            },
            None => false,
        }
    }

    /// Capability query of the collision classifier: is `id` a destructible?
    pub fn is_destructible(&self, id: u64) -> (r: bool)
        ensures
            r == is_destructible_id(self@, id),
    {
        proof {
            lemma_idx_of(self@, id);
        }
        match self.find_index(id) {
            Some(i) => match self.entities[i].kind {
                EntityKind::Destructible { .. } => true,
                _ => false,
            },
            None => false,
        }
    }

    /// Remaining health of the destructible named `id`, if there is one.
    pub fn health_of(&self, id: u64) -> (r: Option<i64>)
        ensures
            r == health_of(self@, id),
    {
        proof {
            lemma_idx_of(self@, id);
        }
        match self.find_index(id) {
            Some(i) => match self.entities[i].kind {
                EntityKind::Destructible { health } => Some(health),
                _ => None,
            },
            None => None,
        }
    }

    /// Centre position of the record named `id`, if any.
    pub fn position_of(&self, id: u64) -> (r: Option<Vec2>)
        ensures
            r == if has_id(self@, id) {
                Some(ent(self@, id).pos)
            } else {
                None::<Vec2>
            },
    {
        proof {
            lemma_idx_of(self@, id);
        }
        match self.find_index(id) {
            Some(i) => Some(self.entities[i].pos),
            None => None,
        }
    }

    /// Collision footprint of the record named `id`, if any.
    pub fn size_of(&self, id: u64) -> (r: Option<Vec2>)
        ensures
            r == if has_id(self@, id) {
                Some(ent(self@, id).size)
            } else {
                None::<Vec2>
            },
    {
        proof {
            lemma_idx_of(self@, id);
        }
        match self.find_index(id) {
            Some(i) => Some(self.entities[i].size),
            None => None,
        }
    }

    /// Append a freshly identified record; the caller has already validated
    /// its geometry.
    fn push_entity(&mut self, pos: Vec2, size: Vec2, kind: EntityKind) -> (id: u64)
        requires
            old(self).wf(),
            old(self).fresh() < u64::MAX,
            in_world(pos),
            valid_extent(size),
            kind matches EntityKind::Destructible { health } ==> health <= HEALTH_MAX,
        ensures
            final(self).wf(),
            id == old(self).fresh(),
            final(self)@ == old(self)@.push(Entity { id, pos, size, kind }),
            final(self).fresh() == old(self).fresh() + 1,
    {
        let id = self.next_id;
        self.entities.push(Entity { id, pos, size, kind });
        self.next_id = self.next_id + 1;
        id
    }

    /// Spawn a destructible brick at full health. Reports a geometry error
    /// for a malformed request and leaves the registry unchanged then.
    pub fn spawn_destructible(&mut self, pos: Vec2, size: Vec2) -> (r: Result<u64, GeometryError>)
        requires
            old(self).wf(),
        ensures
            final(self).wf(),
            match r {
                Ok(id) => {
                    &&& spawn_check(pos, size, old(self).fresh()) is Ok
                    &&& id == old(self).fresh()
                    &&& final(self)@ == old(self)@.push(
                        (Entity {
                            id,
                            pos,
                            size,
                            kind: EntityKind::Destructible { health: HEALTH_MAX },
                        }),
                    )
                    &&& final(self).fresh() == old(self).fresh() + 1
                },
                Err(e) => {
                    &&& spawn_check(pos, size, old(self).fresh()) == Err::<(), GeometryError>(e)
                    &&& final(self)@ == old(self)@
                    &&& final(self).fresh() == old(self).fresh()
                },
            },
    {
        match self.check_spawn(pos, size) {
            Ok(()) => Ok(
                self.push_entity(pos, size, EntityKind::Destructible { health: HEALTH_MAX }),
            ),
            Err(e) => Err(e),
        }
    }

    /// Spawn an inert fragment. Reports a geometry error for a malformed
    /// request and leaves the registry unchanged then.
    pub fn spawn_fragment(&mut self, pos: Vec2, size: Vec2) -> (r: Result<u64, GeometryError>)
        requires
            old(self).wf(),
        ensures
            final(self).wf(),
            match r {
                Ok(id) => {
                    &&& spawn_check(pos, size, old(self).fresh()) is Ok
                    &&& id == old(self).fresh()
                    &&& final(self)@ == old(self)@.push(
                        (Entity { id, pos, size, kind: EntityKind::Fragment }),
                    )
                    &&& final(self).fresh() == old(self).fresh() + 1
                },
                Err(e) => {
                    &&& spawn_check(pos, size, old(self).fresh()) == Err::<(), GeometryError>(e)
                    &&& final(self)@ == old(self)@
                    &&& final(self).fresh() == old(self).fresh()
                },
            },
    {
        match self.check_spawn(pos, size) {
            Ok(()) => Ok(self.push_entity(pos, size, EntityKind::Fragment)),
            Err(e) => Err(e),
        }
    }

    /// Spawn a projectile with its launch impulse; projectiles carry a fixed
    /// square footprint of `PROJECTILE_EXTENT` units.
    pub fn spawn_projectile(&mut self, pos: Vec2, impulse: Vec2) -> (r: Result<
        u64,
        GeometryError,
    >)
        requires
            old(self).wf(),
        ensures
            final(self).wf(),
            match r {
                Ok(id) => {
                    &&& in_world(pos)
                    &&& old(self).fresh() < u64::MAX
                    &&& id == old(self).fresh()
                    &&& final(self)@ == old(self)@.push(
                        (Entity {
                            id,
                            pos,
                            size: Vec2 { x: PROJECTILE_EXTENT, y: PROJECTILE_EXTENT },
                            kind: EntityKind::Projectile { impulse },
                        }),
                    )
                    &&& final(self).fresh() == old(self).fresh() + 1
                },
                Err(e) => {
                    &&& final(self)@ == old(self)@
                    &&& final(self).fresh() == old(self).fresh()
                    &&& (!in_world(pos) || old(self).fresh() == u64::MAX)
                    &&& (e == GeometryError::PositionOutOfRange <==> !in_world(pos))
                    &&& (e == GeometryError::IdsExhausted <==> in_world(pos) && old(self).fresh()
                        == u64::MAX)
                },
            },
    {
        if !(pos.x >= -crate::MAX_COORD && pos.x <= crate::MAX_COORD && pos.y >= -crate::MAX_COORD
            && pos.y <= crate::MAX_COORD) {
            Err(GeometryError::PositionOutOfRange)
        } else if self.next_id == u64::MAX {
            Err(GeometryError::IdsExhausted)
        } else {
            Ok(
                self.push_entity(
                    pos,
                    Vec2 { x: PROJECTILE_EXTENT, y: PROJECTILE_EXTENT },
                    EntityKind::Projectile { impulse },
                ),
            )
        }
    }

    /// Validate a spawn request against the boundary rules.
    fn check_spawn(&self, pos: Vec2, size: Vec2) -> (r: Result<(), GeometryError>)
        ensures
            r == spawn_check(pos, size, self.fresh()),
    {
        if size.x <= 0 || size.y <= 0 {
            Err(GeometryError::NonPositiveExtent)
        } else if size.x > MAX_EXTENT || size.y > MAX_EXTENT {
            Err(GeometryError::ExtentTooLarge)
        } else if !(pos.x >= -crate::MAX_COORD && pos.x <= crate::MAX_COORD && pos.y
            >= -crate::MAX_COORD && pos.y <= crate::MAX_COORD) {
            Err(GeometryError::PositionOutOfRange)
        } else if self.next_id == u64::MAX {
            Err(GeometryError::IdsExhausted)
        } else {
            Ok(())
        }
    }

    /// Load the initial level geometry: spawn one destructible per
    /// `(position, size)` pair, in order, and return their identifiers.
    /// Stops at the first malformed pair and reports its error; the pairs
    /// before it stay spawned.
    pub fn load_level(&mut self, pairs: &Vec<(Vec2, Vec2)>) -> (r: Result<Vec<u64>, GeometryError>)
        requires
            old(self).wf(),
        ensures
            final(self).wf(),
            final(self)@ == load_level_spec(old(self)@, old(self).fresh(), pairs@).0,
            final(self).fresh() == load_level_spec(old(self)@, old(self).fresh(), pairs@).1,
            match r {
                Ok(ids) => load_level_spec(old(self)@, old(self).fresh(), pairs@).2 == Ok::<
                    Seq<u64>,
                    GeometryError,
                >(ids@),
                Err(e) => load_level_spec(old(self)@, old(self).fresh(), pairs@).2 == Err::<
                    Seq<u64>,
                    GeometryError,
                >(e),
            },
    {
        let mut ids: Vec<u64> = Vec::new();
        let n = pairs.len();
        let mut i: usize = 0;
        while i < n
            invariant
                n == pairs@.len(),
                i <= n,
                self.wf(),
                load_level_spec(old(self)@, old(self).fresh(), pairs@.subrange(0, i as int)).2
                    == Ok::<Seq<u64>, GeometryError>(ids@),
                self@ == load_level_spec(old(self)@, old(self).fresh(), pairs@.subrange(0, i as int)).0,
                self.fresh() == load_level_spec(
                    old(self)@,
                    old(self).fresh(),
                    pairs@.subrange(0, i as int),
                ).1,
            decreases n - i,
        {
            proof {
                assert(pairs@.subrange(0, i + 1 as int).drop_last() =~= pairs@.subrange(0, i as int));
                assert(pairs@.subrange(0, i + 1 as int).last() == pairs@[i as int]);
            }
            let (pos, size) = pairs[i];
            match self.spawn_destructible(pos, size) {
                Ok(id) => {
                    ids.push(id);
                },
                Err(e) => {
                    proof {
                        lemma_load_level_error_sticks(
                            old(self)@,
                            old(self).fresh(),
                            pairs@,
                            i + 1 as int,
                        );
                    }
                    return Err(e);
                },
            }
            i = i + 1;
        }
        proof {
            assert(pairs@.subrange(0, n as int) =~= pairs@);
        }
        Ok(ids)
    }

    /// Record the position the physics collaborator reports for `id`. A
    /// stale identifier is an expected race and is absorbed silently; an
    /// out-of-range position is rejected.
    pub fn update_position(&mut self, id: u64, pos: Vec2) -> (r: Result<(), GeometryError>)
        requires
            old(self).wf(),
        ensures
            final(self).wf(),
            final(self).fresh() == old(self).fresh(),
            match r {
                Ok(()) => {
                    &&& in_world(pos)
                    &&& if has_id(old(self)@, id) {
                        final(self)@ == old(self)@.update(
                            idx_of(old(self)@, id),
                            (Entity { pos, ..ent(old(self)@, id) }),
                        )
                    } else {
                        final(self)@ == old(self)@
                    }
                },
                Err(e) => {
                    &&& e == GeometryError::PositionOutOfRange
                    &&& !in_world(pos)
                    &&& final(self)@ == old(self)@
                },
            },
    {
        proof {
            lemma_idx_of(self@, id);
        }
        if !(pos.x >= -crate::MAX_COORD && pos.x <= crate::MAX_COORD && pos.y >= -crate::MAX_COORD
            && pos.y <= crate::MAX_COORD) {
            return Err(GeometryError::PositionOutOfRange);
        }
        match self.find_index(id) {
            Some(i) => {
                let e = self.entities[i];
                self.entities[i] = Entity { pos, ..e };
                proof {
                    let s = self@;
                    assert(forall|k: int|
                        0 <= k < s.len() && k != i as int ==> s[k] == old(self)@[k]);
                    assert(s[i as int].id == e.id);
                }
                Ok(())
            },
            None => Ok(()),
        }
    }
}

} // verus!
