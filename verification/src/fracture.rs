//! The fracture engine: replaces a destroyed brick by four quadrant
//! fragments.
//!
//! A fracture removes the brick and spawns four half-size fragments in a
//! 2x2 grid around its old centre, each offset by half of the fragment
//! extent plus the visual gap per axis, so that adjacent fragments sit one
//! gap apart. Fragments whose extent would fall
//! below the minimum viable collider dimension are not spawned: the brick
//! dissolves silently, which bounds the shrinkage should fragments ever
//! fracture in turn. A stale or non-destructible target is absorbed
//! silently.

use vstd::prelude::*;

use crate::damage::FractureRequest;
use crate::entity::{
    has_id, health_of, idx_of, is_destructible_id, lemma_idx_of, lemma_idx_of_unique,
    wf_entity, wf_state, Entity, EntityKind,
};
use crate::geometry::Vec2;
use crate::registry::Registry;
use crate::{FRAGMENT_GAP, MAX_COORD, MAX_EXTENT, MIN_FRAGMENT_EXTENT};

verus! {

/// The footprint of a fragment: half the parent's footprint per axis.
pub open spec fn fragment_extent(size: Vec2) -> Vec2 {
    Vec2 { x: (size.x / 2) as i64, y: (size.y / 2) as i64 }
}

/// How far a fragment's centre sits from the parent's centre per axis: half
/// of the fragment extent plus the visual gap, so that the centres of
/// adjacent fragments are one extent plus one gap apart. On the integer
/// grid the halving rounds toward zero (extent and gap are non-negative).
pub open spec fn fragment_offset(ext: Vec2) -> Vec2 {
    Vec2 { x: ((ext.x + FRAGMENT_GAP) / 2) as i64, y: ((ext.y + FRAGMENT_GAP) / 2) as i64 }
}

/// Fragments of this parent would be thinner than the minimum viable
/// collider dimension.
pub open spec fn degenerate(size: Vec2) -> bool {
    fragment_extent(size).x < MIN_FRAGMENT_EXTENT || fragment_extent(size).y < MIN_FRAGMENT_EXTENT
}

/// The fragment of parent `e` in the quadrant selected by the signs
/// `sx, sy` (each `-1` or `1`), under the identifier `fid`.
pub open spec fn fragment_at(e: Entity, fid: u64, sx: int, sy: int) -> Entity {
    let ext = fragment_extent(e.size);
    let off = fragment_offset(ext);
    Entity {
        id: fid,
        pos: Vec2 {
            x: (e.pos.x + sx * off.x) as i64,
            y: (e.pos.y + sy * off.y) as i64,
        },
        size: ext,
        kind: EntityKind::Fragment,
    }
}

/// One fracture against the state `s` with `next` the next fresh
/// identifier: the new state and the new next identifier. The original is
/// removed and, unless its fragments would be degenerate or the identifier
/// space cannot hold four more, the four quadrant fragments are appended in
/// spawn order.
pub open spec fn fracture_spec(s: Seq<Entity>, next: u64, target: u64) -> (Seq<Entity>, u64) {
    let i = idx_of(s, target);
    if 0 <= i < s.len() && s[i].kind is Destructible {
        let e = s[i];
        let rem = s.remove(i);
        if degenerate(e.size) || next > u64::MAX - 4 {
            (rem, next)
        } else {
            (
                rem + seq![
                    fragment_at(e, next, -1, -1),
                    fragment_at(e, (next + 1) as u64, 1, -1),
                    fragment_at(e, (next + 2) as u64, -1, 1),
                    fragment_at(e, (next + 3) as u64, 1, 1),
                ],
                (next + 4) as u64,
            )
        }
    } else {
        (s, next)
    }
}

/// A whole tick's fracture requests applied in emission order.
pub open spec fn fracture_all_spec(s: Seq<Entity>, next: u64, frs: Seq<FractureRequest>) -> (
    Seq<Entity>,
    u64,
)
    decreases frs.len(),
{
    if frs.len() == 0 {
        (s, next)
    } else {
        let (s1, next1) = fracture_all_spec(s, next, frs.drop_last());
        fracture_spec(s1, next1, frs.last().target)
    }
}

/// Fracture preserves well-formedness; it removes the target, appends only
/// fragments with fresh identifiers, and leaves every other record's
/// presence, role and health alone.
pub proof fn lemma_fracture_wf(s: Seq<Entity>, next: u64, target: u64)
    requires
        wf_state(s, next),
    ensures
        ({
            let (s2, next2) = fracture_spec(s, next, target);
            &&& wf_state(s2, next2)
            &&& next <= next2
            &&& !is_destructible_id(s, target) ==> s2 == s && next2 == next
            &&& !has_id(s2, target) == (is_destructible_id(s, target) || !has_id(s, target))
            &&& forall|id: u64|
                is_destructible_id(s2, id) == (id != target && is_destructible_id(s, id))
            &&& forall|id: u64| id != target ==> health_of(s2, id) == health_of(s, id)
        }),
{
    lemma_idx_of(s, target);
    let i = idx_of(s, target);
    let (s2, next2) = fracture_spec(s, next, target);
    if 0 <= i < s.len() && s[i].kind is Destructible {
        let e = s[i];
        let rem = s.remove(i);
        s.remove_ensures(i);
        assert(forall|k: int| 0 <= k < i ==> rem[k] == s[k]);
        assert(forall|k: int| i <= k < s.len() - 1 ==> rem[k] == s[k + 1]);
        let spawned = !(degenerate(e.size) || next > u64::MAX - 4);
        assert(forall|k: int| 0 <= k < rem.len() ==> s2[k] == rem[k]);
        if spawned {
            assert(s2.len() == rem.len() + 4);
            assert(s2[rem.len() as int] == fragment_at(e, next, -1, -1));
            assert(s2[rem.len() as int + 1] == fragment_at(e, (next + 1) as u64, 1, -1));
            assert(s2[rem.len() as int + 2] == fragment_at(e, (next + 2) as u64, -1, 1));
            assert(s2[rem.len() as int + 3] == fragment_at(e, (next + 3) as u64, 1, 1));
            assert(wf_entity(e));
            assert(0 < e.size.x <= MAX_EXTENT && 0 < e.size.y <= MAX_EXTENT);
            assert(1 <= fragment_extent(e.size).x <= MAX_EXTENT);
            assert(1 <= fragment_extent(e.size).y <= MAX_EXTENT);
            assert(0 <= fragment_offset(fragment_extent(e.size)).x <= MAX_EXTENT);
            assert(0 <= fragment_offset(fragment_extent(e.size)).y <= MAX_EXTENT);
            assert(-MAX_COORD <= e.pos.x <= MAX_COORD && -MAX_COORD <= e.pos.y <= MAX_COORD);
            assert(forall|k: int|
                rem.len() <= k < s2.len() ==> wf_entity(#[trigger] s2[k]) && next <= s2[k].id
                    < next2);
        } else {
            assert(s2 == rem);
        }
        assert(wf_state(s2, next2)) by {
            assert(forall|k: int|
                0 <= k < rem.len() ==> wf_entity(#[trigger] s2[k]) && s2[k].id < next);
        }
        assert(!has_id(s2, target)) by {
            if has_id(s2, target) {
                let w = choose|k: int| 0 <= k < s2.len() && s2[k].id == target;
                if w < rem.len() {
                    let m = if w < i {
                        w
                    } else {
                        w + 1
                    };
                    assert(s[m].id == target && m != i && s[i].id == target);
                }
            }
        }
        assert forall|id: u64|
            is_destructible_id(s2, id) == (id != target && is_destructible_id(s, id)) && (id
                != target ==> health_of(s2, id) == health_of(s, id)) by {
            lemma_idx_of(s, id);
            lemma_idx_of(s2, id);
            let ws = idx_of(s, id);
            let w2 = idx_of(s2, id);
            if 0 <= w2 < s2.len() {
                if w2 < rem.len() {
                    let m = if w2 < i {
                        w2
                    } else {
                        w2 + 1
                    };
                    assert(s2[w2] == s[m]);
                    lemma_idx_of_unique(s, id, m);
                } else {
                    assert(s2[w2].kind is Fragment);
                    assert(s2[w2].id >= next);
                    if 0 <= ws < s.len() {
                        assert(s[ws].id < next);
                    }
                }
            }
            if 0 <= ws < s.len() && !(0 <= w2 < s2.len()) && id != target {
                let m2 = if ws < i {
                    ws
                } else {
                    ws - 1
                };
                assert(ws != i);
                assert(s2[m2].id == id);
                assert(has_id(s2, id));
            }
        }
    } else {
        assert(s2 == s);
    }
}

/// Fracture the destructible named `target`: remove it and spawn its four
/// quadrant fragments, unless they would be degenerate. A stale or
/// non-destructible target leaves the registry untouched.
pub fn fracture(reg: &mut Registry, target: u64)
    requires
        old(reg).wf(),
    ensures
        final(reg).wf(),
        final(reg)@ == fracture_spec(old(reg)@, old(reg).fresh(), target).0,
        final(reg).fresh() == fracture_spec(old(reg)@, old(reg).fresh(), target).1,
{
    proof {
        lemma_fracture_wf(old(reg)@, old(reg).fresh(), target);
    }
    let idx = match reg.find_index(target) {
        Some(i) => i,
        None => {
            return ;
        },
    };
    proof {
        lemma_idx_of(reg@, target);
    }
    let e = reg.entities[idx];
    match e.kind {
        EntityKind::Destructible { .. } => {},
        _ => {
            return ;
        },
    }
    proof {
        assert(wf_entity(old(reg)@[idx as int]));
    }
    reg.entities.remove(idx);
    let nw: i64 = e.size.x / 2;
    let nh: i64 = e.size.y / 2;
    if nw < MIN_FRAGMENT_EXTENT || nh < MIN_FRAGMENT_EXTENT || reg.next_id > u64::MAX - 4 {
        return ;
    }
    let off_x: i64 = (nw + FRAGMENT_GAP) / 2;
    let off_y: i64 = (nh + FRAGMENT_GAP) / 2;
    let size = Vec2 { x: nw, y: nh };
    let ghost parent = e;
    let ghost base = reg.next_id;
    let id0 = reg.next_id;
    reg.entities.push(
        Entity {
            id: id0,
            pos: Vec2 { x: e.pos.x - off_x, y: e.pos.y - off_y },
            size,
            kind: EntityKind::Fragment,
        },
    );
    reg.entities.push(
        Entity {
            id: id0 + 1,
            pos: Vec2 { x: e.pos.x + off_x, y: e.pos.y - off_y },
            size,
            kind: EntityKind::Fragment,
        },
    );
    reg.entities.push(
        Entity {
            id: id0 + 2,
            pos: Vec2 { x: e.pos.x - off_x, y: e.pos.y + off_y },
            size,
            kind: EntityKind::Fragment,
        },
    );
    reg.entities.push(
        Entity {
            id: id0 + 3,
            pos: Vec2 { x: e.pos.x + off_x, y: e.pos.y + off_y },
            size,
            kind: EntityKind::Fragment,
        },
    );
    reg.next_id = id0 + 4;
    proof {
        let old_s = old(reg)@;
        let rem = old_s.remove(idx as int);
        assert(reg@ =~= rem + seq![
            fragment_at(parent, base, -1, -1),
            fragment_at(parent, (base + 1) as u64, 1, -1),
            fragment_at(parent, (base + 2) as u64, -1, 1),
            fragment_at(parent, (base + 3) as u64, 1, 1),
        ]);
    }
}

/// Drain a whole tick's fracture requests in emission order.
pub fn fracture_all(reg: &mut Registry, frs: &Vec<FractureRequest>)
    requires
        old(reg).wf(),
    ensures
        final(reg).wf(),
        final(reg)@ == fracture_all_spec(old(reg)@, old(reg).fresh(), frs@).0,
        final(reg).fresh() == fracture_all_spec(old(reg)@, old(reg).fresh(), frs@).1,
{
    let n = frs.len();
    let mut i: usize = 0;
    while i < n
        invariant
            n == frs@.len(),
            i <= n,
            reg.wf(),
            reg@ == fracture_all_spec(old(reg)@, old(reg).fresh(), frs@.subrange(0, i as int)).0,
            reg.fresh() == fracture_all_spec(
                old(reg)@,
                old(reg).fresh(),
                frs@.subrange(0, i as int),
            ).1,
        decreases n - i,
    {
        proof {
            assert(frs@.subrange(0, i + 1 as int).drop_last() =~= frs@.subrange(0, i as int));
            assert(frs@.subrange(0, i + 1 as int).last() == frs@[i as int]);
        }
        let target = frs[i].target;
        fracture(reg, target);
        i = i + 1;
    }
    proof {
        assert(frs@.subrange(0, n as int) =~= frs@);
    }
}

} // verus!
