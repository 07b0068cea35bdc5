//! Simulation core for a destructible 2-D structure under projectile impact.
//!
//! Rigid bricks absorb damage from projectile collisions, change visual state
//! as they weaken, and fracture into four smaller dynamic fragments when their
//! health reaches zero. The crate is organised as an explicit per-tick
//! pipeline over an entity registry:
//!
//! collision events -> classifier -> damage model -> fracture engine -> sweeper
//!
//! Physics integration, rendering and level loading are collaborators outside
//! this crate: they supply spawn positions, collision events and viewpoints,
//! and consume the registry snapshot. Coordinates, extents, health and
//! damage are integer units, and distances are compared through their
//! squares, so every computation is exact.

use vstd::prelude::*;

pub mod classifier;
pub mod damage;
pub mod entity;
pub mod fracture;
pub mod geometry;
pub mod laws;
pub mod pipeline;
pub mod registry;
pub mod sweeper;

verus! {

/// Health of a freshly spawned destructible brick.
pub const HEALTH_MAX: i64 = 100;

/// Damage dealt by one classified projectile impact.
pub const DAMAGE_PER_HIT: i64 = 50;

/// Visual separation between the fragments of a destroyed brick: each
/// fragment centre sits half of (fragment extent + gap) from the original
/// centre per axis, leaving one gap between adjacent fragment edges.
pub const FRAGMENT_GAP: i64 = 3;

/// Smallest extent a fragment may have; a fracture whose fragments would be
/// thinner than this dissolves the brick without spawning anything.
pub const MIN_FRAGMENT_EXTENT: i64 = 1;

/// An entity farther than this from every viewpoint is despawned.
pub const DESPAWN_DISTANCE: i64 = 1000;

/// Side length of the fixed square collision footprint every projectile
/// carries.
pub const PROJECTILE_EXTENT: i64 = 8;

/// Largest coordinate magnitude accepted at the spawn boundary.
pub const MAX_COORD: i64 = 1_000_000_000;

/// Largest extent accepted at the spawn boundary.
pub const MAX_EXTENT: i64 = 1_000_000;

/// Bound on the coordinates of every entity in a well-formed registry.
/// Fragments may sit at most half of (extent + gap) outside the spawn
/// range, so this bound keeps every squared distance inside `i64`.
pub const POS_LIMIT: i64 = MAX_COORD + MAX_EXTENT;

} // verus!
