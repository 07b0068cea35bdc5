//! The spawn boundary, position updates and the lifetime sweeper.

use bricksim::entity::EntityKind;
use bricksim::geometry::Vec2;
use bricksim::registry::{GeometryError, Registry};
use bricksim::sweeper::sweep;
use bricksim::{MAX_COORD, MAX_EXTENT};

#[test]
fn zero_extent_is_rejected() {
    let mut reg = Registry::new();
    let r = reg.spawn_destructible(Vec2 { x: 0, y: 0 }, Vec2 { x: 0, y: 16 });
    assert_eq!(r, Err(GeometryError::NonPositiveExtent));
    assert_eq!(reg.len(), 0);
}

#[test]
fn negative_extent_is_rejected() {
    let mut reg = Registry::new();
    let r = reg.spawn_fragment(Vec2 { x: 0, y: 0 }, Vec2 { x: 8, y: -8 });
    assert_eq!(r, Err(GeometryError::NonPositiveExtent));
}

#[test]
fn oversized_extent_is_rejected() {
    let mut reg = Registry::new();
    let r = reg.spawn_destructible(Vec2 { x: 0, y: 0 }, Vec2 { x: MAX_EXTENT + 1, y: 16 });
    assert_eq!(r, Err(GeometryError::ExtentTooLarge));
}

#[test]
fn far_position_is_rejected() {
    let mut reg = Registry::new();
    let r = reg.spawn_destructible(Vec2 { x: MAX_COORD + 1, y: 0 }, Vec2 { x: 16, y: 16 });
    assert_eq!(r, Err(GeometryError::PositionOutOfRange));
    let r2 = reg.spawn_projectile(Vec2 { x: 0, y: -MAX_COORD - 1 }, Vec2 { x: 1, y: 0 });
    assert_eq!(r2, Err(GeometryError::PositionOutOfRange));
}

#[test]
fn identifiers_are_sequential() {
    let mut reg = Registry::new();
    let a = reg
        .spawn_destructible(Vec2 { x: 0, y: 0 }, Vec2 { x: 16, y: 16 })
        .unwrap();
    let b = reg
        .spawn_fragment(Vec2 { x: 30, y: 0 }, Vec2 { x: 8, y: 8 })
        .unwrap();
    let c = reg
        .spawn_projectile(Vec2 { x: 60, y: 0 }, Vec2 { x: 1, y: 0 })
        .unwrap();
    assert_eq!((a, b, c), (0, 1, 2));
    assert!(reg.is_destructible(a));
    assert!(!reg.is_projectile(a));
    assert!(reg.is_projectile(c));
    assert!(!reg.is_destructible(c));
    assert!(!reg.is_destructible(b) && !reg.is_projectile(b));
}

#[test]
fn projectiles_carry_the_fixed_footprint() {
    let mut reg = Registry::new();
    let shot = reg
        .spawn_projectile(Vec2 { x: 5, y: 6 }, Vec2 { x: 9, y: -9 })
        .unwrap();
    assert_eq!(reg.size_of(shot), Some(Vec2 { x: 8, y: 8 }));
    assert_eq!(reg.position_of(shot), Some(Vec2 { x: 5, y: 6 }));
    assert_eq!(
        reg.records()[0].kind,
        EntityKind::Projectile { impulse: Vec2 { x: 9, y: -9 } }
    );
}

#[test]
fn position_updates_follow_physics() {
    let mut reg = Registry::new();
    let shot = reg
        .spawn_projectile(Vec2 { x: 0, y: 0 }, Vec2 { x: 1, y: 0 })
        .unwrap();
    assert_eq!(reg.update_position(shot, Vec2 { x: 40, y: 3 }), Ok(()));
    assert_eq!(reg.position_of(shot), Some(Vec2 { x: 40, y: 3 }));
    // A stale identifier is absorbed silently.
    assert_eq!(reg.update_position(999, Vec2 { x: 1, y: 1 }), Ok(()));
    // An out-of-range position is rejected.
    assert_eq!(
        reg.update_position(shot, Vec2 { x: MAX_COORD + 1, y: 0 }),
        Err(GeometryError::PositionOutOfRange)
    );
    assert_eq!(reg.position_of(shot), Some(Vec2 { x: 40, y: 3 }));
}

#[test]
fn sweep_without_viewpoints_removes_nothing() {
    let mut reg = Registry::new();
    reg.spawn_projectile(Vec2 { x: 500_000, y: 0 }, Vec2 { x: 1, y: 0 })
        .unwrap();
    reg.spawn_destructible(Vec2 { x: -500_000, y: 0 }, Vec2 { x: 16, y: 16 })
        .unwrap();
    sweep(&mut reg, &Vec::new());
    assert_eq!(reg.len(), 2);
}

#[test]
fn sweep_threshold_is_strict() {
    let mut reg = Registry::new();
    let at_limit = reg
        .spawn_projectile(Vec2 { x: 1000, y: 0 }, Vec2 { x: 1, y: 0 })
        .unwrap();
    let past_limit = reg
        .spawn_projectile(Vec2 { x: 1001, y: 0 }, Vec2 { x: 1, y: 0 })
        .unwrap();
    let viewpoints = vec![Vec2 { x: 0, y: 0 }];
    sweep(&mut reg, &viewpoints);
    assert!(reg.contains(at_limit));
    assert!(!reg.contains(past_limit));
}

#[test]
fn sweep_requires_distance_from_every_viewpoint() {
    let mut reg = Registry::new();
    let shot = reg
        .spawn_projectile(Vec2 { x: 2000, y: 0 }, Vec2 { x: 1, y: 0 })
        .unwrap();
    // Far from the first viewpoint but near the second: retained.
    let viewpoints = vec![Vec2 { x: 0, y: 0 }, Vec2 { x: 1900, y: 0 }];
    sweep(&mut reg, &viewpoints);
    assert!(reg.contains(shot));
}

#[test]
fn sweep_removes_every_kind_of_entity() {
    let mut reg = Registry::new();
    reg.spawn_destructible(Vec2 { x: 5000, y: 0 }, Vec2 { x: 16, y: 16 })
        .unwrap();
    reg.spawn_fragment(Vec2 { x: 0, y: 5000 }, Vec2 { x: 8, y: 8 })
        .unwrap();
    reg.spawn_projectile(Vec2 { x: -5000, y: 0 }, Vec2 { x: 1, y: 0 })
        .unwrap();
    let near = reg
        .spawn_destructible(Vec2 { x: 100, y: 100 }, Vec2 { x: 16, y: 16 })
        .unwrap();
    let viewpoints = vec![Vec2 { x: 0, y: 0 }];
    sweep(&mut reg, &viewpoints);
    assert_eq!(reg.len(), 1);
    assert!(reg.contains(near));
}
