//! Classifier selectivity on every shape of collision pair.

use bricksim::classifier::{classify, classify_all, CollisionPair, CollisionPhase, DamageRequest};
use bricksim::geometry::Vec2;
use bricksim::registry::Registry;

fn arena() -> (Registry, u64, u64, u64, u64) {
    let mut reg = Registry::new();
    let brick_a = reg
        .spawn_destructible(Vec2 { x: 0, y: 0 }, Vec2 { x: 16, y: 16 })
        .unwrap();
    let brick_b = reg
        .spawn_destructible(Vec2 { x: 40, y: 0 }, Vec2 { x: 16, y: 16 })
        .unwrap();
    let shot_a = reg
        .spawn_projectile(Vec2 { x: 100, y: 0 }, Vec2 { x: -1, y: 0 })
        .unwrap();
    let shot_b = reg
        .spawn_projectile(Vec2 { x: 120, y: 0 }, Vec2 { x: -1, y: 0 })
        .unwrap();
    (reg, brick_a, brick_b, shot_a, shot_b)
}

fn started(a: u64, b: u64) -> CollisionPair {
    CollisionPair { a, b, phase: CollisionPhase::Started }
}

#[test]
fn projectile_hits_destructible_yields_one_request() {
    let (reg, brick_a, _, shot_a, _) = arena();
    let r = classify(&reg, &started(shot_a, brick_a));
    assert_eq!(r, Some(DamageRequest { target: brick_a, amount: 50 }));
}

#[test]
fn destructible_hit_by_projectile_yields_one_request() {
    let (reg, brick_a, _, shot_a, _) = arena();
    let r = classify(&reg, &started(brick_a, shot_a));
    assert_eq!(r, Some(DamageRequest { target: brick_a, amount: 50 }));
}

#[test]
fn two_destructibles_yield_nothing() {
    let (reg, brick_a, brick_b, _, _) = arena();
    assert_eq!(classify(&reg, &started(brick_a, brick_b)), None);
}

#[test]
fn two_projectiles_yield_nothing() {
    let (reg, _, _, shot_a, shot_b) = arena();
    assert_eq!(classify(&reg, &started(shot_a, shot_b)), None);
}

#[test]
fn unknown_identifiers_yield_nothing() {
    let (reg, brick_a, _, shot_a, _) = arena();
    assert_eq!(classify(&reg, &started(997, 998)), None);
    assert_eq!(classify(&reg, &started(shot_a, 998)), None);
    assert_eq!(classify(&reg, &started(997, brick_a)), None);
}

#[test]
fn ended_events_are_ignored() {
    let (reg, brick_a, _, shot_a, _) = arena();
    let ev = CollisionPair { a: shot_a, b: brick_a, phase: CollisionPhase::Ended };
    assert_eq!(classify(&reg, &ev), None);
}

#[test]
fn classify_all_keeps_arrival_order() {
    let (reg, brick_a, brick_b, shot_a, shot_b) = arena();
    let events = vec![
        started(shot_a, brick_b),
        started(brick_a, brick_b),
        started(brick_a, shot_b),
    ];
    let reqs = classify_all(&reg, &events);
    assert_eq!(
        reqs,
        vec![
            DamageRequest { target: brick_b, amount: 50 },
            DamageRequest { target: brick_a, amount: 50 },
        ]
    );
}
