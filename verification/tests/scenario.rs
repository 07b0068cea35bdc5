//! End-to-end scenarios through the public pipeline.

use bricksim::classifier::{CollisionPair, CollisionPhase};
use bricksim::damage::{apply_damage, health_color, FractureRequest, Rgb};
use bricksim::entity::EntityKind;
use bricksim::fracture::fracture;
use bricksim::geometry::Vec2;
use bricksim::pipeline::tick;
use bricksim::registry::Registry;

#[test]
fn brick_damage_and_fracture_scenario() {
    let mut reg = Registry::new();
    let brick = reg
        .spawn_destructible(Vec2 { x: 0, y: 0 }, Vec2 { x: 16, y: 16 })
        .unwrap();
    assert_eq!(reg.health_of(brick), Some(100));

    // First hit: health halves, colour sits halfway toward critical.
    let fr = apply_damage(&mut reg, brick, 50);
    assert_eq!(fr, None);
    assert_eq!(reg.health_of(brick), Some(50));
    assert_eq!(health_color(50), Rgb { r: 50, g: 50, b: 0 });
    assert!(reg.contains(brick));

    // Second hit: health reaches zero and a fracture request is emitted.
    let fr2 = apply_damage(&mut reg, brick, 50);
    assert_eq!(fr2, Some(FractureRequest { target: brick }));
    assert_eq!(reg.health_of(brick), Some(0));

    fracture(&mut reg, brick);
    assert!(!reg.contains(brick));
    assert_eq!(reg.len(), 4);

    let recs = reg.records().clone();
    let mut positions: Vec<(i64, i64)> = recs.iter().map(|e| (e.pos.x, e.pos.y)).collect();
    positions.sort();
    // Offset per axis: (8 + 3) / 2 = 5 on the integer grid.
    assert_eq!(positions, vec![(-5, -5), (-5, 5), (5, -5), (5, 5)]);
    for e in recs.iter() {
        assert_eq!(e.size, Vec2 { x: 8, y: 8 });
        assert_eq!(e.kind, EntityKind::Fragment);
    }
}

#[test]
fn far_projectile_swept_near_one_retained() {
    let mut reg = Registry::new();
    let far = reg
        .spawn_projectile(Vec2 { x: 1100, y: 0 }, Vec2 { x: 1, y: 0 })
        .unwrap();
    let near = reg
        .spawn_projectile(Vec2 { x: 900, y: 0 }, Vec2 { x: 1, y: 0 })
        .unwrap();
    let viewpoints = vec![Vec2 { x: 0, y: 0 }];
    tick(&mut reg, &Vec::new(), &viewpoints);
    assert!(!reg.contains(far));
    assert!(reg.contains(near));
    assert_eq!(reg.len(), 1);
}

#[test]
fn full_tick_destroys_brick() {
    let mut reg = Registry::new();
    let brick = reg
        .spawn_destructible(Vec2 { x: 0, y: 0 }, Vec2 { x: 16, y: 16 })
        .unwrap();
    let shot = reg
        .spawn_projectile(Vec2 { x: 20, y: 0 }, Vec2 { x: -3, y: 0 })
        .unwrap();
    let viewpoints = vec![Vec2 { x: 0, y: 0 }];

    // Two impacts in one tick: 100 damage in total, so the brick fractures
    // within the same tick.
    let events = vec![
        CollisionPair { a: shot, b: brick, phase: CollisionPhase::Started },
        CollisionPair { a: brick, b: shot, phase: CollisionPhase::Started },
    ];
    tick(&mut reg, &events, &viewpoints);
    assert!(!reg.contains(brick));
    assert!(reg.contains(shot));
    // The projectile plus four fragments survive the tick.
    assert_eq!(reg.len(), 5);
    let fragments = reg
        .records()
        .iter()
        .filter(|e| e.kind == EntityKind::Fragment)
        .count();
    assert_eq!(fragments, 4);
}

#[test]
fn one_hit_per_tick_takes_two_ticks() {
    let mut reg = Registry::new();
    let brick = reg
        .spawn_destructible(Vec2 { x: 0, y: 0 }, Vec2 { x: 16, y: 16 })
        .unwrap();
    let shot = reg
        .spawn_projectile(Vec2 { x: 20, y: 0 }, Vec2 { x: -3, y: 0 })
        .unwrap();
    let viewpoints = vec![Vec2 { x: 0, y: 0 }];
    let events = vec![CollisionPair { a: shot, b: brick, phase: CollisionPhase::Started }];

    tick(&mut reg, &events, &viewpoints);
    assert!(reg.contains(brick));
    assert_eq!(reg.health_of(brick), Some(50));

    tick(&mut reg, &events, &viewpoints);
    assert!(!reg.contains(brick));
    assert_eq!(reg.len(), 5);
}
