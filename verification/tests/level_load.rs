//! Batch level loading and the rendering snapshot colours.

use bricksim::damage::{entity_color, Rgb};
use bricksim::geometry::Vec2;
use bricksim::registry::{GeometryError, Registry};

#[test]
fn load_level_spawns_every_brick_in_order() {
    let mut reg = Registry::new();
    let pairs = vec![
        (Vec2 { x: 0, y: 0 }, Vec2 { x: 16, y: 16 }),
        (Vec2 { x: 32, y: 0 }, Vec2 { x: 16, y: 16 }),
        (Vec2 { x: 64, y: 0 }, Vec2 { x: 16, y: 16 }),
    ];
    let ids = reg.load_level(&pairs).unwrap();
    assert_eq!(ids, vec![0, 1, 2]);
    assert_eq!(reg.len(), 3);
    for (i, id) in ids.iter().enumerate() {
        assert_eq!(reg.health_of(*id), Some(100));
        assert_eq!(reg.position_of(*id), Some(pairs[i].0));
        assert_eq!(reg.size_of(*id), Some(pairs[i].1));
    }
}

#[test]
fn load_level_stops_at_the_first_malformed_pair() {
    let mut reg = Registry::new();
    let pairs = vec![
        (Vec2 { x: 0, y: 0 }, Vec2 { x: 16, y: 16 }),
        (Vec2 { x: 32, y: 0 }, Vec2 { x: 16, y: 0 }),
        (Vec2 { x: 64, y: 0 }, Vec2 { x: 16, y: 16 }),
    ];
    let r = reg.load_level(&pairs);
    assert_eq!(r, Err(GeometryError::NonPositiveExtent));
    // The valid prefix stays spawned; nothing after the bad pair does.
    assert_eq!(reg.len(), 1);
    assert_eq!(reg.health_of(0), Some(100));
}

#[test]
fn snapshot_colors_by_kind() {
    let mut reg = Registry::new();
    reg.spawn_destructible(Vec2 { x: 0, y: 0 }, Vec2 { x: 16, y: 16 })
        .unwrap();
    reg.spawn_fragment(Vec2 { x: 40, y: 0 }, Vec2 { x: 8, y: 8 })
        .unwrap();
    reg.spawn_projectile(Vec2 { x: 80, y: 0 }, Vec2 { x: 1, y: 0 })
        .unwrap();
    let recs = reg.records();
    assert_eq!(entity_color(&recs[0]), Rgb { r: 0, g: 100, b: 0 });
    assert_eq!(entity_color(&recs[1]), Rgb { r: 0, g: 0, b: 100 });
    assert_eq!(entity_color(&recs[2]), Rgb { r: 80, g: 0, b: 0 });
}
