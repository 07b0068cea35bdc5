//! Damage accounting, stale-request idempotence and the derived visuals.

use bricksim::classifier::DamageRequest;
use bricksim::damage::{
    apply_damage, apply_damage_all, health_color, visual_intensity, FractureRequest, Rgb,
};
use bricksim::fracture::fracture;
use bricksim::geometry::Vec2;
use bricksim::registry::Registry;

#[test]
fn damage_accumulates_exactly() {
    let mut reg = Registry::new();
    let brick = reg
        .spawn_destructible(Vec2 { x: 0, y: 0 }, Vec2 { x: 16, y: 16 })
        .unwrap();
    assert_eq!(apply_damage(&mut reg, brick, 10), None);
    assert_eq!(reg.health_of(brick), Some(90));
    assert_eq!(apply_damage(&mut reg, brick, 0), None);
    assert_eq!(reg.health_of(brick), Some(90));
    assert_eq!(apply_damage(&mut reg, brick, 25), None);
    assert_eq!(reg.health_of(brick), Some(65));
}

#[test]
fn overkill_damage_emits_one_request_per_application() {
    let mut reg = Registry::new();
    let brick = reg
        .spawn_destructible(Vec2 { x: 0, y: 0 }, Vec2 { x: 16, y: 16 })
        .unwrap();
    let fr = apply_damage(&mut reg, brick, 150);
    assert_eq!(fr, Some(FractureRequest { target: brick }));
    assert_eq!(reg.health_of(brick), Some(-50));
    // A further hit on the not-yet-fractured brick emits another request;
    // the fracture engine absorbs the duplicate later.
    let fr2 = apply_damage(&mut reg, brick, 1);
    assert_eq!(fr2, Some(FractureRequest { target: brick }));
}

#[test]
fn damage_queue_drains_in_order() {
    let mut reg = Registry::new();
    let brick = reg
        .spawn_destructible(Vec2 { x: 0, y: 0 }, Vec2 { x: 16, y: 16 })
        .unwrap();
    let reqs = vec![
        DamageRequest { target: brick, amount: 50 },
        DamageRequest { target: brick, amount: 50 },
        DamageRequest { target: brick, amount: 50 },
    ];
    let frs = apply_damage_all(&mut reg, &reqs);
    // The second and the third application both leave health at or below
    // zero, so both emit a request.
    assert_eq!(
        frs,
        vec![
            FractureRequest { target: brick },
            FractureRequest { target: brick },
        ]
    );
    assert_eq!(reg.health_of(brick), Some(-50));
}

#[test]
fn stale_damage_request_is_a_noop() {
    let mut reg = Registry::new();
    reg.spawn_destructible(Vec2 { x: 0, y: 0 }, Vec2 { x: 16, y: 16 })
        .unwrap();
    let before = reg.records().clone();
    let fr = apply_damage(&mut reg, 12345, 50);
    assert_eq!(fr, None);
    assert_eq!(reg.records(), &before);
    assert_eq!(reg.len(), 1);
}

#[test]
fn stale_fracture_request_is_a_noop() {
    let mut reg = Registry::new();
    reg.spawn_destructible(Vec2 { x: 0, y: 0 }, Vec2 { x: 16, y: 16 })
        .unwrap();
    let before = reg.records().clone();
    fracture(&mut reg, 12345);
    assert_eq!(reg.records(), &before);
}

#[test]
fn damage_against_a_projectile_is_a_noop() {
    let mut reg = Registry::new();
    let shot = reg
        .spawn_projectile(Vec2 { x: 0, y: 0 }, Vec2 { x: 1, y: 1 })
        .unwrap();
    let before = reg.records().clone();
    let fr = apply_damage(&mut reg, shot, 50);
    assert_eq!(fr, None);
    assert_eq!(reg.records(), &before);
    assert_eq!(reg.health_of(shot), None);
}

#[test]
fn intensity_tracks_missing_health_and_clamps() {
    assert_eq!(visual_intensity(100), 0);
    assert_eq!(visual_intensity(75), 25);
    assert_eq!(visual_intensity(50), 50);
    assert_eq!(visual_intensity(1), 99);
    assert_eq!(visual_intensity(0), 100);
    assert_eq!(visual_intensity(-50), 100);
    assert_eq!(visual_intensity(1000), 0);
}

#[test]
fn color_interpolates_from_green_to_red() {
    assert_eq!(health_color(100), Rgb { r: 0, g: 100, b: 0 });
    assert_eq!(health_color(25), Rgb { r: 75, g: 25, b: 0 });
    assert_eq!(health_color(0), Rgb { r: 100, g: 0, b: 0 });
}
