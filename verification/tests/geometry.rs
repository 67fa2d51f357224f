use pyro_model::components::{Actor, Body, Projectile};
use pyro_model::config::{GunConfig, ProjectileConfig};
use pyro_model::geometry::{isqrt, rem_euclid, Angle, Collider, Position, Shape, Vec2};
use pyro_model::health::Health;

#[test]
fn integer_square_roots() {
    assert_eq!(isqrt(0), 0);
    assert_eq!(isqrt(24), 4);
    assert_eq!(isqrt(25), 5);
    assert_eq!(isqrt(u128::MAX), u64::MAX);
}

#[test]
fn remainders_are_never_negative() {
    assert_eq!(rem_euclid(7, 5), 2);
    assert_eq!(rem_euclid(-7, 5), 3);
    assert_eq!(rem_euclid(-10, 5), 0);
}

#[test]
fn length_of_a_three_four_vector() {
    assert_eq!(Vec2 { x: 3000, y: -4000 }.len(), 5000);
    assert_eq!(Vec2 { x: i64::MIN, y: i64::MIN }.len(), i64::MAX);
}

#[test]
fn normalize_scales_to_one_unit() {
    assert_eq!(Vec2 { x: 3000, y: 4000 }.normalize_or_zero(), Vec2 { x: 600, y: 800 });
    assert_eq!(Vec2 { x: -10, y: 0 }.normalize_or_zero(), Vec2 { x: -1000, y: 0 });
    assert_eq!(Vec2::zero().normalize_or_zero(), Vec2 { x: 0, y: 0 });
}

#[test]
fn vector_arithmetic() {
    let a = Vec2 { x: 1000, y: 2000 };
    let b = Vec2 { x: 500, y: -500 };
    assert_eq!(a.add(b), Vec2 { x: 1500, y: 1500 });
    assert_eq!(a.sub(b), Vec2 { x: 500, y: 2500 });
    assert_eq!(a.scale(1500), Vec2 { x: 1500, y: 3000 });
}

#[test]
fn direction_takes_the_short_way_round() {
    let world = Vec2 { x: 10000, y: 10000 };
    let a = Position { x: 1000, y: 5000 };
    let b = Position { x: 9000, y: 5000 };
    assert_eq!(a.direction(b, world), Vec2 { x: -2000, y: 0 });
    assert_eq!(b.direction(a, world), Vec2 { x: 2000, y: 0 });
    assert_eq!(a.distance(b, world), 2000);
}

#[test]
fn direction_at_half_the_world() {
    let world = Vec2 { x: 10000, y: 10000 };
    let a = Position { x: 0, y: 0 };
    let b = Position { x: 5000, y: 0 };
    assert_eq!(a.direction(b, world), Vec2 { x: 5000, y: 0 });
    assert_eq!(b.direction(a, world), Vec2 { x: 5000, y: 0 });
}

#[test]
fn shift_wraps_around() {
    let world = Vec2 { x: 10000, y: 8000 };
    let mut p = Position { x: 9500, y: 500 };
    p.shift(Vec2 { x: 1000, y: -1000 }, world);
    assert_eq!(p, Position { x: 500, y: 7500 });
}

#[test]
fn collider_is_unrotated() {
    let c = Collider::new(Position { x: 1, y: 2 }, Shape::Circle { radius: 3 });
    assert_eq!(c.rotation, Angle { millidegrees: 0 });
    assert_eq!(c.position, Position { x: 1, y: 2 });
}

#[test]
fn body_new_and_with_velocity() {
    let b = Body::new(Position { x: 1, y: 2 }, Shape::Rectangle { width: 4, height: 5 });
    assert_eq!(b.velocity, Vec2 { x: 0, y: 0 });
    let moving = b.with_velocity(Vec2 { x: 7, y: 8 });
    assert_eq!(moving.velocity, Vec2 { x: 7, y: 8 });
    assert_eq!(moving.collider, b.collider);
}

fn projectile_config() -> ProjectileConfig {
    ProjectileConfig { speed: 2000, damage: 1500, shape: Shape::Circle { radius: 100 } }
}

#[test]
fn projectile_flies_toward_its_target() {
    let p = Projectile::new(Position { x: 0, y: 0 }, Position { x: 3000, y: 4000 }, projectile_config());
    assert_eq!(p.body.velocity, Vec2 { x: 1200, y: 1600 });
    assert_eq!(p.damage, 1500);
    assert_eq!(p.body.collider.position, Position { x: 0, y: 0 });
}

#[test]
fn projectile_at_its_target_stands_still() {
    let p = Projectile::new(Position { x: 5, y: 5 }, Position { x: 5, y: 5 }, projectile_config());
    assert_eq!(p.body.velocity, Vec2 { x: 0, y: 0 });
}

#[test]
fn actor_new_is_unhurt_and_armed() {
    let gun = GunConfig { shot_delay: 300, projectile: projectile_config() };
    let a = Actor::new(Body::new(Position { x: 0, y: 0 }, Shape::Circle { radius: 1 }), 4000, gun);
    assert_eq!(a.health, Health { value: 4000, max: 4000 });
    assert_eq!(a.gun.unwrap().shot_delay, 0);
    assert!(a.on_fire.is_none());
    assert_eq!(a.stats.vulnerability.fire, 1000);
}

#[test]
fn short_vectors_normalize_to_length_one() {
    let v = Vec2 { x: 1, y: 1 }.normalize_or_zero();
    assert_eq!(v, Vec2 { x: 707, y: 707 });
    let w = Vec2 { x: -1, y: 2 }.normalize_or_zero();
    assert_eq!(w, Vec2 { x: -447, y: 894 });
    let huge = Vec2 { x: i64::MAX, y: i64::MAX }.normalize_or_zero();
    assert_eq!(huge, Vec2 { x: 707, y: 707 });
}

#[test]
fn projectile_to_a_close_target_keeps_its_speed() {
    let p = Projectile::new(Position { x: 0, y: 0 }, Position { x: 1, y: 1 }, projectile_config());
    assert_eq!(p.body.velocity, Vec2 { x: 1414, y: 1414 });
}
