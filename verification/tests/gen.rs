use pyro_model::components::VulnerabilityStats;
use pyro_model::gen::{generate_blocks, make_block};
use pyro_model::geometry::{Angle, Position, Shape, Vec2};
use pyro_model::health::Health;
use pyro_model::model::{BlockConfig, BlockKind, Color, ProcGenConfig};

fn variant(weight: u32, kind: BlockKind) -> BlockConfig {
    BlockConfig {
        weight,
        kind,
        shape: Shape::Circle { radius: 500 },
        health: Some(3000),
        vulnerability: VulnerabilityStats { fire: 1000 },
        explosion: None,
    }
}

fn palette() -> Vec<Color> {
    vec![Color { r: 10, g: 20, b: 30, a: 255 }, Color { r: 40, g: 50, b: 60, a: 255 }]
}

#[test]
fn blocks_keep_their_distance() {
    let world = Vec2 { x: 1_000_000, y: 1_000_000 };
    let config = ProcGenConfig { blocks_number: 20, spacing: 1000, blocks: vec![variant(3, BlockKind::Obstacle), variant(1, BlockKind::Barrel)] };
    let blocks = generate_blocks(&config, &palette(), world);
    assert!(blocks.len() <= 20);
    assert!(blocks.len() >= 2);
    for i in 0..blocks.len() {
        let (id, a) = blocks.entry(i);
        assert_eq!(id, i as u64);
        assert!(0 <= a.collider.position.x && a.collider.position.x < world.x);
        assert!(0 <= a.collider.position.y && a.collider.position.y < world.y);
        match a.kind {
            BlockKind::Barrel => {
                assert_eq!(a.color, Color::white());
                assert_eq!(a.collider.rotation.millidegrees, 0);
            },
            BlockKind::Obstacle => {
                assert!(palette().contains(&a.color));
                assert!(a.collider.rotation.millidegrees < 360_000);
            },
        }
        for j in (i + 1)..blocks.len() {
            let (_, b) = blocks.entry(j);
            assert!(a.collider.position.distance(b.collider.position, world) >= 1000);
        }
    }
}

#[test]
fn zero_weight_variants_are_never_picked() {
    let world = Vec2 { x: 1_000_000, y: 1_000_000 };
    let config = ProcGenConfig { blocks_number: 30, spacing: 0, blocks: vec![variant(0, BlockKind::Obstacle), variant(5, BlockKind::Barrel)] };
    let blocks = generate_blocks(&config, &Vec::new(), world);
    assert_eq!(blocks.len(), 30);
    for i in 0..blocks.len() {
        assert_eq!(blocks.entry(i).1.kind, BlockKind::Barrel);
        assert_eq!(blocks.entry(i).1.health.unwrap().value, 3000);
    }
}

#[test]
fn no_blocks_asked_none_made() {
    let config = ProcGenConfig { blocks_number: 0, spacing: 0, blocks: Vec::new() };
    let blocks = generate_blocks(&config, &Vec::new(), Vec2 { x: 10, y: 10 });
    assert_eq!(blocks.len(), 0);
}

#[test]
fn make_block_takes_the_variant() {
    let v = variant(1, BlockKind::Obstacle);
    let b = make_block(v, Position { x: 5, y: 6 }, Color::white(), Angle { millidegrees: 90_000 });
    assert_eq!(b.health, Some(Health { value: 3000, max: 3000 }));
    assert_eq!(b.collider.rotation.millidegrees, 90_000);
    assert_eq!(b.collider.shape, Shape::Circle { radius: 500 });
    assert!(b.on_fire.is_none());
    assert_eq!(b.kind, BlockKind::Obstacle);
}

#[test]
fn random_positions_lie_inside_the_world() {
    let mut rng = rand::thread_rng();
    let world = Vec2 { x: 50, y: 7 };
    for _ in 0..200 {
        let p = Position::random(&mut rng, world);
        assert!(0 <= p.x && p.x < 50);
        assert!(0 <= p.y && p.y < 7);
    }
}
