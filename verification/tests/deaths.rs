use pyro_model::components::{Actor, ActorKind, Body, OnFire};
use pyro_model::config::{
    CameraConfig, Config, ExplosionConfig, FireConfig, GasolineConfig, GunConfig, PickupsConfig, PlayerConfig,
    PlayerStateConfig, ProjectileConfig,
};
use pyro_model::geometry::{Collider, Position, Shape, Vec2};
use pyro_model::health::Health;
use pyro_model::model::{
    Block, BlockKind, Color, Effect, LevelConfig, Model, PickUpKind, ProcGenConfig, QueuedEffect, Theme,
};

fn explosion_config() -> ExplosionConfig {
    ExplosionConfig { radius: 6000, knockback: 1000, damage: 2000, ignite_gasoline: false, ignite: None }
}

fn death_blast() -> ExplosionConfig {
    ExplosionConfig { radius: 3000, knockback: 500, damage: 500, ignite_gasoline: true, ignite: None }
}

fn config(chance: i64, death_explosion: Option<ExplosionConfig>) -> Config {
    let gasoline = GasolineConfig {
        lifetime: 10000,
        ignite_timer: 500,
        explosion: explosion_config(),
        fire: FireConfig { on_fire: OnFire { duration: 3000, damage_per_second: 1000 } },
    };
    let state = PlayerStateConfig { shape: Shape::Circle { radius: 500 }, gasoline };
    Config {
        player: PlayerConfig {
            human_state: state,
            barrel_state: state,
            speed: 5000,
            acceleration: 20000,
            hp: 10000,
            gasoline: 100000,
            gun: GunConfig { shot_delay: 300, projectile: ProjectileConfig { speed: 20000, damage: 1000, shape: Shape::Circle { radius: 100 } } },
        },
        camera: CameraConfig { fov: 30000, speed: 2000, dead_zone: 2000 },
        world_size: Vec2 { x: 100000, y: 100000 },
        death_explosion,
        death_drop_heal_chance: chance,
        pickups: PickupsConfig { size: 300, heal_amount: 2000, attract_radius: 5000, max_speed: 10000, attract_strength: 4000 },
    }
}

fn model(chance: i64, death_explosion: Option<ExplosionConfig>) -> Model {
    let level = LevelConfig {
        foreground: ProcGenConfig { blocks_number: 0, spacing: 0, blocks: Vec::new() },
        background: ProcGenConfig { blocks_number: 0, spacing: 0, blocks: Vec::new() },
    };
    let mut m = Model::new(Theme { foreground: Vec::new(), background: Vec::new() }, config(chance, death_explosion), level);
    m.player.gasoline.value = 10000;
    m
}

fn actor(x: i64, hp: i64, kind: ActorKind) -> Actor {
    let cfg = config(0, None);
    let mut a = Actor::new(Body::new(Position { x, y: 0 }, Shape::Circle { radius: 500 }), hp, cfg.player.gun);
    a.kind = kind;
    a
}

fn dead(x: i64, kind: ActorKind) -> Actor {
    let mut a = actor(x, 1000, kind);
    a.health.value = 0;
    a
}

#[test]
fn dead_actors_leave_and_fill_the_tank() {
    let mut m = model(0, Some(death_blast()));
    let a = m.actors.insert(dead(1000, ActorKind::Enemy));
    let b = m.actors.insert(actor(2000, 1000, ActorKind::Enemy));
    let c = m.actors.insert(dead(3000, ActorKind::Enemy));
    m.check_deaths(16);
    assert!(m.actors.get(a).is_none());
    assert!(m.actors.get(b).is_some());
    assert!(m.actors.get(c).is_none());
    assert_eq!(m.player.gasoline.value, 50000);
    // The last standing dead is handled first.
    assert_eq!(
        m.queued_effects[0],
        QueuedEffect { effect: Effect::Explosion { position: Position { x: 3000, y: 0 }, config: death_blast() } }
    );
    assert_eq!(
        m.queued_effects[1],
        QueuedEffect { effect: Effect::Explosion { position: Position { x: 1000, y: 0 }, config: death_blast() } }
    );
    assert_eq!(m.pickups.len(), 0);
}

#[test]
fn certain_drops_leave_pickups() {
    let mut m = model(1000, None);
    m.actors.insert(dead(1000, ActorKind::Enemy));
    m.actors.insert(dead(4000, ActorKind::Enemy));
    m.check_deaths(16);
    assert_eq!(m.pickups.len(), 2);
    let (_, p) = m.pickups.entry(0);
    assert_eq!(p.body.collider.position, Position { x: 4000, y: 0 });
    assert_eq!(p.body.collider.shape, Shape::Circle { radius: 300 });
    assert_eq!(p.kind, PickUpKind::Heal { hp: 2000 });
    assert_eq!(p.lifetime, Health { value: 20000, max: 20000 });
    assert!(m.queued_effects.is_empty());
}

#[test]
fn resolve_deaths_follows_the_rolls() {
    let mut m = model(0, None);
    m.actors.insert(dead(1000, ActorKind::Enemy));
    m.actors.insert(dead(4000, ActorKind::Enemy));
    m.resolve_deaths(&vec![false, true], &Vec::new());
    assert_eq!(m.pickups.len(), 1);
    assert_eq!(m.pickups.entry(0).1.body.collider.position, Position { x: 1000, y: 0 });
}

#[test]
fn a_dying_boss_takes_its_feet() {
    let mut m = model(0, None);
    let foot1 = m.actors.insert(actor(1000, 5000, ActorKind::BossFoot));
    let body = m.actors.insert(dead(2000, ActorKind::BossBody));
    let foot2 = m.actors.insert(actor(3000, 5000, ActorKind::BossFoot));
    let other = m.actors.insert(actor(4000, 5000, ActorKind::Enemy));
    let order = m.death_order();
    let ids: Vec<u64> = order.iter().map(|e| e.0).collect();
    assert_eq!(ids, vec![body, foot2, foot1]);
    m.check_deaths(16);
    assert!(m.actors.get(foot1).is_none());
    assert!(m.actors.get(foot2).is_none());
    assert!(m.actors.get(body).is_none());
    assert!(m.actors.get(other).is_some());
    // One puddle at the origin, and the boss's blast.
    assert_eq!(m.gasoline.len(), 1);
    let (_, gas) = m.gasoline.entry(0);
    assert_eq!(gas.collider.shape, Shape::Circle { radius: 10000 });
    assert_eq!(gas.fire_radius, 50000);
    assert_eq!(gas.lifetime, Health { value: 10000, max: 10000 });
    assert_eq!(m.queued_effects.len(), 1);
    match m.queued_effects[0].effect {
        Effect::Explosion { position, config } => {
            assert_eq!(position, Position { x: 0, y: 0 });
            assert_eq!(config.radius, 100000);
            assert!(config.ignite_gasoline);
        },
        _ => panic!("expected an explosion"),
    }
    // Three deaths, twenty units each, up to the tank's size.
    assert_eq!(m.player.gasoline.value, 70000);
}

#[test]
fn a_later_dead_foot_goes_before_the_boss() {
    let mut m = model(0, None);
    let body = m.actors.insert(dead(2000, ActorKind::BossBody));
    let foot = m.actors.insert(dead(3000, ActorKind::BossFoot));
    let live_foot = m.actors.insert(actor(5000, 10, ActorKind::BossFoot));
    let ids: Vec<u64> = m.death_order().iter().map(|e| e.0).collect();
    assert_eq!(ids, vec![foot, body, live_foot]);
}

fn barrel(x: i64, hp: i64, explosion: Option<ExplosionConfig>) -> Block {
    Block {
        collider: Collider::new(Position { x, y: 0 }, Shape::Circle { radius: 1000 }),
        health: Some(Health { value: hp, max: 5000 }),
        on_fire: None,
        vulnerability: pyro_model::components::VulnerabilityStats { fire: 1000 },
        color: Color::white(),
        kind: BlockKind::Barrel,
        explosion,
    }
}

#[test]
fn dead_barrels_spill_and_explode() {
    let mut m = model(0, None);
    let blast = ExplosionConfig { radius: 9000, knockback: 100, damage: 3000, ignite_gasoline: true, ignite: None };
    let boom = m.blocks.insert(barrel(1000, 0, Some(blast)));
    let dud = m.blocks.insert(barrel(2000, 0, None));
    let whole = m.blocks.insert(barrel(3000, 10, Some(blast)));
    let mut stone = barrel(4000, 0, Some(blast));
    stone.kind = BlockKind::Obstacle;
    let stone = m.blocks.insert(stone);
    let mut wall = barrel(5000, 0, None);
    wall.health = None;
    let wall = m.blocks.insert(wall);
    m.check_deaths(16);
    assert!(m.blocks.get(boom).is_none());
    assert!(m.blocks.get(dud).is_none());
    assert!(m.blocks.get(stone).is_none());
    assert!(m.blocks.get(whole).is_some());
    assert!(m.blocks.get(wall).is_some());
    // Each dead barrel, with or without a blast, is replaced by a fresh one.
    assert_eq!(m.blocks.len(), 4);
    for i in 2..4 {
        let (id, fresh) = m.blocks.entry(i);
        assert!(id > wall);
        assert_eq!(fresh.kind, BlockKind::Barrel);
        assert_eq!(fresh.health, Some(Health { value: 5000, max: 5000 }));
        assert!(fresh.on_fire.is_none());
        assert_eq!(fresh.collider.rotation.millidegrees, 0);
        assert!(0 <= fresh.collider.position.x && fresh.collider.position.x < 100000);
        assert!(0 <= fresh.collider.position.y && fresh.collider.position.y < 100000);
    }
    assert_eq!(m.blocks.entry(2).1.explosion, Some(blast));
    assert_eq!(m.blocks.entry(3).1.explosion, None);
    assert_eq!(m.gasoline.len(), 1);
    let (_, gas) = m.gasoline.entry(0);
    assert_eq!(gas.collider.position, Position { x: 1000, y: 0 });
    assert_eq!(gas.collider.shape, Shape::Circle { radius: 3000 });
    assert_eq!(gas.fire_radius, 3000);
    assert_eq!(
        m.queued_effects[0],
        QueuedEffect { effect: Effect::Explosion { position: Position { x: 1000, y: 0 }, config: blast } }
    );
    assert_eq!(m.queued_effects.len(), 1);
}

#[test]
fn nothing_dies_nothing_changes() {
    let mut m = model(1000, Some(death_blast()));
    m.actors.insert(actor(1000, 10, ActorKind::Enemy));
    m.check_deaths(16);
    assert_eq!(m.actors.len(), 2);
    assert_eq!(m.player.gasoline.value, 10000);
    assert!(m.queued_effects.is_empty());
    assert_eq!(m.pickups.len(), 0);
}

#[test]
fn resolve_deaths_places_replacement_barrels() {
    let mut m = model(0, None);
    m.blocks.insert(barrel(1000, 0, None));
    m.resolve_deaths(&Vec::new(), &vec![Position { x: 7000, y: 8000 }]);
    assert_eq!(m.blocks.len(), 1);
    let (id, fresh) = m.blocks.entry(0);
    assert_eq!(id, 1);
    assert_eq!(fresh.collider.position, Position { x: 7000, y: 8000 });
    assert_eq!(fresh.health, Some(Health { value: 5000, max: 5000 }));
}
