use pyro_model::arena::Arena;
use pyro_model::components::{Actor, ActorKind, Body, OnFire};
use pyro_model::config::{
    CameraConfig, Config, ExplosionConfig, FireConfig, GasolineConfig, GunConfig, PickupsConfig, PlayerConfig,
    PlayerStateConfig, ProjectileConfig,
};
use pyro_model::geometry::{Collider, Position, Shape, Vec2};
use pyro_model::health::Health;
use pyro_model::logic::update_on_fire;
use pyro_model::model::{
    Block, BlockKind, Color, Effect, Fire, Gasoline, LevelConfig, Model, ParticleKind, PickUp, PickUpKind,
    ProcGenConfig, QueuedEffect, Theme,
};

fn explosion_config() -> ExplosionConfig {
    ExplosionConfig { radius: 6000, knockback: 1000, damage: 2000, ignite_gasoline: false, ignite: None }
}

fn config() -> Config {
    let gasoline = GasolineConfig {
        lifetime: 10000,
        ignite_timer: 500,
        explosion: explosion_config(),
        fire: FireConfig { on_fire: OnFire { duration: 3000, damage_per_second: 1000 } },
    };
    let state = PlayerStateConfig { shape: Shape::Circle { radius: 500 }, gasoline };
    Config {
        player: PlayerConfig {
            human_state: state,
            barrel_state: state,
            speed: 5000,
            acceleration: 20000,
            hp: 10000,
            gasoline: 100000,
            gun: GunConfig { shot_delay: 300, projectile: ProjectileConfig { speed: 20000, damage: 1000, shape: Shape::Circle { radius: 100 } } },
        },
        camera: CameraConfig { fov: 30000, speed: 2000, dead_zone: 2000 },
        world_size: Vec2 { x: 100000, y: 100000 },
        death_explosion: None,
        death_drop_heal_chance: 0,
        pickups: PickupsConfig { size: 300, heal_amount: 2000, attract_radius: 5000, max_speed: 10000, attract_strength: 4000 },
    }
}

fn empty_level() -> LevelConfig {
    LevelConfig {
        foreground: ProcGenConfig { blocks_number: 0, spacing: 0, blocks: Vec::new() },
        background: ProcGenConfig { blocks_number: 0, spacing: 0, blocks: Vec::new() },
    }
}

fn model() -> Model {
    Model::new(Theme { foreground: Vec::new(), background: Vec::new() }, config(), empty_level())
}

fn enemy_at(x: i64, y: i64, hp: i64) -> Actor {
    let cfg = config();
    Actor::new(Body::new(Position { x, y }, Shape::Circle { radius: 500 }), hp, cfg.player.gun)
}

#[test]
fn new_model_holds_only_the_player() {
    let m = model();
    assert_eq!(m.actors.len(), 1);
    assert_eq!(m.player.actor, 0);
    assert_eq!(m.player.gasoline, Health { value: 100000, max: 100000 });
    let (_, player) = m.actors.entry(0);
    assert_eq!(player.kind, ActorKind::Player);
    assert_eq!(player.health.value, 10000);
    assert_eq!(m.time, 0);
    assert_eq!(m.blocks.len(), 0);
    assert_eq!(m.camera.fov, 30000);
    assert!(m.queued_effects.is_empty());
}

#[test]
fn merging_into_nothing_takes_the_update() {
    let u = OnFire { duration: 2000, damage_per_second: 500 };
    assert_eq!(update_on_fire(None, u), u);
}

#[test]
fn merging_takes_the_stronger_of_each() {
    let a = OnFire { duration: 5000, damage_per_second: 100 };
    let b = OnFire { duration: 2000, damage_per_second: 900 };
    let expected = OnFire { duration: 5000, damage_per_second: 900 };
    assert_eq!(update_on_fire(Some(a), b), expected);
    assert_eq!(update_on_fire(Some(b), a), expected);
    assert_eq!(update_on_fire(Some(a), a), a);
}

#[test]
fn merging_a_negative_update_into_nothing_stops_at_zero() {
    let u = OnFire { duration: -5, damage_per_second: -1 };
    assert_eq!(update_on_fire(None, u), OnFire { duration: 0, damage_per_second: 0 });
}

fn gasoline_at(x: i64, life: i64) -> Gasoline {
    let cfg = config();
    let gas = cfg.player.barrel_state.gasoline;
    Gasoline {
        collider: Collider::new(Position { x, y: 0 }, Shape::Circle { radius: 1000 }),
        lifetime: Health::new(life),
        ignite_timer: gas.ignite_timer,
        fire_radius: 4000,
        explosion: gas.explosion,
        fire: gas.fire,
    }
}

#[test]
fn gas_fire_and_explosions_expire() {
    let mut m = model();
    m.gasoline.insert(gasoline_at(0, 500));
    m.gasoline.insert(gasoline_at(1, 3000));
    m.fire.insert(Fire { collider: Collider::new(Position { x: 0, y: 0 }, Shape::Circle { radius: 1 }), lifetime: Health::new(1000), config: FireConfig { on_fire: OnFire { duration: 1, damage_per_second: 1 } } });
    m.explosions.insert(pyro_model::model::Explosion { position: Position { x: 0, y: 0 }, max_radius: 1, lifetime: Health::new(2000) });
    m.update_gas(1000);
    m.update_fire(1000);
    m.update_explosions(1000);
    assert_eq!(m.gasoline.len(), 1);
    assert_eq!(m.gasoline.entry(0).1.lifetime.value, 2000);
    assert_eq!(m.fire.len(), 0);
    assert_eq!(m.explosions.len(), 1);
    assert_eq!(m.explosions.entry(0).1.lifetime.value, 1000);
}

#[test]
fn burning_hurts_and_runs_out() {
    let mut m = model();
    let mut a = enemy_at(1000, 2000, 10000);
    a.on_fire = Some(OnFire { duration: 1500, damage_per_second: 4000 });
    a.stats.vulnerability.fire = 1500;
    let id = m.actors.insert(a);
    m.update_on_fire(1000);
    let burnt = m.actors.get(id).unwrap();
    // 4 hp per second, times 1.5, for one second.
    assert_eq!(burnt.health.value, 4000);
    assert_eq!(burnt.on_fire, Some(OnFire { duration: 500, damage_per_second: 4000 }));
    assert_eq!(m.queued_effects.len(), 1);
    assert_eq!(
        m.queued_effects[0],
        QueuedEffect {
            effect: Effect::Particles {
                position: Position { x: 1000, y: 2000 },
                position_radius: 2000,
                velocity: Vec2 { x: 0, y: 1000 },
                size: 200,
                lifetime: 1000,
                intensity: 4000,
                kind: ParticleKind::Fire,
            },
        }
    );
    m.update_on_fire(1000);
    let burnt = m.actors.get(id).unwrap();
    assert_eq!(burnt.on_fire, None);
    assert_eq!(burnt.health.value, 0);
}

fn block_at(x: i64, y: i64, health: Option<i64>, kind: BlockKind, explosion: Option<ExplosionConfig>) -> Block {
    Block {
        collider: Collider::new(Position { x, y }, Shape::Rectangle { width: 1000, height: 1000 }),
        health: health.map(Health::new),
        on_fire: None,
        vulnerability: pyro_model::components::VulnerabilityStats { fire: 1000 },
        color: Color::white(),
        kind,
        explosion,
    }
}

#[test]
fn blocks_without_health_do_not_burn() {
    let mut m = model();
    let mut hard = block_at(0, 0, None, BlockKind::Obstacle, None);
    hard.on_fire = Some(OnFire { duration: 100, damage_per_second: 1000 });
    let mut soft = block_at(5000, 0, Some(3000), BlockKind::Obstacle, None);
    soft.on_fire = Some(OnFire { duration: 5000, damage_per_second: 1000 });
    let h = m.blocks.insert(hard);
    let s = m.blocks.insert(soft);
    m.update_on_fire(2000);
    assert_eq!(m.blocks.get(h).unwrap().on_fire, Some(OnFire { duration: 100, damage_per_second: 1000 }));
    assert_eq!(m.blocks.get(s).unwrap().health, Some(Health { value: 1000, max: 3000 }));
    assert_eq!(m.blocks.get(s).unwrap().on_fire, Some(OnFire { duration: 3000, damage_per_second: 1000 }));
    assert_eq!(m.queued_effects.len(), 1);
}

#[test]
fn igniting_gasoline_makes_fire_and_explodes() {
    let mut m = model();
    let g = m.gasoline.insert(gasoline_at(7000, 5000));
    m.ignite_gasoline(g);
    assert_eq!(m.gasoline.len(), 0);
    assert_eq!(m.fire.len(), 1);
    let (_, fire) = m.fire.entry(0);
    assert_eq!(fire.lifetime, Health { value: 5000, max: 5000 });
    assert_eq!(fire.collider.shape, Shape::Circle { radius: 4000 });
    assert_eq!(fire.collider.position, Position { x: 7000, y: 0 });
    assert_eq!(
        m.queued_effects[0],
        QueuedEffect { effect: Effect::Explosion { position: Position { x: 7000, y: 0 }, config: explosion_config() } }
    );
    // A puddle that is gone does nothing.
    m.ignite_gasoline(g);
    assert_eq!(m.fire.len(), 1);
    assert_eq!(m.queued_effects.len(), 1);
}

#[test]
fn player_position_and_volume() {
    let mut m = model();
    assert_eq!(m.get_player_pos(), Some(Position { x: 0, y: 0 }));
    // Within one unit the volume is full.
    assert_eq!(m.get_volume_from(Position { x: 500, y: 0 }), 1000);
    // At 40 units: (40 / 20)^2 = 4, so a quarter.
    assert_eq!(m.get_volume_from(Position { x: 40000, y: 0 }), 250);
    // Full up to twenty units, then less.
    assert_eq!(m.get_volume_from(Position { x: 20000, y: 0 }), 1000);
    assert_eq!(m.get_volume_from(Position { x: 20010, y: 0 }), 999);
    // Far away a sound is faint but still heard.
    assert_eq!(m.get_volume_from(Position { x: 45000, y: 45000 }), 98);
    m.actors.remove(m.player.actor);
    assert_eq!(m.get_player_pos(), None);
    m.camera.center = Position { x: 40000, y: 0 };
    assert_eq!(m.get_volume_from(Position { x: 40000, y: 0 }), 1000);
}

fn heal_pickup(x: i64, y: i64, life: i64) -> PickUp {
    PickUp {
        body: Body::new(Position { x, y }, Shape::Circle { radius: 300 }),
        kind: PickUpKind::Heal { hp: 2000 },
        lifetime: Health::new(life),
    }
}

#[test]
fn pickups_expire_and_are_pulled_in() {
    let mut m = model();
    let near = m.pickups.insert(heal_pickup(3000, 0, 20000));
    let far = m.pickups.insert(heal_pickup(40000, 0, 20000));
    let old = m.pickups.insert(heal_pickup(0, 0, 100));
    m.update_pickups(500);
    assert_eq!(m.pickups.len(), 2);
    assert!(m.pickups.get(old).is_none());
    // Toward the player at the origin: direction (-1, 0), pulled by 4 per second for half a second.
    assert_eq!(m.pickups.get(near).unwrap().body.velocity, Vec2 { x: -2000, y: 0 });
    assert_eq!(m.pickups.get(far).unwrap().body.velocity, Vec2 { x: 0, y: 0 });
    assert_eq!(m.pickups.get(near).unwrap().lifetime.value, 19500);
    assert_eq!(m.queued_effects.len(), 2);
    match m.queued_effects[0].effect {
        Effect::Particles { intensity, kind, .. } => {
            assert_eq!(intensity, 500);
            assert_eq!(kind, ParticleKind::Heal);
        },
        _ => panic!("expected particles"),
    }
}

#[test]
fn fading_pickup_sparkles_less() {
    let mut m = model();
    m.pickups.insert(heal_pickup(50000, 50000, 4000));
    m.update_pickups(1000);
    match m.queued_effects[0].effect {
        Effect::Particles { intensity, .. } => assert_eq!(intensity, 750.min(500)),
        _ => panic!("expected particles"),
    }
    m.update_pickups(2000);
    match m.queued_effects[1].effect {
        Effect::Particles { intensity, .. } => assert_eq!(intensity, 250),
        _ => panic!("expected particles"),
    }
}

#[test]
fn camera_follows_a_player_out_of_view() {
    let mut m = model();
    let id = m.player.actor;
    let mut player = *m.actors.get(id).unwrap();
    player.body.collider.position = Position { x: 20000, y: 0 };
    let i = m.actors.find(id).unwrap();
    m.actors.set(i, player);
    m.update_camera(100);
    assert!(m.player.out_of_view);
    assert_eq!(m.camera.target_position, Position { x: 20000, y: 0 });
    // 2 units per second for 0.1 s: a fifth of the way.
    assert_eq!(m.camera.center, Position { x: 4000, y: 0 });
}

#[test]
fn camera_stays_while_the_player_is_near() {
    let mut m = model();
    let id = m.player.actor;
    let mut player = *m.actors.get(id).unwrap();
    player.body.collider.position = Position { x: 5000, y: 0 };
    let i = m.actors.find(id).unwrap();
    m.actors.set(i, player);
    m.update_camera(100);
    assert!(!m.player.out_of_view);
    assert_eq!(m.camera.center, Position { x: 0, y: 0 });
}

#[test]
fn camera_stops_following_within_the_dead_zone() {
    let mut m = model();
    m.player.out_of_view = true;
    m.camera.target_position = Position { x: 9000, y: 0 };
    m.update_camera(1000);
    assert!(!m.player.out_of_view);
    assert_eq!(m.camera.target_position, Position { x: 9000, y: 0 });
    // A step of at most the whole way.
    assert_eq!(m.camera.center, Position { x: 9000, y: 0 });
}

#[test]
fn update_runs_a_tick() {
    let mut m = model();
    m.gasoline.insert(gasoline_at(0, 500));
    let dying = m.actors.insert(enemy_at(1000, 1000, 1000));
    let mut burning = *m.actors.get(dying).unwrap();
    burning.on_fire = Some(OnFire { duration: 5000, damage_per_second: 5000 });
    let i = m.actors.find(dying).unwrap();
    m.actors.set(i, burning);
    m.update(1000);
    assert_eq!(m.time, 1000);
    assert_eq!(m.time_alive, 1000);
    assert_eq!(m.gasoline.len(), 0);
    assert!(m.actors.get(dying).is_none());
    assert_eq!(m.actors.len(), 1);
    // The player's tank was already full.
    assert_eq!(m.player.gasoline.value, 100000);
}

#[test]
fn time_alive_stops_when_the_player_is_gone() {
    let mut m = model();
    m.update(500);
    m.actors.remove(m.player.actor);
    m.update(500);
    assert_eq!(m.time, 1000);
    assert_eq!(m.time_alive, 500);
}

#[test]
fn empty_arena_stays_empty() {
    let a: Arena<Fire> = Arena::new();
    assert_eq!(a.len(), 0);
}

#[test]
fn a_negative_view_puts_the_player_out_of_view() {
    let mut m = model();
    m.camera.fov = -1;
    m.config.camera.dead_zone = 0;
    m.update_camera(100);
    assert!(m.player.out_of_view);
    assert_eq!(m.camera.target_position, Position { x: 0, y: 0 });
}

#[test]
fn distant_sounds_stay_audible() {
    let mut m = model();
    m.config.world_size = Vec2 { x: 10_000_000, y: 10_000_000 };
    assert_eq!(m.get_volume_from(Position { x: 700_000, y: 0 }), 1);
    assert_eq!(m.get_volume_from(Position { x: 5_000_000, y: 0 }), 1);
}
