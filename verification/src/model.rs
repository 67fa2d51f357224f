//! The state of a running game.

use std::collections::VecDeque;
use vstd::prelude::*;
use crate::gen::{can_generate, generated_from, placed_greedily};
use crate::arena::{Ageing, Arena, Id};
use crate::components::{Actor, ActorKind, Body, Gun, OnFire, Projectile, Stats, VulnerabilityStats};
use crate::config::{Config, ExplosionConfig, FireConfig, PlayerConfig};
use crate::geometry::{Collider, Position, Shape, Vec2};
use crate::health::{Health, Lifetime};
use crate::units::{Coord, Hp, Time};

verus! {

/// A color with 8-bit channels.
#[derive(Clone, Copy, Debug, PartialEq, Eq, Structural)]
pub struct Color {
    pub r: u8,
    pub g: u8,
    pub b: u8,
    pub a: u8,
}

impl Color {
    pub fn white() -> (c: Color)
        ensures
            c == (Color { r: 255, g: 255, b: 255, a: 255 }),
    {
        Color { r: 255, g: 255, b: 255, a: 255 }
    }
}

#[derive(Clone, Copy, Debug, PartialEq, Eq, Structural)]
pub struct Explosion {
    pub position: Position,
    pub max_radius: Coord,
    pub lifetime: Lifetime,
}

#[derive(Clone, Copy, Debug, PartialEq, Eq, Structural)]
pub struct Particle {
    pub position: Position,
    pub size: Coord,
    pub velocity: Vec2,
    pub lifetime: Lifetime,
    pub kind: ParticleKind,
}

#[derive(Clone, Copy, Debug, PartialEq, Eq, Structural)]
pub enum ParticleKind {
    Fire,
    Heal,
}

#[derive(Clone, Copy, Debug, PartialEq, Eq, Structural)]
pub struct Block {
    pub collider: Collider,
    pub health: Option<Health>,
    pub on_fire: Option<OnFire>,
    pub vulnerability: VulnerabilityStats,
    pub color: Color,
    pub kind: BlockKind,
    pub explosion: Option<ExplosionConfig>,
}

#[derive(Clone, Copy, Debug, PartialEq, Eq, Structural)]
pub enum BlockKind {
    Obstacle,
    Barrel,
}

/// A puddle of gasoline that can be set alight.
#[derive(Clone, Copy, Debug, PartialEq, Eq, Structural)]
pub struct Gasoline {
    pub collider: Collider,
    pub lifetime: Lifetime,
    pub ignite_timer: Time,
    pub fire_radius: Coord,
    pub explosion: ExplosionConfig,
    pub fire: FireConfig,
}

/// A burning area.
#[derive(Clone, Copy, Debug, PartialEq, Eq, Structural)]
pub struct Fire {
    pub collider: Collider,
    pub lifetime: Lifetime,
    pub config: FireConfig,
}

#[derive(Clone, Copy, Debug, PartialEq, Eq, Structural)]
pub struct PickUp {
    pub body: Body,
    pub kind: PickUpKind,
    pub lifetime: Lifetime,
}

#[derive(Clone, Copy, Debug, PartialEq, Eq, Structural)]
pub enum PickUpKind {
    Heal { hp: Hp },
}

/// Something that is to happen in the world.
#[derive(Clone, Copy, Debug, PartialEq, Eq, Structural)]
pub enum Effect {
    Explosion { position: Position, config: ExplosionConfig },
    Particles {
        position: Position,
        position_radius: Coord,
        velocity: Vec2,
        size: Coord,
        lifetime: Time,
        intensity: i64,
        kind: ParticleKind,
    },
}

#[derive(Clone, Copy, Debug, PartialEq, Eq, Structural)]
pub struct QueuedEffect {
    pub effect: Effect,
}

/// The player's own state besides its actor.
#[derive(Clone, Copy, Debug, PartialEq, Eq, Structural)]
pub struct Player {
    pub actor: Id,
    pub gasoline: Health,
    pub out_of_view: bool,
}

#[derive(Clone, Copy, Debug, PartialEq, Eq, Structural)]
pub struct Camera {
    pub center: Position,
    pub target_position: Position,
    pub fov: Coord,
}

/// The colors that blocks are painted in.
#[derive(Debug)]
pub struct Theme {
    pub foreground: Vec<Color>,
    pub background: Vec<Color>,
}

/// How to scatter one layer of blocks.
#[derive(Debug)]
pub struct ProcGenConfig {
    pub blocks_number: usize,
    /// The least distance between two blocks.
    pub spacing: Coord,
    pub blocks: Vec<BlockConfig>,
}

/// One variant of block and how often it is picked.
#[derive(Clone, Copy, Debug, PartialEq, Eq, Structural)]
pub struct BlockConfig {
    /// How often the variant is picked, relative to the others, in thousandths.
    pub weight: u32,
    pub kind: BlockKind,
    pub shape: Shape,
    pub health: Option<Hp>,
    pub vulnerability: VulnerabilityStats,
    pub explosion: Option<ExplosionConfig>,
}

#[derive(Debug)]
pub struct LevelConfig {
    pub foreground: ProcGenConfig,
    pub background: ProcGenConfig,
}

pub struct Model {
    pub theme: Theme,
    pub time: Time,
    /// The time at which the player was last seen alive.
    pub time_alive: Time,
    pub config: Config,
    pub level: LevelConfig,
    pub camera: Camera,
    pub player: Player,
    pub actors: Arena<Actor>,
    pub blocks: Arena<Block>,
    pub background_blocks: Arena<Block>,
    pub projectiles: Arena<Projectile>,
    pub gasoline: Arena<Gasoline>,
    pub fire: Arena<Fire>,
    pub explosions: Arena<Explosion>,
    pub particles: Arena<Particle>,
    pub pickups: Arena<PickUp>,
    pub queued_effects: VecDeque<QueuedEffect>,
}

impl Camera {
    /// A camera at the origin showing `fov` units.
    pub fn new(fov: Coord) -> (c: Camera)
        ensures
            c.center == Position::zero_spec(),
            c.target_position == Position::zero_spec(),
            c.fov == fov,
    {
        Camera { center: Position::zero(), target_position: Position::zero(), fov }
    }
}

impl Player {
    /// What `init` adds for the player: an unhurt human-shaped actor at the origin.
    pub open spec fn actor_spec(config: PlayerConfig) -> Actor {
        Actor {
            body: Body {
                collider: Collider::new_spec(Position::zero_spec(), config.human_state.shape),
                velocity: Vec2 { x: 0, y: 0 },
            },
            health: Health::new_spec(config.hp),
            gun: Some(Gun { config: config.gun, shot_delay: 0 }),
            on_fire: None,
            stats: Stats { vulnerability: VulnerabilityStats { fire: 1000 } },
            kind: ActorKind::Player,
        }
    }

    /// Adds the player's actor to `actors` and returns the player with a full tank.
    pub fn init(config: PlayerConfig, actors: &mut Arena<Actor>) -> (p: Player)
        requires
            old(actors).next_id() < u64::MAX,
        ensures
            p.actor == old(actors).next_id(),
            final(actors)@ == old(actors)@.push((p.actor, Player::actor_spec(config))),
            final(actors).next_id() == old(actors).next_id() + 1,
            p.gasoline == Health::new_spec(config.gasoline),
            !p.out_of_view,
    {
        let mut actor = Actor::new(
            Body::new(Position::zero(), config.human_state.shape),
            config.hp,
            config.gun,
        );
        actor.kind = ActorKind::Player;
        let id = actors.insert(actor);
        Player { actor: id, gasoline: Health::new(config.gasoline), out_of_view: false }
    }
}

impl Ageing for Gasoline {
    open spec fn aged(self, dt: i64) -> Self {
        Gasoline { lifetime: self.lifetime.changed(-dt), ..self }
    }

    open spec fn expired(self) -> bool {
        self.lifetime.dead()
    }

    fn age(self, dt: i64) -> (r: Self) {
        let mut lifetime = self.lifetime;
        lifetime.damage(dt);
        Gasoline { lifetime, ..self }
    }

    fn is_expired(&self) -> (r: bool) {
        self.lifetime.is_dead()
    }
}

impl Ageing for Fire {
    open spec fn aged(self, dt: i64) -> Self {
        Fire { lifetime: self.lifetime.changed(-dt), ..self }
    }

    open spec fn expired(self) -> bool {
        self.lifetime.dead()
    }

    fn age(self, dt: i64) -> (r: Self) {
        let mut lifetime = self.lifetime;
        lifetime.damage(dt);
        Fire { lifetime, ..self }
    }

    fn is_expired(&self) -> (r: bool) {
        self.lifetime.is_dead()
    }
}

/// Ageing a fire by `dt` takes exactly `dt` off what is left of it, stopping at zero; its
/// full lifetime, place and kind of fire stay, and it is over once nothing is left.
pub proof fn lemma_fire_ages_by_dt(f: Fire, dt: i64)
    requires
        f.lifetime.in_bounds(),
        dt >= 0,
    ensures
        f.aged(dt).lifetime.value == if f.lifetime.value >= dt { f.lifetime.value - dt } else { 0 },
        f.aged(dt).lifetime.max == f.lifetime.max,
        f.aged(dt).collider == f.collider,
        f.aged(dt).config == f.config,
        f.aged(dt).expired() <==> f.lifetime.value <= dt,
{
}

/// Ageing a puddle of gasoline by `dt` takes exactly `dt` off what is left of it, stopping
/// at zero; everything else about it stays, and it dries up once nothing is left.
pub proof fn lemma_gasoline_ages_by_dt(g: Gasoline, dt: i64)
    requires
        g.lifetime.in_bounds(),
        dt >= 0,
    ensures
        g.aged(dt).lifetime.value == if g.lifetime.value >= dt { g.lifetime.value - dt } else { 0 },
        g.aged(dt).lifetime.max == g.lifetime.max,
        g.aged(dt).collider == g.collider,
        g.aged(dt).ignite_timer == g.ignite_timer,
        g.aged(dt).fire_radius == g.fire_radius,
        g.aged(dt).explosion == g.explosion,
        g.aged(dt).fire == g.fire,
        g.aged(dt).expired() <==> g.lifetime.value <= dt,
{
}

/// Ageing an explosion by `dt` takes exactly `dt` off what is left of it, stopping at
/// zero; its place and size stay, and it is over once nothing is left.
pub proof fn lemma_explosion_ages_by_dt(e: Explosion, dt: i64)
    requires
        e.lifetime.in_bounds(),
        dt >= 0,
    ensures
        e.aged(dt).lifetime.value == if e.lifetime.value >= dt { e.lifetime.value - dt } else { 0 },
        e.aged(dt).lifetime.max == e.lifetime.max,
        e.aged(dt).position == e.position,
        e.aged(dt).max_radius == e.max_radius,
        e.aged(dt).expired() <==> e.lifetime.value <= dt,
{
}

impl Ageing for Explosion {
    open spec fn aged(self, dt: i64) -> Self {
        Explosion { lifetime: self.lifetime.changed(-dt), ..self }
    }

    open spec fn expired(self) -> bool {
        self.lifetime.dead()
    }

    fn age(self, dt: i64) -> (r: Self) {
        let mut lifetime = self.lifetime;
        lifetime.damage(dt);
        Explosion { lifetime, ..self }
    }

    fn is_expired(&self) -> (r: bool) {
        self.lifetime.is_dead()
    }
}

} // verus!

verus! {

impl Model {
    /// A new game: the player stands at the origin with a full tank, nothing else lives
    /// yet, and the level's blocks are scattered.
    pub fn new(theme: Theme, config: Config, level: LevelConfig) -> (m: Model)
        requires
            can_generate(level.foreground, theme.foreground@, config.world_size),
            can_generate(level.background, theme.background@, config.world_size),
        ensures
            m.time == 0,
            m.time_alive == 0,
            m.config == config,
            m.level == level,
            m.theme == theme,
            m.actors@ == seq![(0u64, Player::actor_spec(config.player))],
            m.actors.next_id() == 1,
            m.player == (Player { actor: 0, gasoline: Health::new_spec(config.player.gasoline), out_of_view: false }),
            m.camera == (Camera { center: Position::zero_spec(), target_position: Position::zero_spec(), fov: config.camera.fov }),
            m.projectiles@.len() == 0,
            m.gasoline@.len() == 0,
            m.fire@.len() == 0,
            m.explosions@.len() == 0,
            m.particles@.len() == 0,
            m.pickups@.len() == 0,
            m.gasoline.next_id() == 0,
            m.fire.next_id() == 0,
            m.pickups.next_id() == 0,
            m.queued_effects@.len() == 0,
            m.blocks@.len() <= level.foreground.blocks_number,
            level.foreground.blocks_number > 0 ==> m.blocks@.len() >= 1,
            placed_greedily(m.blocks@, level.foreground, config.world_size),
            placed_greedily(m.background_blocks@, level.background, config.world_size),
            level.foreground.spacing <= 0 ==> m.blocks@.len() == level.foreground.blocks_number,
            forall|k: int| 0 <= k < m.blocks@.len() ==> generated_from(
                (#[trigger] m.blocks@[k]).1,
                level.foreground,
                theme.foreground@,
                config.world_size,
            ),
            forall|a: int, b: int|
                0 <= a < b < m.blocks@.len() ==> (#[trigger] m.blocks@[a]).1.collider.position.distance_spec(
                    (#[trigger] m.blocks@[b]).1.collider.position,
                    config.world_size,
                ) >= level.foreground.spacing,
            m.background_blocks@.len() <= level.background.blocks_number,
            level.background.blocks_number > 0 ==> m.background_blocks@.len() >= 1,
            level.background.spacing <= 0 ==> m.background_blocks@.len() == level.background.blocks_number,
            forall|k: int| 0 <= k < m.background_blocks@.len() ==> generated_from(
                (#[trigger] m.background_blocks@[k]).1,
                level.background,
                theme.background@,
                config.world_size,
            ),
            forall|a: int, b: int|
                0 <= a < b < m.background_blocks@.len() ==> (#[trigger] m.background_blocks@[a]).1.collider.position.distance_spec(
                    (#[trigger] m.background_blocks@[b]).1.collider.position,
                    config.world_size,
                ) >= level.background.spacing,
    {
        let mut actors = Arena::new();
        let player = Player::init(config.player, &mut actors);
        let mut model = Model {
            theme,
            time: 0,
            time_alive: 0,
            camera: Camera::new(config.camera.fov),
            player,
            actors,
            blocks: Arena::new(),
            background_blocks: Arena::new(),
            projectiles: Arena::new(),
            gasoline: Arena::new(),
            fire: Arena::new(),
            explosions: Arena::new(),
            particles: Arena::new(),
            pickups: Arena::new(),
            queued_effects: VecDeque::new(),
            config,
            level,
        };
        proof {
            assert(model.actors@ =~= seq![(0u64, Player::actor_spec(config.player))]);
        }
        model.init();
        model
    }

    /// Prepares a new game's level.
    fn init(&mut self)
        requires
            can_generate(old(self).level.foreground, old(self).theme.foreground@, old(self).config.world_size),
            can_generate(old(self).level.background, old(self).theme.background@, old(self).config.world_size),
        ensures
            final(self).blocks@.len() <= old(self).level.foreground.blocks_number,
            old(self).level.foreground.blocks_number > 0 ==> final(self).blocks@.len() >= 1,
            placed_greedily(final(self).blocks@, old(self).level.foreground, old(self).config.world_size),
            placed_greedily(final(self).background_blocks@, old(self).level.background, old(self).config.world_size),
            old(self).level.foreground.spacing <= 0 ==> final(self).blocks@.len() == old(self).level.foreground.blocks_number,
            forall|k: int| 0 <= k < final(self).blocks@.len() ==> generated_from(
                (#[trigger] final(self).blocks@[k]).1,
                old(self).level.foreground,
                old(self).theme.foreground@,
                old(self).config.world_size,
            ),
            forall|a: int, b: int|
                0 <= a < b < final(self).blocks@.len() ==> (#[trigger] final(self).blocks@[a]).1.collider.position.distance_spec(
                    (#[trigger] final(self).blocks@[b]).1.collider.position,
                    old(self).config.world_size,
                ) >= old(self).level.foreground.spacing,
            final(self).background_blocks@.len() <= old(self).level.background.blocks_number,
            old(self).level.background.blocks_number > 0 ==> final(self).background_blocks@.len() >= 1,
            old(self).level.background.spacing <= 0 ==> final(self).background_blocks@.len() == old(self).level.background.blocks_number,
            forall|k: int| 0 <= k < final(self).background_blocks@.len() ==> generated_from(
                (#[trigger] final(self).background_blocks@[k]).1,
                old(self).level.background,
                old(self).theme.background@,
                old(self).config.world_size,
            ),
            forall|a: int, b: int|
                0 <= a < b < final(self).background_blocks@.len() ==> (#[trigger] final(self).background_blocks@[a]).1.collider.position.distance_spec(
                    (#[trigger] final(self).background_blocks@[b]).1.collider.position,
                    old(self).config.world_size,
                ) >= old(self).level.background.spacing,
            final(self).actors == old(self).actors,
            final(self).player == old(self).player,
            final(self).config == old(self).config,
            final(self).level == old(self).level,
            final(self).theme == old(self).theme,
            final(self).time == old(self).time,
            final(self).time_alive == old(self).time_alive,
            final(self).camera == old(self).camera,
            final(self).projectiles == old(self).projectiles,
            final(self).gasoline == old(self).gasoline,
            final(self).fire == old(self).fire,
            final(self).explosions == old(self).explosions,
            final(self).particles == old(self).particles,
            final(self).pickups == old(self).pickups,
            final(self).queued_effects@ == old(self).queued_effects@,
    {
        self.generate_level();
    }
}

} // verus!
