//! The parts that actors and projectiles are made of.

use vstd::prelude::*;
use crate::config::{GunConfig, ProjectileConfig};
use crate::geometry::{Collider, Position, Shape, Vec2};
use crate::health::Health;
use crate::units::{Hp, Ratio, Time, SCALE};

verus! {

#[derive(Clone, Copy, Debug, PartialEq, Eq, Structural)]
pub struct Body {
    pub collider: Collider,
    pub velocity: Vec2,
}

#[derive(Clone, Copy, Debug, PartialEq, Eq, Structural)]
pub struct Projectile {
    pub body: Body,
    pub damage: Hp,
}

#[derive(Clone, Copy, Debug, PartialEq, Eq, Structural)]
pub struct Actor {
    pub body: Body,
    pub health: Health,
    pub gun: Option<Gun>,
    pub on_fire: Option<OnFire>,
    pub stats: Stats,
    pub kind: ActorKind,
}

#[derive(Clone, Copy, Debug, PartialEq, Eq, Structural)]
pub enum ActorKind {
    Player,
    Enemy,
    BossBody,
    BossFoot,
}

/// A weapon and the time until it may fire again.
#[derive(Clone, Copy, Debug, PartialEq, Eq, Structural)]
pub struct Gun {
    pub config: GunConfig,
    pub shot_delay: Time,
}

/// A burning: how long it lasts and how much it hurts per second.
#[derive(Clone, Copy, Debug, PartialEq, Eq, Structural)]
pub struct OnFire {
    pub duration: Time,
    pub damage_per_second: Hp,
}

#[derive(Clone, Copy, Debug, PartialEq, Eq, Structural)]
pub struct Stats {
    pub vulnerability: VulnerabilityStats,
}

/// Multipliers of incoming damage, in thousandths.
#[derive(Clone, Copy, Debug, PartialEq, Eq, Structural)]
pub struct VulnerabilityStats {
    pub fire: Ratio,
}

impl VulnerabilityStats {
    /// Every kind of damage counts in full.
    pub fn normal() -> (v: VulnerabilityStats)
        ensures
            v.fire == SCALE,
    {
        VulnerabilityStats { fire: SCALE }
    }
}

impl Gun {
    /// A gun that may fire at once.
    pub fn new(config: GunConfig) -> (g: Gun)
        ensures
            g.config == config,
            g.shot_delay == 0,
    {
        Gun { config, shot_delay: 0 }
    }
}

impl Body {
    /// A body of `shape` at rest at `pos`.
    pub fn new(pos: Position, shape: Shape) -> (b: Body)
        ensures
            b.collider == Collider::new_spec(pos, shape),
            b.velocity == (Vec2 { x: 0, y: 0 }),
    {
        Body { collider: Collider::new(pos, shape), velocity: Vec2::zero() }
    }

    /// The same body moving at `velocity`.
    pub fn with_velocity(self, velocity: Vec2) -> (b: Body)
        ensures
            b.collider == self.collider,
            b.velocity == velocity,
    {
        Body { velocity, ..self }
    }
}

impl Projectile {
    /// A projectile fired from `pos` toward `target` at the configured speed.
    pub fn new(pos: Position, target: Position, config: ProjectileConfig) -> (p: Projectile)
        ensures
            p.body.collider == Collider::new_spec(pos, config.shape),
            p.body.velocity == (Vec2 { x: target.x, y: target.y }).sub_spec(Vec2 { x: pos.x, y: pos.y }).normalized().scaled(
                config.speed as int,
            ),
            p.damage == config.damage,
    {
        let delta = Vec2 { x: target.x, y: target.y }.sub(Vec2 { x: pos.x, y: pos.y });
        Projectile {
            body: Body::new(pos, config.shape).with_velocity(delta.normalize_or_zero().scale(config.speed)),
            damage: config.damage,
        }
    }
}

impl Actor {
    /// An unhurt enemy with a ready gun, not burning and equally vulnerable to everything.
    pub fn new(body: Body, hp: Hp, gun: GunConfig) -> (a: Actor)
        ensures
            a.body == body,
            a.health == Health::new_spec(hp),
            a.gun == Some(Gun { config: gun, shot_delay: 0 }),
            a.on_fire is None,
            a.stats.vulnerability.fire == SCALE,
            a.kind == ActorKind::Enemy,
    {
        Actor {
            body,
            health: Health::new(hp),
            gun: Some(Gun::new(gun)),
            on_fire: None,
            stats: Stats { vulnerability: VulnerabilityStats::normal() },
            kind: ActorKind::Enemy,
        }
    }
}

} // verus!
