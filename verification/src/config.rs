//! The tunable numbers of the game, read from configuration files.

use vstd::prelude::*;
use crate::components::OnFire;
use crate::geometry::{Shape, Vec2};
use crate::units::{Coord, Hp, Ratio, Time};

verus! {

#[derive(Clone, Copy, Debug, PartialEq, Eq, Structural)]
pub struct Config {
    pub player: PlayerConfig,
    pub camera: CameraConfig,
    /// The size of the world, which wraps around at its edges.
    pub world_size: Vec2,
    /// The explosion that a dying actor leaves, if any.
    pub death_explosion: Option<ExplosionConfig>,
    /// The chance, in thousandths, that a dying actor drops a healing pickup.
    pub death_drop_heal_chance: Ratio,
    pub pickups: PickupsConfig,
}

#[derive(Clone, Copy, Debug, PartialEq, Eq, Structural)]
pub struct CameraConfig {
    pub fov: Coord,
    pub speed: Coord,
    /// Radius in which the camera allows the target to move without affecting the camera.
    pub dead_zone: Coord,
}

#[derive(Clone, Copy, Debug, PartialEq, Eq, Structural)]
pub struct PlayerConfig {
    pub human_state: PlayerStateConfig,
    pub barrel_state: PlayerStateConfig,
    pub speed: Coord,
    pub acceleration: Coord,
    pub hp: Hp,
    /// The size of the player's gasoline tank.
    pub gasoline: Hp,
    pub gun: GunConfig,
}

#[derive(Clone, Copy, Debug, PartialEq, Eq, Structural)]
pub struct PlayerStateConfig {
    pub shape: Shape,
    /// The puddles of gasoline left in this state.
    pub gasoline: GasolineConfig,
}

#[derive(Clone, Copy, Debug, PartialEq, Eq, Structural)]
pub struct GunConfig {
    /// Delay between shots.
    pub shot_delay: Time,
    pub projectile: ProjectileConfig,
}

#[derive(Clone, Copy, Debug, PartialEq, Eq, Structural)]
pub struct ProjectileConfig {
    pub speed: Coord,
    pub damage: Hp,
    pub shape: Shape,
}

#[derive(Clone, Copy, Debug, PartialEq, Eq, Structural)]
pub struct ExplosionConfig {
    pub radius: Coord,
    pub knockback: Coord,
    pub damage: Hp,
    /// Whether the explosion sets gasoline in its radius alight.
    pub ignite_gasoline: bool,
    /// The burning that the explosion inflicts, if any.
    pub ignite: Option<OnFire>,
}

#[derive(Clone, Copy, Debug, PartialEq, Eq, Structural)]
pub struct GasolineConfig {
    pub lifetime: Time,
    pub ignite_timer: Time,
    pub explosion: ExplosionConfig,
    pub fire: FireConfig,
}

#[derive(Clone, Copy, Debug, PartialEq, Eq, Structural)]
pub struct FireConfig {
    /// The burning that the fire inflicts on what stands in it.
    pub on_fire: OnFire,
}

#[derive(Clone, Copy, Debug, PartialEq, Eq, Structural)]
pub struct PickupsConfig {
    pub size: Coord,
    pub heal_amount: Hp,
    pub attract_radius: Coord,
    pub max_speed: Coord,
    pub attract_strength: Coord,
}

} // verus!
