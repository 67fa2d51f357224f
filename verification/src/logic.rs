//! What happens to the world on every tick.

use vstd::prelude::*;
use crate::arena::{
    index_of, lemma_survivor_dropped, lemma_survivor_kept, lemma_without_from, lookup, survivors, without, Id,
};
use crate::components::{Actor, Body, OnFire};
use crate::config::{Config, PickupsConfig};
use crate::geometry::{lemma_normalized_signs, lemma_scaled_signs, valid_world, Collider, Position, Shape, Vec2};
use crate::deaths::{barrel_count, dead_blocks, death_order, deaths_resolvable, deaths_resolved};
use crate::health::Health;
use crate::model::{
    Block, Camera, Effect, Explosion, Player, Fire, Gasoline, Model, ParticleKind, PickUp, QueuedEffect,
};
use crate::units::{
    add_sat, div_trunc, max_i64, max_spec, min_i64, min_spec, mul_fixed, mul_fixed_spec, saturate_spec, sub_sat,
    trunc_div, Hp, Ratio, Time, SCALE,
};

verus! {

/// What `update_on_fire` gives: the stronger of an existing burning (if any) and a new one,
/// taken duration by duration and damage by damage.
pub open spec fn merged_on_fire(status: Option<OnFire>, update: OnFire) -> OnFire {
    let base = match status {
        Some(s) => s,
        None => OnFire { duration: 0, damage_per_second: 0 },
    };
    OnFire {
        duration: max_spec(base.duration as int, update.duration as int) as i64,
        damage_per_second: max_spec(base.damage_per_second as int, update.damage_per_second as int) as i64,
    }
}

/// Combines a burning that may already be going on with a new one: the result lasts as
/// long as the longer and hurts as much as the stronger.
pub fn update_on_fire(status: Option<OnFire>, update: OnFire) -> (r: OnFire)
    ensures
        r == merged_on_fire(status, update),
{
    let on_fire = match status {
        Some(s) => s,
        None => OnFire { duration: 0, damage_per_second: 0 },
    };
    OnFire {
        duration: max_i64(on_fire.duration, update.duration),
        damage_per_second: max_i64(on_fire.damage_per_second, update.damage_per_second),
    }
}

/// Merging never weakens either burning.
pub proof fn lemma_merge_dominates(status: Option<OnFire>, update: OnFire)
    ensures
        merged_on_fire(status, update).duration >= update.duration,
        merged_on_fire(status, update).damage_per_second >= update.damage_per_second,
        status is None ==> merged_on_fire(status, update).duration >= 0
            && merged_on_fire(status, update).damage_per_second >= 0,
        status matches Some(s) ==> merged_on_fire(status, update).duration >= s.duration
            && merged_on_fire(status, update).damage_per_second >= s.damage_per_second,
{
}

/// Merging two burnings does not depend on which one was there first.
pub proof fn lemma_merge_commutes(a: OnFire, b: OnFire)
    ensures
        merged_on_fire(Some(a), b) == merged_on_fire(Some(b), a),
{
}

/// Merging a burning with itself changes nothing, once it is not negative.
pub proof fn lemma_merge_idempotent(a: OnFire)
    requires
        a.duration >= 0,
        a.damage_per_second >= 0,
    ensures
        merged_on_fire(Some(a), a) == a,
        merged_on_fire(None, a) == a,
{
}

/// Merging several burnings gives the same result in any order.
pub proof fn lemma_merge_order(status: Option<OnFire>, a: OnFire, b: OnFire)
    ensures
        merged_on_fire(Some(merged_on_fire(status, a)), b) == merged_on_fire(
            Some(merged_on_fire(status, b)),
            a,
        ),
{
}

/// The damage that burning at `damage_per_second` deals in `dt` to something with
/// fire vulnerability `vulnerability`.
pub open spec fn burn_damage(damage_per_second: Hp, vulnerability: Ratio, dt: Time) -> i64 {
    saturate_spec(
        mul_fixed_spec(
            saturate_spec(mul_fixed_spec(damage_per_second as int, vulnerability as int)) as int,
            dt as int,
        ),
    )
}

fn burn_damage_exec(damage_per_second: Hp, vulnerability: Ratio, dt: Time) -> (d: i64)
    ensures
        d == burn_damage(damage_per_second, vulnerability, dt),
{
    mul_fixed(mul_fixed(damage_per_second, vulnerability), dt)
}

/// A burning after `dt`: shorter by `dt`, and gone once nothing of it is left.
pub open spec fn burnt_down(on_fire: OnFire, dt: Time) -> Option<OnFire> {
    let left = saturate_spec(on_fire.duration - dt);
    if left <= 0 {
        None
    } else {
        Some(OnFire { duration: left, ..on_fire })
    }
}

/// An actor after burning for `dt`, if it burns.
pub open spec fn actor_burnt(a: Actor, dt: Time) -> Actor {
    match a.on_fire {
        Some(f) => Actor {
            health: a.health.changed(-burn_damage(f.damage_per_second, a.stats.vulnerability.fire, dt)),
            on_fire: burnt_down(f, dt),
            ..a
        },
        None => a,
    }
}

/// A block after burning for `dt`, if it burns and can be hurt.
pub open spec fn block_burnt(b: Block, dt: Time) -> Block {
    match (b.health, b.on_fire) {
        (Some(h), Some(f)) => Block {
            health: Some(h.changed(-burn_damage(f.damage_per_second, b.vulnerability.fire, dt))),
            on_fire: burnt_down(f, dt),
            ..b
        },
        _ => b,
    }
}

/// The flames that a burning shows: particles rising from `position`.
pub open spec fn flames(position: Position, radius: i64, size: i64, intensity: Hp) -> QueuedEffect {
    QueuedEffect {
        effect: Effect::Particles {
            position,
            position_radius: radius,
            velocity: Vec2 { x: 0, y: SCALE },
            size,
            lifetime: SCALE,
            intensity,
            kind: ParticleKind::Fire,
        },
    }
}

/// The flames of the burning actors, in order.
pub open spec fn actor_flames(entries: Seq<(Id, Actor)>) -> Seq<QueuedEffect>
    decreases entries.len(),
{
    if entries.len() == 0 {
        Seq::empty()
    } else {
        let a = entries.last().1;
        let rest = actor_flames(entries.drop_last());
        match a.on_fire {
            Some(f) => rest.push(flames(a.body.collider.position, 2000, 200, f.damage_per_second)),
            None => rest,
        }
    }
}

/// The flames of the burning blocks that can be hurt, in order.
pub open spec fn block_flames(entries: Seq<(Id, Block)>) -> Seq<QueuedEffect>
    decreases entries.len(),
{
    if entries.len() == 0 {
        Seq::empty()
    } else {
        let b = entries.last().1;
        let rest = block_flames(entries.drop_last());
        match (b.health, b.on_fire) {
            (Some(_), Some(f)) => rest.push(flames(b.collider.position, 1000, 100, f.damage_per_second)),
            _ => rest,
        }
    }
}

/// The actors after burning for `dt`.
pub open spec fn burnt_actors(entries: Seq<(Id, Actor)>, dt: Time) -> Seq<(Id, Actor)> {
    entries.map_values(|e: (Id, Actor)| (e.0, actor_burnt(e.1, dt)))
}

/// The parts of the world that a step of the simulation leaves alone.
pub open spec fn same_setting(a: Model, b: Model) -> bool {
    &&& b.theme == a.theme
    &&& b.config == a.config
    &&& b.level == a.level
    &&& b.time == a.time
    &&& b.time_alive == a.time_alive
    &&& b.projectiles == a.projectiles
    &&& b.particles == a.particles
    &&& b.background_blocks == a.background_blocks
}

/// `b` is `a` after the gasoline puddles aged by `dt`.
pub open spec fn gas_aged(a: Model, b: Model, dt: Time) -> bool {
    &&& same_setting(a, b)
    &&& b.gasoline@ == survivors(a.gasoline@, dt)
    &&& b.gasoline.next_id() == a.gasoline.next_id()
    &&& b.actors == a.actors
    &&& b.blocks == a.blocks
    &&& b.fire == a.fire
    &&& b.explosions == a.explosions
    &&& b.pickups == a.pickups
    &&& b.queued_effects@ == a.queued_effects@
    &&& b.player == a.player
    &&& b.camera == a.camera
}

/// `b` is `a` after the fires aged by `dt`.
pub open spec fn fire_aged(a: Model, b: Model, dt: Time) -> bool {
    &&& same_setting(a, b)
    &&& b.fire@ == survivors(a.fire@, dt)
    &&& b.fire.next_id() == a.fire.next_id()
    &&& b.actors == a.actors
    &&& b.blocks == a.blocks
    &&& b.gasoline == a.gasoline
    &&& b.explosions == a.explosions
    &&& b.pickups == a.pickups
    &&& b.queued_effects@ == a.queued_effects@
    &&& b.player == a.player
    &&& b.camera == a.camera
}

/// `b` is `a` after the explosions aged by `dt`.
pub open spec fn explosions_aged(a: Model, b: Model, dt: Time) -> bool {
    &&& same_setting(a, b)
    &&& b.explosions@ == survivors(a.explosions@, dt)
    &&& b.explosions.next_id() == a.explosions.next_id()
    &&& b.actors == a.actors
    &&& b.blocks == a.blocks
    &&& b.gasoline == a.gasoline
    &&& b.fire == a.fire
    &&& b.pickups == a.pickups
    &&& b.queued_effects@ == a.queued_effects@
    &&& b.player == a.player
    &&& b.camera == a.camera
}

/// `b` is `a` after the burning actors and blocks burnt for `dt`.
pub open spec fn burnt(a: Model, b: Model, dt: Time) -> bool {
    &&& same_setting(a, b)
    &&& b.actors@ == burnt_actors(a.actors@, dt)
    &&& b.actors.next_id() == a.actors.next_id()
    &&& b.blocks@ == a.blocks@.map_values(|e: (Id, Block)| (e.0, block_burnt(e.1, dt)))
    &&& b.blocks.next_id() == a.blocks.next_id()
    &&& b.queued_effects@ == a.queued_effects@ + actor_flames(a.actors@) + block_flames(a.blocks@)
    &&& b.gasoline == a.gasoline
    &&& b.fire == a.fire
    &&& b.explosions == a.explosions
    &&& b.pickups == a.pickups
    &&& b.player == a.player
    &&& b.camera == a.camera
}

fn burn_down(on_fire: OnFire, dt: Time) -> (r: Option<OnFire>)
    ensures
        r == burnt_down(on_fire, dt),
{
    let left = sub_sat(on_fire.duration, dt);
    if left <= 0 {
        None
    } else {
        Some(OnFire { duration: left, ..on_fire })
    }
}

impl Model {
    /// Lets the gasoline puddles age by `delta_time`, and removes those that dry up.
    pub fn update_gas(&mut self, delta_time: Time)
        ensures
            gas_aged(*old(self), *final(self), delta_time),

    {
        self.gasoline.age_all(delta_time);
    }

    /// Lets the fires age by `delta_time`, and removes those that burn out.
    pub fn update_fire(&mut self, delta_time: Time)
        ensures
            fire_aged(*old(self), *final(self), delta_time),

    {
        self.fire.age_all(delta_time);
    }

    /// Lets the explosions age by `delta_time`, and removes those that are over.
    pub fn update_explosions(&mut self, delta_time: Time)
        ensures
            explosions_aged(*old(self), *final(self), delta_time),

    {
        self.explosions.age_all(delta_time);
    }

    /// Burning actors and blocks take damage for `delta_time` and show flames; a burning
    /// whose time runs out stops. Blocks that cannot be hurt do not burn.
    pub fn update_on_fire(&mut self, delta_time: Time)
        ensures
            burnt(*old(self), *final(self), delta_time),

    {
        let ghost old_actors = self.actors@;
        let ghost old_effects = self.queued_effects@;
        let n = self.actors.len();
        let mut i: usize = 0;
        while i < n
            invariant
                n == old_actors.len(),
                i <= n,
                self.actors@.len() == n,
                self.actors.next_id() == old(self).actors.next_id(),
                forall|k: int| 0 <= k < i ==> #[trigger] self.actors@[k] == (old_actors[k].0, actor_burnt(old_actors[k].1, delta_time)),
                forall|k: int| i <= k < n ==> #[trigger] self.actors@[k] == old_actors[k],
                self.queued_effects@ == old_effects + actor_flames(old_actors.take(i as int)),
                self.blocks == old(self).blocks,
                self.gasoline == old(self).gasoline,
                self.fire == old(self).fire,
                self.explosions == old(self).explosions,
                self.pickups == old(self).pickups,
                self.player == old(self).player,
                self.camera == old(self).camera,
                self.config == old(self).config,
                self.time == old(self).time,
                same_setting(*old(self), *self),
            decreases n - i,
        {
            let (_, a) = self.actors.entry(i);
            let mut actor = *a;
            proof {
                assert(old_actors.take(i + 1).drop_last() =~= old_actors.take(i as int));
            }
            match actor.on_fire {
                Some(on_fire) => {
                    actor.health.damage(
                        burn_damage_exec(on_fire.damage_per_second, actor.stats.vulnerability.fire, delta_time),
                    );
                    self.queued_effects.push_back(
                        QueuedEffect {
                            effect: Effect::Particles {
                                position: actor.body.collider.position,
                                position_radius: 2000,
                                velocity: Vec2::unit_y(),
                                size: 200,
                                lifetime: SCALE,
                                intensity: on_fire.damage_per_second,
                                kind: ParticleKind::Fire,
                            },
                        },
                    );
                    actor.on_fire = burn_down(on_fire, delta_time);
                    self.actors.set(i, actor);
                },
                None => {},
            }
            proof {
                assert(self.queued_effects@ =~= old_effects + actor_flames(old_actors.take(i + 1)));
            }
            i = i + 1;
        }
        proof {
            assert(old_actors.take(n as int) =~= old_actors);
            assert(self.actors@ =~= burnt_actors(old_actors, delta_time));
        }

        let ghost old_blocks = self.blocks@;
        let ghost mid_effects = self.queued_effects@;
        let m = self.blocks.len();
        let mut j: usize = 0;
        while j < m
            invariant
                m == old_blocks.len(),
                j <= m,
                self.blocks@.len() == m,
                self.blocks.next_id() == old(self).blocks.next_id(),
                forall|k: int| 0 <= k < j ==> #[trigger] self.blocks@[k] == (old_blocks[k].0, block_burnt(old_blocks[k].1, delta_time)),
                forall|k: int| j <= k < m ==> #[trigger] self.blocks@[k] == old_blocks[k],
                self.queued_effects@ == mid_effects + block_flames(old_blocks.take(j as int)),
                self.actors@ == burnt_actors(old_actors, delta_time),
                self.actors.next_id() == old(self).actors.next_id(),
                old_blocks == old(self).blocks@,
                self.gasoline == old(self).gasoline,
                self.fire == old(self).fire,
                self.explosions == old(self).explosions,
                self.pickups == old(self).pickups,
                self.player == old(self).player,
                self.camera == old(self).camera,
                self.config == old(self).config,
                self.time == old(self).time,
                same_setting(*old(self), *self),
            decreases m - j,
        {
            let (_, b) = self.blocks.entry(j);
            let mut block = *b;
            proof {
                assert(old_blocks.take(j + 1).drop_last() =~= old_blocks.take(j as int));
            }
            match (block.health, block.on_fire) {
                (Some(health), Some(on_fire)) => {
                    let mut health = health;
                    health.damage(
                        burn_damage_exec(on_fire.damage_per_second, block.vulnerability.fire, delta_time),
                    );
                    block.health = Some(health);
                    self.queued_effects.push_back(
                        QueuedEffect {
                            effect: Effect::Particles {
                                position: block.collider.position,
                                position_radius: 1000,
                                velocity: Vec2::unit_y(),
                                size: 100,
                                lifetime: SCALE,
                                intensity: on_fire.damage_per_second,
                                kind: ParticleKind::Fire,
                            },
                        },
                    );
                    block.on_fire = burn_down(on_fire, delta_time);
                    self.blocks.set(j, block);
                },
                _ => {},
            }
            proof {
                assert(self.queued_effects@ =~= mid_effects + block_flames(old_blocks.take(j + 1)));
            }
            j = j + 1;
        }
        proof {
            assert(old_blocks.take(m as int) =~= old_blocks);
            assert(self.blocks@ =~= old_blocks.map_values(|e: (Id, Block)| (e.0, block_burnt(e.1, delta_time))));
        }
    }
}

} // verus!

verus! {

/// How long the fire of a lit puddle burns.
pub const FIRE_LIFETIME: i64 = 5000;

/// The fire that a lit puddle turns into.
pub open spec fn fire_of(gas: Gasoline) -> Fire {
    Fire {
        collider: Collider::new_spec(gas.collider.position, Shape::Circle { radius: gas.fire_radius }),
        lifetime: Health::new_spec(FIRE_LIFETIME),
        config: gas.fire,
    }
}

/// Where the player's actor stands, if it is still there.
pub open spec fn player_position(m: Model) -> Option<Position> {
    match lookup(m.actors@, m.player.actor) {
        Some(a) => Some(a.body.collider.position),
        None => None,
    }
}

/// How loud a sound at `distance` is heard, in thousandths: `min(1, (20 / d)^2)` for the
/// distance `d` in units, taken as at least one unit; full up to twenty units, and never
/// rounded down below one thousandth.
pub open spec fn volume_at(distance: int) -> int {
    let d = max_spec(distance, SCALE as int);
    min_spec(SCALE as int, max_spec(1, volume_numerator() / (d * d)))
}

/// A thousandth of full volume times twenty units squared, in thousandths of a unit.
pub open spec fn volume_numerator() -> int {
    400_000_000_000
}

/// A farther sound is never louder.
pub proof fn lemma_volume_falls_off(near: int, far: int)
    requires
        near <= far,
    ensures
        volume_at(far) <= volume_at(near),
        0 < volume_at(far) <= SCALE,
{
    let a = max_spec(near, SCALE as int);
    let b = max_spec(far, SCALE as int);
    assert(0 < a * a <= b * b) by (nonlinear_arith)
        requires
            1000 <= a <= b,
    ;
    vstd::arithmetic::div_mod::lemma_div_is_ordered_by_denominator(volume_numerator(), a * a, b * b);
    assert(volume_numerator() / (b * b) >= 0) by (nonlinear_arith)
        requires
            b * b > 0,
    ;
}

/// Full volume up to twenty units; less beyond.
pub proof fn lemma_volume_full_near(distance: int)
    ensures
        distance <= 20 * SCALE ==> volume_at(distance) == SCALE,
        distance > 20 * SCALE ==> volume_at(distance) < SCALE,
{
    let d = max_spec(distance, SCALE as int);
    if distance <= 20 * SCALE {
        assert(1_000_000 <= d * d <= 400_000_000) by (nonlinear_arith)
            requires
                1000 <= d <= 20000,
        ;
        assert(volume_numerator() / (d * d) >= 1000) by (nonlinear_arith)
            requires
                0 < d * d <= 400_000_000,
        ;
    } else {
        assert(d * d > 400_000_000) by (nonlinear_arith)
            requires
                d > 20000,
        ;
        assert(volume_numerator() / (d * d) < 1000) by (nonlinear_arith)
            requires
                d * d > 400_000_000,
        ;
    }
}

impl Model {
    /// Sets a puddle alight: it becomes a fire and explodes. A missing puddle does nothing.
    pub fn ignite_gasoline(&mut self, gas_id: Id)
        requires
            old(self).fire.next_id() < u64::MAX,
        ensures
            final(self).gasoline.next_id() == old(self).gasoline.next_id(),
            match index_of(old(self).gasoline@, gas_id) {
                Some(i) => {
                    let gas = old(self).gasoline@[i].1;
                    &&& final(self).gasoline@ == old(self).gasoline@.remove(i)
                    &&& final(self).queued_effects@ == old(self).queued_effects@.push(
                        QueuedEffect { effect: Effect::Explosion { position: gas.collider.position, config: gas.explosion } },
                    )
                    &&& final(self).fire@ == old(self).fire@.push((old(self).fire.next_id(), fire_of(gas)))
                    &&& final(self).fire.next_id() == old(self).fire.next_id() + 1
                },
                None => {
                    &&& final(self).gasoline@ == old(self).gasoline@
                    &&& final(self).queued_effects@ == old(self).queued_effects@
                    &&& final(self).fire == old(self).fire
                },
            },
            final(self).actors == old(self).actors,
            final(self).blocks == old(self).blocks,
            final(self).explosions == old(self).explosions,
            final(self).pickups == old(self).pickups,
            final(self).player == old(self).player,
            final(self).camera == old(self).camera,
            final(self).config == old(self).config,
            final(self).time == old(self).time,
            same_setting(*old(self), *final(self)),
    {
        match self.gasoline.remove(gas_id) {
            Some(gas) => {
                self.queued_effects.push_back(
                    QueuedEffect { effect: Effect::Explosion { position: gas.collider.position, config: gas.explosion } },
                );
                self.fire.insert(
                    Fire {
                        collider: Collider::new(gas.collider.position, Shape::Circle { radius: gas.fire_radius }),
                        lifetime: Health::new(FIRE_LIFETIME),
                        config: gas.fire,
                    },
                );
            },
            None => {},
        }
    }

    /// Where the player's actor stands, if it is still there.
    pub fn get_player_pos(&self) -> (r: Option<Position>)
        ensures
            r == player_position(*self),
    {
        match self.actors.get(self.player.actor) {
            Some(a) => Some(a.body.collider.position),
            None => None,
        }
    }

    /// How loud a sound made at `position` is: by its distance from the player, or from
    /// the camera's center once the player is gone.
    pub fn get_volume_from(&self, position: Position) -> (r: Ratio)
        requires
            valid_world(self.config.world_size),
        ensures
            r == volume_at(
                position.distance_spec(
                    match player_position(*self) {
                        Some(p) => p,
                        None => self.camera.center,
                    },
                    self.config.world_size,
                ),
            ),
            0 < r <= SCALE,
    {
        let player_pos = match self.get_player_pos() {
            Some(p) => p,
            None => self.camera.center,
        };
        let distance = position.distance(player_pos, self.config.world_size);
        let d: i64 = max_i64(distance, SCALE);
        proof {
            assert(1_000_000 <= d * d <= 0x4000_0000_0000_0000_0000_0000_0000_0000) by (nonlinear_arith)
                requires
                    1000 <= d <= 0x7fff_ffff_ffff_ffff,
            ;
            assert(0 <= volume_numerator() / (d * d) <= 400_000) by (nonlinear_arith)
                requires
                    d * d >= 1_000_000,
            ;
        }
        let sq: i128 = d as i128 * d as i128;
        let quiet: i128 = 400_000_000_000 / sq;
        let quiet: i128 = if quiet < 1 { 1 } else { quiet };
        proof {
            lemma_volume_falls_off(d as int, d as int);
        }
        min_i64(SCALE, quiet as i64)
    }
}

} // verus!

verus! {

/// The velocity of a pickup pulled toward the player, who is `delta` away: it turns
/// toward moving at full speed straight at the player, by `attract_strength` per second.
pub open spec fn attracted(velocity: Vec2, delta: Vec2, config: PickupsConfig, dt: Time) -> Vec2 {
    let target = delta.normalized().scaled(config.max_speed as int);
    let change = target.sub_spec(velocity).normalized().scaled(config.attract_strength as int).scaled(dt as int);
    velocity.add_spec(change)
}

/// A pickup after `dt`: older, and, while it lasts, pulled toward a player within reach.
pub open spec fn pickup_stepped(p: PickUp, player: Option<Position>, config: Config, dt: Time) -> PickUp {
    let aged = PickUp { lifetime: p.lifetime.changed(-dt), ..p };
    if aged.lifetime.dead() {
        aged
    } else {
        match player {
            Some(target) => {
                let delta = p.body.collider.position.direction_spec(target, config.world_size);
                if delta.len_spec() <= config.pickups.attract_radius {
                    PickUp {
                        body: Body {
                            velocity: attracted(p.body.velocity, delta, config.pickups, dt),
                            ..p.body
                        },
                        ..aged
                    }
                } else {
                    aged
                }
            },
            None => aged,
        }
    }
}

/// Every pickup after a step, the expired ones included.
pub open spec fn stepped_pickups(entries: Seq<(Id, PickUp)>, player: Option<Position>, config: Config, dt: Time) -> Seq<(Id, PickUp)> {
    entries.map_values(|e: (Id, PickUp)| (e.0, pickup_stepped(e.1, player, config, dt)))
}

/// The sparkle of a pickup, fading over the second half of its life.
pub open spec fn sparkle(p: PickUp) -> QueuedEffect {
    QueuedEffect {
        effect: Effect::Particles {
            position: p.body.collider.position,
            position_radius: 2000,
            velocity: Vec2 { x: 0, y: SCALE },
            size: 200,
            lifetime: SCALE,
            intensity: min_spec(saturate_spec(trunc_div(p.lifetime.value * SCALE, p.lifetime.max as int)) as int, 500) as i64,
            kind: ParticleKind::Heal,
        },
    }
}

/// The identifiers of the pickups that run out this step, in order.
pub open spec fn expired_pickups(entries: Seq<(Id, PickUp)>, dt: Time) -> Seq<Id>
    decreases entries.len(),
{
    if entries.len() == 0 {
        Seq::empty()
    } else {
        let rest = expired_pickups(entries.drop_last(), dt);
        if entries.last().1.lifetime.changed(-dt).dead() {
            rest.push(entries.last().0)
        } else {
            rest
        }
    }
}

/// The sparkles of the pickups that last, in order.
pub open spec fn pickup_sparkles(
    entries: Seq<(Id, PickUp)>,
    player: Option<Position>,
    config: Config,
    dt: Time,
) -> Seq<QueuedEffect>
    decreases entries.len(),
{
    if entries.len() == 0 {
        Seq::empty()
    } else {
        let rest = pickup_sparkles(entries.drop_last(), player, config, dt);
        let p = pickup_stepped(entries.last().1, player, config, dt);
        if p.lifetime.dead() {
            rest
        } else {
            rest.push(sparkle(p))
        }
    }
}

/// A value that lasts after a change lies within its bounds.
proof fn lemma_alive_in_bounds(h: Health, delta: int)
    requires
        !h.changed(delta).dead(),
    ensures
        h.changed(delta).in_bounds(),
        h.changed(delta).max > 0,
{
}

/// `b` is `a` after the pickups aged by `dt`: the expired ones are gone, the others are
/// pulled toward the player and sparkle.
pub open spec fn pickups_stepped(a: Model, b: Model, dt: Time) -> bool {
    let player = player_position(a);
    &&& same_setting(a, b)
    &&& b.pickups@ == without(stepped_pickups(a.pickups@, player, a.config, dt), expired_pickups(a.pickups@, dt))
    &&& b.pickups.next_id() == a.pickups.next_id()
    &&& b.queued_effects@ == a.queued_effects@ + pickup_sparkles(a.pickups@, player, a.config, dt)
    &&& b.actors == a.actors
    &&& b.blocks == a.blocks
    &&& b.gasoline == a.gasoline
    &&& b.fire == a.fire
    &&& b.explosions == a.explosions
    &&& b.player == a.player
    &&& b.camera == a.camera
}

impl Model {
    /// Pickups age by `delta_time`; those that run out are removed, the others are pulled
    /// toward a player within reach and sparkle.
    pub fn update_pickups(&mut self, delta_time: Time)
        requires
            valid_world(old(self).config.world_size),
        ensures
            pickups_stepped(*old(self), *final(self), delta_time),

    {
        let player = self.get_player_pos();
        let ghost old_pickups = self.pickups@;
        let ghost old_effects = self.queued_effects@;
        let config = self.config;
        let n = self.pickups.len();
        let mut dead: Vec<Id> = Vec::new();
        let mut i: usize = 0;
        while i < n
            invariant
                n == old_pickups.len(),
                i <= n,
                valid_world(config.world_size),
                config == self.config,
                player == player_position(*old(self)),
                old_pickups == old(self).pickups@,
                self.pickups@.len() == n,
                self.pickups.next_id() == old(self).pickups.next_id(),
                forall|k: int| 0 <= k < i ==> #[trigger] self.pickups@[k] == (old_pickups[k].0, pickup_stepped(old_pickups[k].1, player, config, delta_time)),
                forall|k: int| i <= k < n ==> #[trigger] self.pickups@[k] == old_pickups[k],
                dead@ == expired_pickups(old_pickups.take(i as int), delta_time),
                self.queued_effects@ == old_effects + pickup_sparkles(old_pickups.take(i as int), player, config, delta_time),
                old_effects == old(self).queued_effects@,
                self.actors == old(self).actors,
                self.blocks == old(self).blocks,
                self.gasoline == old(self).gasoline,
                self.fire == old(self).fire,
                self.explosions == old(self).explosions,
                self.player == old(self).player,
                self.camera == old(self).camera,
                self.time == old(self).time,
                same_setting(*old(self), *self),
            decreases n - i,
        {
            let (id, p) = self.pickups.entry(i);
            let mut pickup = *p;
            proof {
                assert(old_pickups.take(i + 1).drop_last() =~= old_pickups.take(i as int));
            }
            pickup.lifetime.damage(delta_time);
            if pickup.lifetime.is_dead() {
                dead.push(id);
                self.pickups.set(i, pickup);
            } else {
                match player {
                    Some(target) => {
                        let delta = pickup.body.collider.position.direction(target, config.world_size);
                        let dist = delta.len();
                        if dist <= config.pickups.attract_radius {
                            let dir = delta.normalize_or_zero();
                            let target_vel = dir.scale(config.pickups.max_speed);
                            let change = target_vel.sub(pickup.body.velocity).normalize_or_zero().scale(
                                config.pickups.attract_strength,
                            ).scale(delta_time);
                            pickup.body.velocity = pickup.body.velocity.add(change);
                        }
                    },
                    None => {},
                }
                proof {
                    lemma_alive_in_bounds(p.lifetime, -delta_time);
                }
                let intensity = min_i64(pickup.lifetime.ratio(), 500);
                self.queued_effects.push_back(
                    QueuedEffect {
                        effect: Effect::Particles {
                            position: pickup.body.collider.position,
                            position_radius: 2000,
                            velocity: Vec2::unit_y(),
                            size: 200,
                            lifetime: SCALE,
                            intensity,
                            kind: ParticleKind::Heal,
                        },
                    },
                );
                self.pickups.set(i, pickup);
            }
            proof {
                assert(self.queued_effects@ =~= old_effects + pickup_sparkles(old_pickups.take(i + 1), player, config, delta_time));
            }
            i = i + 1;
        }
        proof {
            assert(old_pickups.take(n as int) =~= old_pickups);
            assert(self.pickups@ =~= stepped_pickups(old_pickups, player, config, delta_time));
        }
        self.pickups.remove_listed(&dead);
    }
}

} // verus!

verus! {

/// The camera and the player's out-of-view flag after looking where the player is: once
/// the player strays beyond a third of the view, the camera follows until the player is
/// back within the dead zone.
pub open spec fn camera_followed(camera: Camera, out_of_view: bool, player: Option<Position>, config: Config) -> (Camera, bool) {
    match player {
        Some(p) => {
            let distance = camera.center.distance_spec(p, config.world_size);
            let strayed = out_of_view || 3 * distance > camera.fov;
            if !strayed {
                (camera, false)
            } else if distance < config.camera.dead_zone {
                (camera, false)
            } else {
                (Camera { target_position: p, ..camera }, true)
            }
        },
        None => (camera, out_of_view),
    }
}

/// The camera's center moved toward its target by `speed * dt` of the way, at most all of it.
pub open spec fn camera_moved(camera: Camera, config: Config, dt: Time) -> Camera {
    let share = min_spec(saturate_spec(mul_fixed_spec(config.camera.speed as int, dt as int)) as int, SCALE as int);
    let step = camera.center.direction_spec(camera.target_position, config.world_size).scaled(share);
    Camera { center: camera.center.shifted(step, config.world_size), ..camera }
}

/// `b` is `a` after the camera looked for the player and moved for `dt`.
pub open spec fn camera_updated(a: Model, b: Model, dt: Time) -> bool {
    let (followed, out_of_view) = camera_followed(a.camera, a.player.out_of_view, player_position(a), a.config);
    &&& same_setting(a, b)
    &&& b.camera == camera_moved(followed, a.config, dt)
    &&& b.player == (Player { out_of_view, ..a.player })
    &&& b.actors == a.actors
    &&& b.blocks == a.blocks
    &&& b.gasoline == a.gasoline
    &&& b.fire == a.fire
    &&& b.explosions == a.explosions
    &&& b.pickups == a.pickups
    &&& b.queued_effects@ == a.queued_effects@
}

impl Model {
    /// Follows the player with the camera and moves the camera toward its target.
    pub fn update_camera(&mut self, delta_time: Time)
        requires
            valid_world(old(self).config.world_size),
        ensures
            camera_updated(*old(self), *final(self), delta_time),

    {
        let world_size = self.config.world_size;
        match self.get_player_pos() {
            Some(position) => {
                let direction = self.camera.center.direction(position, world_size);
                let distance = direction.len();
                if 3 * (distance as i128) > self.camera.fov as i128 {
                    self.player.out_of_view = true;
                }
                if self.player.out_of_view {
                    if distance < self.config.camera.dead_zone {
                        self.player.out_of_view = false;
                    } else {
                        self.camera.target_position = position;
                    }
                }
            },
            None => {},
        }
        let share = min_i64(mul_fixed(self.config.camera.speed, delta_time), SCALE);
        let step = self.camera.center.direction(self.camera.target_position, world_size).scale(share);
        self.camera.center.shift(step, world_size);
    }
}

} // verus!

verus! {

/// `b` is `a` with the clock advanced by `dt`; the player counts as alive at the new
/// time while its actor is still there.
pub open spec fn clock_advanced(a: Model, b: Model, dt: Time) -> bool {
    let t = saturate_spec(a.time + dt);
    &&& b.time == t
    &&& b.time_alive == if lookup(a.actors@, a.player.actor) is Some { t } else { a.time_alive }
    &&& b.theme == a.theme
    &&& b.config == a.config
    &&& b.level == a.level
    &&& b.projectiles == a.projectiles
    &&& b.particles == a.particles
    &&& b.background_blocks == a.background_blocks
    &&& b.actors == a.actors
    &&& b.blocks == a.blocks
    &&& b.gasoline == a.gasoline
    &&& b.fire == a.fire
    &&& b.explosions == a.explosions
    &&& b.pickups == a.pickups
    &&& b.queued_effects@ == a.queued_effects@
    &&& b.player == a.player
    &&& b.camera == a.camera
}

/// A tick can run: the world has a size, no death is met twice, identifiers do not run
/// out, and the drop chance is a probability when someone dies.
pub open spec fn can_update(m: Model, dt: Time) -> bool {
    let actors = burnt_actors(m.actors@, dt);
    &&& valid_world(m.config.world_size)
    &&& deaths_resolvable(actors)
    &&& m.gasoline.next_id() + m.actors@.len() + m.blocks@.len() <= u64::MAX
    &&& m.pickups.next_id() + m.actors@.len() <= u64::MAX
    &&& m.blocks.next_id() + m.blocks@.len() <= u64::MAX
    &&& death_order(actors).len() > 0 ==> 0 <= m.config.death_drop_heal_chance <= SCALE
}

impl Model {
    /// Advances the world by `delta_time`: the clock runs, puddles, fires and explosions
    /// age, burning things burn, pickups age and are drawn to the player, the dead are
    /// handled and the camera follows the player.
    pub fn update(&mut self, delta_time: Time)
        requires
            can_update(*old(self), delta_time),
        ensures
            exists|m1: Model, m2: Model, m3: Model, m4: Model, m5: Model, m6: Model, m7: Model, rolls: Seq<bool>, spots: Seq<Position>|
                {
                    &&& clock_advanced(*old(self), m1, delta_time)
                    &&& gas_aged(m1, m2, delta_time)
                    &&& fire_aged(m2, m3, delta_time)
                    &&& explosions_aged(m3, m4, delta_time)
                    &&& burnt(m4, m5, delta_time)
                    &&& pickups_stepped(m5, m6, delta_time)
                    &&& rolls.len() == death_order(m6.actors@).len()
                    &&& m6.config.death_drop_heal_chance == 0 ==> forall|k: int| 0 <= k < rolls.len() ==> !#[trigger] rolls[k]
                    &&& m6.config.death_drop_heal_chance == SCALE ==> forall|k: int| 0 <= k < rolls.len() ==> #[trigger] rolls[k]
                    &&& spots.len() == barrel_count(dead_blocks(m6.blocks@))
                    &&& forall|k: int| 0 <= k < spots.len() ==> 0 <= (#[trigger] spots[k]).x < m6.config.world_size.x
                        && 0 <= spots[k].y < m6.config.world_size.y
                    &&& deaths_resolved(m6, m7, rolls, spots)
                    &&& camera_updated(m7, *final(self), delta_time)
                },
    {
        self.time = add_sat(self.time, delta_time);
        if self.actors.get(self.player.actor).is_some() {
            self.time_alive = self.time;
        }
        let ghost m1 = *self;
        self.update_gas(delta_time);
        let ghost m2 = *self;
        self.update_fire(delta_time);
        let ghost m3 = *self;
        self.update_explosions(delta_time);
        let ghost m4 = *self;
        self.update_on_fire(delta_time);
        let ghost m5 = *self;
        self.update_pickups(delta_time);
        let ghost m6 = *self;
        proof {
            assert(m6.actors@ == burnt_actors(old(self).actors@, delta_time));
            assert(m6.actors@.len() == old(self).actors@.len());
            assert(m6.blocks@.len() == old(self).blocks@.len());
        }
        self.check_deaths(delta_time);
        let ghost m7 = *self;
        self.update_camera(delta_time);
        proof {
            let (rolls, spots) = choose|rolls: Seq<bool>, spots: Seq<Position>|
                {
                    &&& rolls.len() == death_order(m6.actors@).len()
                    &&& m6.config.death_drop_heal_chance == 0 ==> forall|k: int| 0 <= k < rolls.len() ==> !#[trigger] rolls[k]
                    &&& m6.config.death_drop_heal_chance == SCALE ==> forall|k: int| 0 <= k < rolls.len() ==> #[trigger] rolls[k]
                    &&& spots.len() == barrel_count(dead_blocks(m6.blocks@))
                    &&& forall|k: int| 0 <= k < spots.len() ==> 0 <= (#[trigger] spots[k]).x < m6.config.world_size.x
                        && 0 <= spots[k].y < m6.config.world_size.y
                    &&& deaths_resolved(m6, m7, rolls, spots)
                };
            assert(clock_advanced(*old(self), m1, delta_time));
            assert(deaths_resolved(m6, m7, rolls, spots));
        }
    }
}

} // verus!

verus! {

/// A burning that goes on after a step always has time left.
pub proof fn lemma_burning_has_time_left(a: Actor, b: Block, dt: Time)
    ensures
        actor_burnt(a, dt).on_fire matches Some(f) ==> f.duration > 0,
        b.health is Some ==> (block_burnt(b, dt).on_fire matches Some(f) ==> f.duration > 0),
{
}

/// A burning with at most `dt` left is over after a step of `dt`.
pub proof fn lemma_burning_ends(a: Actor, dt: Time)
    requires
        a.on_fire matches Some(f) && f.duration <= dt,
    ensures
        actor_burnt(a, dt).on_fire is None,
{
}

/// The clock never runs behind the last time the player was seen alive, for steps
/// forward in time.
pub proof fn lemma_time_alive_not_ahead(a: Model, b: Model, dt: Time)
    requires
        clock_advanced(a, b, dt),
        a.time_alive <= a.time,
        dt >= 0,
    ensures
        b.time_alive <= b.time,
        b.time >= a.time,
{
}

proof fn lemma_expired_pickups_members(entries: Seq<(Id, PickUp)>, dt: Time)
    ensures
        forall|j: int|
            0 <= j < entries.len() && (#[trigger] entries[j]).1.lifetime.changed(-dt).dead() ==> expired_pickups(
                entries,
                dt,
            ).contains(entries[j].0),
    decreases entries.len(),
{
    if entries.len() > 0 {
        let init = entries.drop_last();
        lemma_expired_pickups_members(init, dt);
        let s = expired_pickups(entries, dt);
        let r = expired_pickups(init, dt);
        assert forall|j: int|
            0 <= j < entries.len() && (#[trigger] entries[j]).1.lifetime.changed(-dt).dead() implies s.contains(
                entries[j].0,
            ) by {
            if j < init.len() {
                assert(init[j] == entries[j]);
                let k = choose|k: int| 0 <= k < r.len() && r[k] == init[j].0;
                assert(s[k] == r[k]);
            } else {
                assert(s[s.len() - 1] == entries[j].0);
            }
        }
    }
}

/// No pickup that has run out is left after a step.
pub proof fn lemma_no_expired_pickup_left(entries: Seq<(Id, PickUp)>, player: Option<Position>, config: Config, dt: Time)
    ensures
        forall|k: int|
            0 <= k < without(stepped_pickups(entries, player, config, dt), expired_pickups(entries, dt)).len()
                ==> !(#[trigger] without(stepped_pickups(entries, player, config, dt), expired_pickups(entries, dt))[k]).1.lifetime.dead(),
{
    let stepped = stepped_pickups(entries, player, config, dt);
    let ids = expired_pickups(entries, dt);
    let rest = without(stepped, ids);
    lemma_without_from(stepped, ids);
    lemma_expired_pickups_members(entries, dt);
    assert forall|k: int| 0 <= k < rest.len() implies !(#[trigger] rest[k]).1.lifetime.dead() by {
        let j = choose|j: int| 0 <= j < stepped.len() && rest[k] == stepped[j] && !ids.contains(stepped[j].0);
        assert(stepped[j].0 == entries[j].0);
        if entries[j].1.lifetime.changed(-dt).dead() {
            assert(ids.contains(entries[j].0));
        }
    }
}

} // verus!

verus! {

proof fn lemma_burn_damage_nonneg(damage_per_second: Hp, vulnerability: Ratio, dt: Time)
    requires
        damage_per_second >= 0,
        vulnerability >= 0,
        dt >= 0,
    ensures
        burn_damage(damage_per_second, vulnerability, dt) >= 0,
{
    let p = damage_per_second as int * vulnerability as int;
    assert(p >= 0) by (nonlinear_arith)
        requires
            damage_per_second >= 0,
            vulnerability >= 0,
            p == damage_per_second as int * vulnerability as int,
    ;
    assert(p / 1000 >= 0) by (nonlinear_arith)
        requires
            p >= 0,
    ;
    let first = saturate_spec(mul_fixed_spec(damage_per_second as int, vulnerability as int)) as int;
    assert(first >= 0);
    let q = first * dt as int;
    assert(q >= 0) by (nonlinear_arith)
        requires
            first >= 0,
            dt >= 0,
            q == first * dt as int,
    ;
    assert(q / 1000 >= 0) by (nonlinear_arith)
        requires
            q >= 0,
    ;
}

/// Burning never heals an actor, never lengthens its burning and never sets it alight,
/// for a forward step, a burning that hurts, a vulnerability that is not negative and
/// health that is not negative.
pub proof fn lemma_burning_never_heals_actor(a: Actor, dt: Time)
    requires
        dt >= 0,
        a.health.value >= 0,
        a.on_fire matches Some(f) ==> f.damage_per_second >= 0,
        a.stats.vulnerability.fire >= 0,
    ensures
        actor_burnt(a, dt).health.value <= a.health.value,
        a.on_fire is None ==> actor_burnt(a, dt).on_fire is None,
        actor_burnt(a, dt).on_fire matches Some(g) ==> a.on_fire matches Some(f) && g.duration <= f.duration,
{
    match a.on_fire {
        Some(f) => lemma_burn_damage_nonneg(f.damage_per_second, a.stats.vulnerability.fire, dt),
        None => {},
    }
}

/// The same for a block.
pub proof fn lemma_burning_never_heals_block(b: Block, dt: Time)
    requires
        dt >= 0,
        b.health matches Some(h) ==> h.value >= 0,
        b.on_fire matches Some(f) ==> f.damage_per_second >= 0,
        b.vulnerability.fire >= 0,
    ensures
        block_burnt(b, dt).health matches Some(h2) ==> b.health matches Some(h) && h2.value <= h.value,
        b.health is None ==> block_burnt(b, dt).health is None,
        b.on_fire is None ==> block_burnt(b, dt).on_fire is None,
        block_burnt(b, dt).on_fire matches Some(g) ==> b.on_fire matches Some(f) && g.duration <= f.duration,
{
    match b.on_fire {
        Some(f) => lemma_burn_damage_nonneg(f.damage_per_second, b.vulnerability.fire, dt),
        None => {},
    }
}

/// Within one step of the world, no actor's or block's health rises, no burning grows
/// longer and nothing catches fire, under the conditions of `lemma_burning_never_heals`.
pub proof fn lemma_burning_step_never_heals(before: Model, after: Model, dt: Time)
    requires
        burnt(before, after, dt),
        dt >= 0,
        forall|k: int| 0 <= k < before.actors@.len() ==> {
            let a = #[trigger] before.actors@[k].1;
            &&& a.health.value >= 0
            &&& a.on_fire matches Some(f) ==> f.damage_per_second >= 0
            &&& a.stats.vulnerability.fire >= 0
        },
        forall|k: int| 0 <= k < before.blocks@.len() ==> {
            let b = #[trigger] before.blocks@[k].1;
            &&& b.health matches Some(h) ==> h.value >= 0
            &&& b.on_fire matches Some(f) ==> f.damage_per_second >= 0
            &&& b.vulnerability.fire >= 0
        },
    ensures
        after.actors@.len() == before.actors@.len(),
        after.blocks@.len() == before.blocks@.len(),
        forall|k: int| 0 <= k < after.actors@.len() ==> {
            let a = before.actors@[k].1;
            let a2 = #[trigger] after.actors@[k].1;
            &&& a2.health.value <= a.health.value
            &&& a.on_fire is None ==> a2.on_fire is None
            &&& a2.on_fire matches Some(g) ==> a.on_fire matches Some(f) && g.duration <= f.duration
        },
        forall|k: int| 0 <= k < after.blocks@.len() ==> {
            let b = before.blocks@[k].1;
            let b2 = #[trigger] after.blocks@[k].1;
            &&& b2.health matches Some(h2) ==> b.health matches Some(h) && h2.value <= h.value
            &&& b.on_fire is None ==> b2.on_fire is None
            &&& b2.on_fire matches Some(g) ==> b.on_fire matches Some(f) && g.duration <= f.duration
        },
{
    assert forall|k: int| 0 <= k < after.actors@.len() implies {
        let a = before.actors@[k].1;
        let a2 = #[trigger] after.actors@[k].1;
        &&& a2.health.value <= a.health.value
        &&& a.on_fire is None ==> a2.on_fire is None
        &&& a2.on_fire matches Some(g) ==> a.on_fire matches Some(f) && g.duration <= f.duration
    } by {
        let a = before.actors@[k].1;
        assert(after.actors@[k].1 == actor_burnt(a, dt));
        lemma_burning_never_heals_actor(a, dt);
    }
    assert forall|k: int| 0 <= k < after.blocks@.len() implies {
        let b = before.blocks@[k].1;
        let b2 = #[trigger] after.blocks@[k].1;
        &&& b2.health matches Some(h2) ==> b.health matches Some(h) && h2.value <= h.value
        &&& b.on_fire is None ==> b2.on_fire is None
        &&& b2.on_fire matches Some(g) ==> b.on_fire matches Some(f) && g.duration <= f.duration
    } by {
        let b = before.blocks@[k].1;
        assert(after.blocks@[k].1 == block_burnt(b, dt));
        lemma_burning_never_heals_block(b, dt);
    }
}

} // verus!

verus! {

/// An actor after burning through the steps `dts`, one after the other.
pub open spec fn burnt_through(a: Actor, dts: Seq<Time>) -> Actor
    decreases dts.len(),
{
    if dts.len() == 0 {
        a
    } else {
        actor_burnt(burnt_through(a, dts.drop_last()), dts.last())
    }
}

proof fn lemma_burn_progress(a: Actor, dts: Seq<Time>, d: int)
    requires
        a.on_fire is Some,
        d > 0,
        forall|i: int| 0 <= i < dts.len() ==> #[trigger] dts[i] >= d,
    ensures
        burnt_through(a, dts).on_fire matches Some(g) ==> g.duration <= a.on_fire->0.duration - dts.len() * d,
        dts.len() > 0 ==> (burnt_through(a, dts).on_fire matches Some(g) ==> g.duration > 0),
    decreases dts.len(),
{
    if dts.len() > 0 {
        let init = dts.drop_last();
        assert forall|i: int| 0 <= i < init.len() implies #[trigger] init[i] >= d by {
            assert(init[i] == dts[i]);
        }
        lemma_burn_progress(a, init, d);
        assert(dts.last() >= d) by {
            assert(dts[dts.len() - 1] >= d);
        }
        assert(dts.len() * d == init.len() * d + d) by (nonlinear_arith)
            requires
                dts.len() == init.len() + 1,
        ;
    }
}

/// A burning ends in bounded time: after steps of at least `d` each, adding up to at
/// least its duration, nothing is left of it.
pub proof fn lemma_burning_burns_out(a: Actor, dts: Seq<Time>, d: int)
    requires
        a.on_fire is Some,
        d > 0,
        dts.len() >= 1,
        forall|i: int| 0 <= i < dts.len() ==> #[trigger] dts[i] >= d,
        dts.len() * d >= a.on_fire->0.duration,
    ensures
        burnt_through(a, dts).on_fire is None,
{
    lemma_burn_progress(a, dts, d);
}

} // verus!

verus! {

proof fn lemma_saturated_difference_sign(a: int, b: int)
    ensures
        a >= b ==> saturate_spec(a - b) >= 0,
        a <= b ==> saturate_spec(a - b) <= 0,
{
}

proof fn lemma_saturated_step(v: i64, c: int)
    ensures
        c >= 0 ==> saturate_spec(v + c) >= v,
        c <= 0 ==> saturate_spec(v + c) <= v,
{
}

/// The pull on a pickup steers its velocity toward the target velocity, moving at full
/// speed straight at the player: each coordinate moves toward the target's and none
/// moves away from it, so a pickup already moving at the target velocity keeps it.
pub proof fn lemma_pull_steers_toward_target(velocity: Vec2, delta: Vec2, config: PickupsConfig, dt: Time)
    requires
        config.attract_strength >= 0,
        dt >= 0,
    ensures
        ({
            let target = delta.normalized().scaled(config.max_speed as int);
            let pulled = attracted(velocity, delta, config, dt);
            &&& target.x >= velocity.x ==> pulled.x >= velocity.x
            &&& target.x <= velocity.x ==> pulled.x <= velocity.x
            &&& target.y >= velocity.y ==> pulled.y >= velocity.y
            &&& target.y <= velocity.y ==> pulled.y <= velocity.y
            &&& target == velocity ==> pulled == velocity
        }),
{
    let target = delta.normalized().scaled(config.max_speed as int);
    let diff = target.sub_spec(velocity);
    lemma_saturated_difference_sign(target.x as int, velocity.x as int);
    lemma_saturated_difference_sign(target.y as int, velocity.y as int);
    let n = diff.normalized();
    lemma_normalized_signs(diff);
    let s = n.scaled(config.attract_strength as int);
    lemma_scaled_signs(n, config.attract_strength as int);
    let c = s.scaled(dt as int);
    lemma_scaled_signs(s, dt as int);
    lemma_saturated_step(velocity.x, c.x as int);
    lemma_saturated_step(velocity.y, c.y as int);
}

/// A pickup that lasts and is pulled by a player within reach steers toward moving at
/// full speed straight at the player, as `lemma_pull_steers_toward_target` says.
pub proof fn lemma_pickup_steers_toward_player(p: PickUp, target: Position, config: Config, dt: Time)
    requires
        config.pickups.attract_strength >= 0,
        dt >= 0,
        !p.lifetime.changed(-dt).dead(),
        p.body.collider.position.direction_spec(target, config.world_size).len_spec() <= config.pickups.attract_radius,
    ensures
        ({
            let delta = p.body.collider.position.direction_spec(target, config.world_size);
            let wanted = delta.normalized().scaled(config.pickups.max_speed as int);
            let v = p.body.velocity;
            let pulled = pickup_stepped(p, Some(target), config, dt).body.velocity;
            &&& wanted.x >= v.x ==> pulled.x >= v.x
            &&& wanted.x <= v.x ==> pulled.x <= v.x
            &&& wanted.y >= v.y ==> pulled.y >= v.y
            &&& wanted.y <= v.y ==> pulled.y <= v.y
            &&& wanted == v ==> pulled == v
        }),
{
    let delta = p.body.collider.position.direction_spec(target, config.world_size);
    lemma_pull_steers_toward_target(p.body.velocity, delta, config.pickups, dt);
}

} // verus!

verus! {

/// Once the player is out of view, the camera keeps following while the player stays
/// outside the dead zone, and stops once the player is back inside it; a player within
/// a third of the view who was not out of view stays in view and leaves the target alone.
pub proof fn lemma_camera_follow_rules(a: Model, b: Model, dt: Time, p: Position)
    requires
        camera_updated(a, b, dt),
        player_position(a) == Some(p),
    ensures
        ({
            let distance = a.camera.center.distance_spec(p, a.config.world_size);
            &&& (a.player.out_of_view || 3 * distance > a.camera.fov) && distance >= a.config.camera.dead_zone
                ==> b.player.out_of_view && b.camera.target_position == p
            &&& distance < a.config.camera.dead_zone ==> !b.player.out_of_view && b.camera.target_position
                == a.camera.target_position
            &&& !a.player.out_of_view && 3 * distance <= a.camera.fov ==> !b.player.out_of_view
                && b.camera.target_position == a.camera.target_position
        }),
        b.camera.fov == a.camera.fov,
{
}

} // verus!

verus! {

/// With a vulnerability of a whole `k` times, burning at `dps` for `dt` deals exactly
/// `dps * k * dt / 1000` thousandths of a hit point, rounded down, when nothing saturates.
proof fn lemma_burn_damage_whole(dps: Hp, k: int, dt: Time)
    requires
        dps >= 0,
        k >= 0,
        dt >= 0,
        k * 1000 <= i64::MAX,
        dps * k <= i64::MAX,
        dps * k * dt / 1000 <= i64::MAX,
    ensures
        burn_damage(dps, (k * 1000) as i64, dt) == dps * k * dt / 1000,
{
    let v = (k * 1000) as i64;
    assert(v as int == k * 1000);
    assert(dps * v >= 0) by (nonlinear_arith)
        requires
            dps >= 0,
            v >= 0,
    ;
    assert((dps * v) / 1000 == dps * k) by (nonlinear_arith)
        requires
            v == k * 1000,
    ;
    assert(mul_fixed_spec(dps as int, v as int) == dps * k);
    let first = dps * k;
    assert(first >= 0) by (nonlinear_arith)
        requires
            dps >= 0,
            k >= 0,
            first == dps * k,
    ;
    assert(saturate_spec(first) as int == first);
    assert(first * dt >= 0) by (nonlinear_arith)
        requires
            first >= 0,
            dt >= 0,
    ;
    assert(first * dt / 1000 >= 0) by (nonlinear_arith)
        requires
            first * dt >= 0,
    ;
    assert(dps * k * dt == first * dt);
}

/// A burning block that can be hurt loses `dps * k * dt / 1000` thousandths of a hit
/// point in a step of `dt`, for a fire vulnerability of a whole `k` times, down to zero.
pub proof fn lemma_block_burns_by_vulnerability(b: Block, h: Health, f: OnFire, k: int, dt: Time)
    requires
        b.health == Some(h),
        b.on_fire == Some(f),
        h.in_bounds(),
        b.vulnerability.fire == k * 1000,
        k >= 0,
        f.damage_per_second >= 0,
        dt >= 0,
        f.damage_per_second * k <= i64::MAX,
        f.damage_per_second * k * dt / 1000 <= i64::MAX,
    ensures
        ({
            let loss = f.damage_per_second * k * dt / 1000;
            &&& block_burnt(b, dt).health matches Some(h2)
            &&& h2.max == h.max
            &&& h2.value == if h.value >= loss { h.value - loss } else { 0 }
        }),
{
    lemma_burn_damage_whole(f.damage_per_second, k, dt);
    assert(b.vulnerability.fire == (k * 1000) as i64);
}

/// The same for a burning actor.
pub proof fn lemma_actor_burns_by_vulnerability(a: Actor, f: OnFire, k: int, dt: Time)
    requires
        a.on_fire == Some(f),
        a.health.in_bounds(),
        a.stats.vulnerability.fire == k * 1000,
        k >= 0,
        f.damage_per_second >= 0,
        dt >= 0,
        f.damage_per_second * k <= i64::MAX,
        f.damage_per_second * k * dt / 1000 <= i64::MAX,
    ensures
        ({
            let loss = f.damage_per_second * k * dt / 1000;
            &&& actor_burnt(a, dt).health.max == a.health.max
            &&& actor_burnt(a, dt).health.value == if a.health.value >= loss { a.health.value - loss } else { 0 }
        }),
{
    lemma_burn_damage_whole(f.damage_per_second, k, dt);
    assert(a.stats.vulnerability.fire == (k * 1000) as i64);
}

/// A block burns exactly as an actor with the same health, burning and fire
/// vulnerability does.
pub proof fn lemma_block_burns_like_actor(b: Block, a: Actor, dt: Time)
    requires
        b.health == Some(a.health),
        b.on_fire == a.on_fire,
        b.vulnerability.fire == a.stats.vulnerability.fire,
    ensures
        block_burnt(b, dt).health == Some(actor_burnt(a, dt).health),
        block_burnt(b, dt).on_fire == actor_burnt(a, dt).on_fire,
{
}

} // verus!

verus! {

/// After the fires age by `dt`, a fire that had more than `dt` left is still there under
/// its identifier with exactly `dt` less left and nothing else changed; one that had at
/// most `dt` left is gone.
pub proof fn lemma_fire_step(a: Model, b: Model, dt: Time, i: int)
    requires
        fire_aged(a, b, dt),
        a.fire.valid(),
        0 <= i < a.fire@.len(),
        a.fire@[i].1.lifetime.in_bounds(),
        dt >= 0,
    ensures
        ({
            let id = a.fire@[i].0;
            let f = a.fire@[i].1;
            let left = (Health { value: (f.lifetime.value - dt) as i64, max: f.lifetime.max });
            &&& dt < f.lifetime.value ==> lookup(b.fire@, id) == Some((Fire { lifetime: left, ..f }))
            &&& f.lifetime.value <= dt ==> lookup(b.fire@, id) is None
        }),
{
    let f = a.fire@[i].1;
    if dt < f.lifetime.value {
        lemma_survivor_kept(a.fire@, dt, i);
    } else {
        lemma_survivor_dropped(a.fire@, dt, i);
    }
}

/// After the puddles age by `dt`, a puddle that had more than `dt` left is still there
/// under its identifier with exactly `dt` less left and nothing else changed; one that
/// had at most `dt` left has dried up.
pub proof fn lemma_gas_step(a: Model, b: Model, dt: Time, i: int)
    requires
        gas_aged(a, b, dt),
        a.gasoline.valid(),
        0 <= i < a.gasoline@.len(),
        a.gasoline@[i].1.lifetime.in_bounds(),
        dt >= 0,
    ensures
        ({
            let id = a.gasoline@[i].0;
            let g = a.gasoline@[i].1;
            let left = (Health { value: (g.lifetime.value - dt) as i64, max: g.lifetime.max });
            &&& dt < g.lifetime.value ==> lookup(b.gasoline@, id) == Some((Gasoline { lifetime: left, ..g }))
            &&& g.lifetime.value <= dt ==> lookup(b.gasoline@, id) is None
        }),
{
    let g = a.gasoline@[i].1;
    if dt < g.lifetime.value {
        lemma_survivor_kept(a.gasoline@, dt, i);
    } else {
        lemma_survivor_dropped(a.gasoline@, dt, i);
    }
}

/// After the explosions age by `dt`, one that had more than `dt` left is still there
/// under its identifier with exactly `dt` less left and nothing else changed; one that
/// had at most `dt` left is over.
pub proof fn lemma_explosion_step(a: Model, b: Model, dt: Time, i: int)
    requires
        explosions_aged(a, b, dt),
        a.explosions.valid(),
        0 <= i < a.explosions@.len(),
        a.explosions@[i].1.lifetime.in_bounds(),
        dt >= 0,
    ensures
        ({
            let id = a.explosions@[i].0;
            let e = a.explosions@[i].1;
            let left = (Health { value: (e.lifetime.value - dt) as i64, max: e.lifetime.max });
            &&& dt < e.lifetime.value ==> lookup(b.explosions@, id) == Some((Explosion { lifetime: left, ..e }))
            &&& e.lifetime.value <= dt ==> lookup(b.explosions@, id) is None
        }),
{
    let e = a.explosions@[i].1;
    if dt < e.lifetime.value {
        lemma_survivor_kept(a.explosions@, dt, i);
    } else {
        lemma_survivor_dropped(a.explosions@, dt, i);
    }
}

} // verus!
