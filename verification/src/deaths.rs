//! What is left behind when actors and blocks die.

use vstd::prelude::*;
use crate::arena::{ids_increasing, lemma_without_from, without, Id};
use crate::components::{Actor, ActorKind, Body};
use crate::config::{Config, ExplosionConfig};
use crate::geometry::{valid_world, Collider, Position, Shape, Vec2};
use crate::health::Health;
use crate::logic::same_setting;
use crate::model::{Block, BlockKind, Effect, Gasoline, Model, PickUp, PickUpKind, QueuedEffect};
use crate::random::{gen_ratio, thread_rng};
use crate::units::{div_trunc, trunc_div, SCALE};

verus! {

/// The gasoline that a dying actor leaves in the player's tank.
pub const DEATH_GASOLINE: i64 = 20000;

/// How long a dropped pickup lasts.
pub const PICKUP_LIFETIME: i64 = 20000;

/// The dead actors, in the order in which they stand.
pub open spec fn dead_actors(entries: Seq<(Id, Actor)>) -> Seq<(Id, Actor)>
    decreases entries.len(),
{
    if entries.len() == 0 {
        Seq::empty()
    } else {
        let rest = dead_actors(entries.drop_last());
        if entries.last().1.health.dead() {
            rest.push(entries.last())
        } else {
            rest
        }
    }
}

/// The boss feet that are still alive, in the order in which they stand.
pub open spec fn live_feet(entries: Seq<(Id, Actor)>) -> Seq<(Id, Actor)>
    decreases entries.len(),
{
    if entries.len() == 0 {
        Seq::empty()
    } else {
        let rest = live_feet(entries.drop_last());
        let a = entries.last().1;
        if a.kind == ActorKind::BossFoot && !a.health.dead() {
            rest.push(entries.last())
        } else {
            rest
        }
    }
}

/// The order in which deaths are handled, given the pending dead (next first) and the
/// live boss feet: the first boss body to go takes all live feet with it, the last
/// standing foot first.
pub open spec fn death_sequence(pending: Seq<(Id, Actor)>, feet: Seq<(Id, Actor)>) -> Seq<(Id, Actor)>
    decreases pending.len(),
{
    if pending.len() == 0 {
        Seq::empty()
    } else if pending[0].1.kind == ActorKind::BossBody {
        seq![pending[0]] + feet.reverse() + pending.drop_first()
    } else {
        seq![pending[0]] + death_sequence(pending.drop_first(), feet)
    }
}

/// The actors that die, in the order in which their deaths are handled: the dead from
/// the last standing to the first, and the live boss feet right after the first boss
/// body handled.
pub open spec fn death_order(entries: Seq<(Id, Actor)>) -> Seq<(Id, Actor)> {
    death_sequence(dead_actors(entries).reverse(), live_feet(entries))
}

/// No dead boss foot stands before a dead boss body. Otherwise the foot would be
/// handled twice, and that fails.
pub open spec fn deaths_resolvable(entries: Seq<(Id, Actor)>) -> bool {
    forall|i: int, j: int|
        0 <= i < j < entries.len() && #[trigger] entries[i].1.health.dead() && entries[i].1.kind
            == ActorKind::BossFoot && #[trigger] entries[j].1.health.dead() ==> entries[j].1.kind
            != ActorKind::BossBody
}

pub open spec fn ids_of<T>(entries: Seq<(Id, T)>) -> Seq<Id> {
    entries.map_values(|e: (Id, T)| e.0)
}

/// Items stored under consecutive identifiers from `first` on.
pub open spec fn numbered<T>(first: Id, items: Seq<T>) -> Seq<(Id, T)> {
    Seq::new(items.len(), |k: int| ((first + k) as u64, items[k]))
}

/// `h` healed by `amount`, `n` times over.
pub open spec fn healed_times(h: Health, amount: int, n: nat) -> Health
    decreases n,
{
    if n == 0 {
        h
    } else {
        healed_times(h, amount, (n - 1) as nat).changed(amount)
    }
}

pub open spec fn explosion_at(position: Position, config: ExplosionConfig) -> QueuedEffect {
    QueuedEffect { effect: Effect::Explosion { position, config } }
}

/// The blast of a dying boss body.
pub open spec fn boss_blast() -> ExplosionConfig {
    ExplosionConfig {
        radius: 100_000,
        knockback: 200_000,
        damage: 0,
        ignite_gasoline: true,
        ignite: None,
    }
}

/// The effects of one actor's death: its death explosion, if any, and the boss's blast.
pub open spec fn actor_death_effects(a: Actor, config: Config) -> Seq<QueuedEffect> {
    let own = match config.death_explosion {
        Some(c) => seq![explosion_at(a.body.collider.position, c)],
        None => Seq::empty(),
    };
    if a.kind == ActorKind::BossBody {
        own.push(explosion_at(Position { x: 0, y: 0 }, boss_blast()))
    } else {
        own
    }
}

pub open spec fn deaths_effects(order: Seq<(Id, Actor)>, config: Config) -> Seq<QueuedEffect>
    decreases order.len(),
{
    if order.len() == 0 {
        Seq::empty()
    } else {
        deaths_effects(order.drop_last(), config) + actor_death_effects(order.last().1, config)
    }
}

/// The puddle that a dying boss body leaves at the origin.
pub open spec fn boss_gasoline(config: Config) -> Gasoline {
    let gas = config.player.barrel_state.gasoline;
    Gasoline {
        collider: Collider::new_spec(Position { x: 0, y: 0 }, Shape::Circle { radius: 10_000 }),
        lifetime: Health::new_spec(gas.lifetime),
        ignite_timer: gas.ignite_timer,
        fire_radius: 50_000,
        explosion: gas.explosion,
        fire: gas.fire,
    }
}

pub open spec fn deaths_gasoline(order: Seq<(Id, Actor)>, config: Config) -> Seq<Gasoline>
    decreases order.len(),
{
    if order.len() == 0 {
        Seq::empty()
    } else {
        let rest = deaths_gasoline(order.drop_last(), config);
        if order.last().1.kind == ActorKind::BossBody {
            rest.push(boss_gasoline(config))
        } else {
            rest
        }
    }
}

/// The healing pickup that a dying actor may drop where it stood.
pub open spec fn dropped_pickup(a: Actor, config: Config) -> PickUp {
    PickUp {
        body: Body {
            collider: Collider::new_spec(a.body.collider.position, Shape::Circle { radius: config.pickups.size }),
            velocity: Vec2 { x: 0, y: 0 },
        },
        kind: PickUpKind::Heal { hp: config.pickups.heal_amount },
        lifetime: Health::new_spec(PICKUP_LIFETIME),
    }
}

/// The pickups dropped by the actors whose roll came up.
pub open spec fn drops(order: Seq<(Id, Actor)>, rolls: Seq<bool>, config: Config) -> Seq<PickUp>
    decreases order.len(),
{
    if order.len() == 0 {
        Seq::empty()
    } else {
        let rest = drops(order.drop_last(), rolls.drop_last(), config);
        if rolls.last() {
            rest.push(dropped_pickup(order.last().1, config))
        } else {
            rest
        }
    }
}

/// The blocks that can be hurt and have no health left, in order.
pub open spec fn dead_blocks(entries: Seq<(Id, Block)>) -> Seq<(Id, Block)>
    decreases entries.len(),
{
    if entries.len() == 0 {
        Seq::empty()
    } else {
        let rest = dead_blocks(entries.drop_last());
        match entries.last().1.health {
            Some(h) => if h.dead() {
                rest.push(entries.last())
            } else {
                rest
            },
            None => rest,
        }
    }
}

/// The explosion of a block that blows up when it dies: barrels with an explosion.
pub open spec fn barrel_blast(b: Block) -> Option<ExplosionConfig> {
    if b.kind == BlockKind::Barrel {
        b.explosion
    } else {
        None
    }
}

/// The puddle that a barrel leaves: a third of its blast's radius.
pub open spec fn barrel_gasoline(b: Block, blast: ExplosionConfig, config: Config) -> Gasoline {
    let gas = config.player.barrel_state.gasoline;
    let radius = trunc_div(blast.radius as int, 3) as i64;
    Gasoline {
        collider: Collider::new_spec(b.collider.position, Shape::Circle { radius }),
        lifetime: Health::new_spec(gas.lifetime),
        ignite_timer: gas.ignite_timer,
        fire_radius: radius,
        explosion: gas.explosion,
        fire: gas.fire,
    }
}

pub open spec fn blocks_effects(dead: Seq<(Id, Block)>) -> Seq<QueuedEffect>
    decreases dead.len(),
{
    if dead.len() == 0 {
        Seq::empty()
    } else {
        let rest = blocks_effects(dead.drop_last());
        let b = dead.last().1;
        match barrel_blast(b) {
            Some(c) => rest.push(explosion_at(b.collider.position, c)),
            None => rest,
        }
    }
}

pub open spec fn blocks_gasoline(dead: Seq<(Id, Block)>, config: Config) -> Seq<Gasoline>
    decreases dead.len(),
{
    if dead.len() == 0 {
        Seq::empty()
    } else {
        let rest = blocks_gasoline(dead.drop_last(), config);
        let b = dead.last().1;
        match barrel_blast(b) {
            Some(c) => rest.push(barrel_gasoline(b, c, config)),
            None => rest,
        }
    }
}

/// The number of barrels among the dead blocks.
pub open spec fn barrel_count(dead: Seq<(Id, Block)>) -> nat
    decreases dead.len(),
{
    if dead.len() == 0 {
        0
    } else {
        barrel_count(dead.drop_last()) + if dead.last().1.kind == BlockKind::Barrel { 1nat } else { 0nat }
    }
}

/// A fresh barrel of the same make as `b`, standing unturned at `spot`: at full health,
/// not burning.
pub open spec fn respawned_barrel(b: Block, spot: Position) -> Block {
    Block {
        collider: Collider::new_spec(spot, b.collider.shape),
        health: match b.health {
            Some(h) => Some(Health::new_spec(h.max)),
            None => None,
        },
        on_fire: None,
        vulnerability: b.vulnerability,
        color: b.color,
        kind: BlockKind::Barrel,
        explosion: b.explosion,
    }
}

/// The barrels that replace the dead ones, in order, the `k`-th standing at `spots[k]`.
pub open spec fn respawns(dead: Seq<(Id, Block)>, spots: Seq<Position>) -> Seq<Block>
    decreases dead.len(),
{
    if dead.len() == 0 {
        Seq::empty()
    } else {
        let b = dead.last().1;
        if b.kind == BlockKind::Barrel {
            respawns(dead.drop_last(), spots.drop_last()).push(respawned_barrel(b, spots.last()))
        } else {
            respawns(dead.drop_last(), spots)
        }
    }
}

/// `after` is `before` once the deaths have been handled with the pickup rolls `rolls`
/// and the dead barrels' replacements standing at `spots`.
pub open spec fn deaths_resolved(before: Model, after: Model, rolls: Seq<bool>, spots: Seq<Position>) -> bool {
    let order = death_order(before.actors@);
    let dead_b = dead_blocks(before.blocks@);
    let gas = deaths_gasoline(order, before.config) + blocks_gasoline(dead_b, before.config);
    let dropped = drops(order, rolls, before.config);
    &&& after.actors@ == without(before.actors@, ids_of(order))
    &&& after.actors.next_id() == before.actors.next_id()
    &&& after.blocks@ == without(before.blocks@, ids_of(dead_b)) + numbered(before.blocks.next_id(), respawns(dead_b, spots))
    &&& after.blocks.next_id() == before.blocks.next_id() + respawns(dead_b, spots).len()
    &&& after.player.gasoline == healed_times(before.player.gasoline, DEATH_GASOLINE as int, order.len())
    &&& after.player.actor == before.player.actor
    &&& after.player.out_of_view == before.player.out_of_view
    &&& after.queued_effects@ == before.queued_effects@ + deaths_effects(order, before.config)
        + blocks_effects(dead_b)
    &&& after.gasoline@ == before.gasoline@ + numbered(before.gasoline.next_id(), gas)
    &&& after.gasoline.next_id() == before.gasoline.next_id() + gas.len()
    &&& after.pickups@ == before.pickups@ + numbered(before.pickups.next_id(), dropped)
    &&& after.pickups.next_id() == before.pickups.next_id() + dropped.len()
    &&& after.fire == before.fire
    &&& after.explosions == before.explosions
    &&& after.camera == before.camera
    &&& same_setting(before, after)
}

} // verus!

verus! {

proof fn lemma_death_sequence_step(pending: Seq<(Id, Actor)>, feet: Seq<(Id, Actor)>)
    requires
        pending.len() > 0,
    ensures
        pending[0].1.kind == ActorKind::BossBody ==> death_sequence(pending, feet) == seq![pending[0]]
            + feet.reverse() + pending.drop_first(),
        pending[0].1.kind != ActorKind::BossBody ==> death_sequence(pending, feet) == seq![pending[0]]
            + death_sequence(pending.drop_first(), feet),
{
}

proof fn lemma_split_lengths(entries: Seq<(Id, Actor)>)
    ensures
        dead_actors(entries).len() + live_feet(entries).len() <= entries.len(),
    decreases entries.len(),
{
    if entries.len() > 0 {
        lemma_split_lengths(entries.drop_last());
    }
}

proof fn lemma_death_sequence_len(pending: Seq<(Id, Actor)>, feet: Seq<(Id, Actor)>)
    ensures
        death_sequence(pending, feet).len() <= pending.len() + feet.len(),
    decreases pending.len(),
{
    if pending.len() > 0 {
        lemma_death_sequence_len(pending.drop_first(), feet);
    }
}

/// No more actors die than there are.
pub proof fn lemma_death_order_len(entries: Seq<(Id, Actor)>)
    ensures
        death_order(entries).len() <= entries.len(),
{
    lemma_split_lengths(entries);
    lemma_death_sequence_len(dead_actors(entries).reverse(), live_feet(entries));
}

proof fn lemma_dead_blocks_len(entries: Seq<(Id, Block)>)
    ensures
        dead_blocks(entries).len() <= entries.len(),
    decreases entries.len(),
{
    if entries.len() > 0 {
        lemma_dead_blocks_len(entries.drop_last());
    }
}

proof fn lemma_deaths_gasoline_len(order: Seq<(Id, Actor)>, config: Config)
    ensures
        deaths_gasoline(order, config).len() <= order.len(),
    decreases order.len(),
{
    if order.len() > 0 {
        lemma_deaths_gasoline_len(order.drop_last(), config);
    }
}

proof fn lemma_blocks_gasoline_len(dead: Seq<(Id, Block)>, config: Config)
    ensures
        blocks_gasoline(dead, config).len() <= dead.len(),
    decreases dead.len(),
{
    if dead.len() > 0 {
        lemma_blocks_gasoline_len(dead.drop_last(), config);
    }
}

proof fn lemma_drops_len(order: Seq<(Id, Actor)>, rolls: Seq<bool>, config: Config)
    ensures
        drops(order, rolls, config).len() <= order.len(),
    decreases order.len(),
{
    if order.len() > 0 {
        lemma_drops_len(order.drop_last(), rolls.drop_last(), config);
    }
}

proof fn lemma_respawns_len(dead: Seq<(Id, Block)>, spots: Seq<Position>)
    ensures
        respawns(dead, spots).len() == barrel_count(dead),
        barrel_count(dead) <= dead.len(),
    decreases dead.len(),
{
    if dead.len() > 0 {
        let b = dead.last().1;
        if b.kind == BlockKind::Barrel {
            lemma_respawns_len(dead.drop_last(), spots.drop_last());
        } else {
            lemma_respawns_len(dead.drop_last(), spots);
        }
    }
}

proof fn lemma_barrel_count_prefix(dead: Seq<(Id, Block)>, j: int)
    requires
        0 <= j <= dead.len(),
    ensures
        barrel_count(dead.take(j)) <= barrel_count(dead),
    decreases dead.len(),
{
    if j == dead.len() {
        assert(dead.take(j) =~= dead);
    } else {
        let init = dead.drop_last();
        assert(init.take(j) =~= dead.take(j));
        lemma_barrel_count_prefix(init, j);
    }
}

proof fn lemma_numbered_push<T>(first: Id, items: Seq<T>, x: T)
    requires
        first + items.len() <= u64::MAX,
    ensures
        numbered(first, items.push(x)) == numbered(first, items).push(((first + items.len()) as u64, x)),
{
    assert(numbered(first, items.push(x)) =~= numbered(first, items).push(((first + items.len()) as u64, x)));
}

impl Model {
    /// The actors that die this tick, in the order in which their deaths are handled.
    pub fn death_order(&self) -> (order: Vec<(Id, Actor)>)
        ensures
            order@ == death_order(self.actors@),
    {
        let n = self.actors.len();
        let mut dead: Vec<(Id, Actor)> = Vec::new();
        let mut feet: Vec<(Id, Actor)> = Vec::new();
        let mut i: usize = 0;
        while i < n
            invariant
                n == self.actors@.len(),
                i <= n,
                dead@ == dead_actors(self.actors@.take(i as int)),
                feet@ == live_feet(self.actors@.take(i as int)),
            decreases n - i,
        {
            let (id, a) = self.actors.entry(i);
            let actor = *a;
            proof {
                assert(self.actors@.take(i + 1).drop_last() =~= self.actors@.take(i as int));
            }
            if actor.health.is_dead() {
                dead.push((id, actor));
            } else if actor.kind == ActorKind::BossFoot {
                feet.push((id, actor));
            }
            i = i + 1;
        }
        proof {
            assert(self.actors@.take(n as int) =~= self.actors@);
        }
        let ghost pending = dead@.reverse();
        let ghost all_feet = feet@;
        let ghost target = death_sequence(pending, all_feet);
        let mut order: Vec<(Id, Actor)> = Vec::new();
        let mut boss_seen = false;
        let mut k = dead.len();
        proof {
            assert(pending.skip(0) =~= pending);
            assert(order@ + pending.skip(0) =~= pending.skip(0));
            assert(order@ + death_sequence(pending.skip(0), all_feet) =~= target);
        }
        while k > 0
            invariant
                k <= dead@.len(),
                pending == dead@.reverse(),
                all_feet == feet@,
                target == death_sequence(pending, all_feet),
                !boss_seen ==> order@ + death_sequence(pending.skip(dead@.len() - k), all_feet) == target,
                boss_seen ==> order@ + pending.skip(dead@.len() - k) == target,
            decreases k,
        {
            k = k - 1;
            let ghost t = dead@.len() - k - 1;
            let e = dead[k];
            let ghost rest = pending.skip(t);
            proof {
                assert(rest[0] == e);
                assert(rest.drop_first() =~= pending.skip(t + 1));
                lemma_death_sequence_step(rest, all_feet);
            }
            let ghost before = order@;
            order.push(e);
            if !boss_seen && e.1.kind == ActorKind::BossBody {
                boss_seen = true;
                let mut f = feet.len();
                while f > 0
                    invariant
                        f <= feet@.len(),
                        order@ == before.push(e) + feet@.reverse().take(feet@.len() - f),
                    decreases f,
                {
                    f = f - 1;
                    let foot = feet[f];
                    proof {
                        assert(feet@.reverse().take(feet@.len() - f) =~= feet@.reverse().take(
                            feet@.len() - f - 1,
                        ).push(foot));
                    }
                    order.push(foot);
                }
                proof {
                    assert(feet@.reverse().take(feet@.len() as int) =~= feet@.reverse());
                    assert(order@ + pending.skip(t + 1) =~= before + (seq![e] + all_feet.reverse()
                        + rest.drop_first()));
                }
            } else {
                proof {
                    if boss_seen {
                        assert(order@ + pending.skip(t + 1) =~= before + rest);
                    } else {
                        assert(order@ + death_sequence(pending.skip(t + 1), all_feet) =~= before + (seq![e]
                            + death_sequence(rest.drop_first(), all_feet)));
                    }
                }
            }
        }
        proof {
            assert(pending.skip(dead@.len() as int) =~= Seq::<(Id, Actor)>::empty());
            assert(order@ =~= order@ + Seq::<(Id, Actor)>::empty());
        }
        order
    }

    /// The blocks that die this tick, in order.
    pub fn dead_blocks(&self) -> (dead: Vec<(Id, Block)>)
        ensures
            dead@ == dead_blocks(self.blocks@),
    {
        let n = self.blocks.len();
        let mut dead: Vec<(Id, Block)> = Vec::new();
        let mut i: usize = 0;
        while i < n
            invariant
                n == self.blocks@.len(),
                i <= n,
                dead@ == dead_blocks(self.blocks@.take(i as int)),
            decreases n - i,
        {
            let (id, b) = self.blocks.entry(i);
            let block = *b;
            proof {
                assert(self.blocks@.take(i + 1).drop_last() =~= self.blocks@.take(i as int));
            }
            match block.health {
                Some(h) => {
                    if h.is_dead() {
                        dead.push((id, block));
                    }
                },
                None => {},
            }
            i = i + 1;
        }
        proof {
            assert(self.blocks@.take(n as int) =~= self.blocks@);
        }
        dead
    }
}

} // verus!

verus! {

fn make_boss_gasoline(config: &Config) -> (g: Gasoline)
    ensures
        g == boss_gasoline(*config),
{
    let gas = config.player.barrel_state.gasoline;
    Gasoline {
        collider: Collider::new(Position::zero(), Shape::Circle { radius: 10_000 }),
        lifetime: Health::new(gas.lifetime),
        ignite_timer: gas.ignite_timer,
        fire_radius: 50_000,
        explosion: gas.explosion,
        fire: gas.fire,
    }
}

fn make_boss_blast() -> (c: ExplosionConfig)
    ensures
        c == boss_blast(),
{
    ExplosionConfig { radius: 100_000, knockback: 200_000, damage: 0, ignite_gasoline: true, ignite: None }
}

fn make_pickup(a: Actor, config: &Config) -> (p: PickUp)
    ensures
        p == dropped_pickup(a, *config),
{
    PickUp {
        body: Body::new(a.body.collider.position, Shape::Circle { radius: config.pickups.size }),
        kind: PickUpKind::Heal { hp: config.pickups.heal_amount },
        lifetime: Health::new(PICKUP_LIFETIME),
    }
}

fn make_barrel_gasoline(b: Block, blast: ExplosionConfig, config: &Config) -> (g: Gasoline)
    ensures
        g == barrel_gasoline(b, blast, *config),
{
    let gas = config.player.barrel_state.gasoline;
    let radius = div_trunc(blast.radius as i128, 3) as i64;
    Gasoline {
        collider: Collider::new(b.collider.position, Shape::Circle { radius }),
        lifetime: Health::new(gas.lifetime),
        ignite_timer: gas.ignite_timer,
        fire_radius: radius,
        explosion: gas.explosion,
        fire: gas.fire,
    }
}

fn make_respawned_barrel(b: Block, spot: Position) -> (r: Block)
    ensures
        r == respawned_barrel(b, spot),
{
    Block {
        collider: Collider::new(spot, b.collider.shape),
        health: match b.health {
            Some(h) => Some(Health::new(h.max)),
            None => None,
        },
        on_fire: None,
        vulnerability: b.vulnerability,
        color: b.color,
        kind: BlockKind::Barrel,
        explosion: b.explosion,
    }
}

fn collect_ids<T: Copy>(entries: &Vec<(Id, T)>) -> (ids: Vec<Id>)
    ensures
        ids@ == ids_of(entries@),
{
    let mut ids: Vec<Id> = Vec::new();
    let mut i: usize = 0;
    while i < entries.len()
        invariant
            i <= entries@.len(),
            ids@ == ids_of(entries@.take(i as int)),
        decreases entries@.len() - i,
    {
        ids.push(entries[i].0);
        i = i + 1;
        proof {
            assert(ids@ =~= ids_of(entries@.take(i as int)));
        }
    }
    proof {
        assert(entries@.take(entries@.len() as int) =~= entries@);
    }
    ids
}

impl Model {
    /// Handles the deaths of this tick, with `rolls[k]` telling whether the `k`-th actor
    /// in the death order drops a healing pickup.
    ///
    /// Each dying actor is removed, puts gasoline into the player's tank, and leaves its
    /// death explosion; a dying boss body takes its live feet with it and leaves a puddle
    /// and a blast at the origin. Dead blocks are removed; a dead barrel with an explosion
    /// leaves a puddle and explodes, and every dead barrel is replaced by a fresh one
    /// standing at the next of `spots`.
    pub fn resolve_deaths(&mut self, rolls: &Vec<bool>, spots: &Vec<Position>)
        requires
            deaths_resolvable(old(self).actors@),
            rolls@.len() == death_order(old(self).actors@).len(),
            spots@.len() == barrel_count(dead_blocks(old(self).blocks@)),
            old(self).blocks.next_id() + old(self).blocks@.len() <= u64::MAX,
            old(self).gasoline.next_id() + old(self).actors@.len() + old(self).blocks@.len() <= u64::MAX,
            old(self).pickups.next_id() + old(self).actors@.len() <= u64::MAX,
        ensures
            deaths_resolved(*old(self), *final(self), rolls@, spots@),
    {
        let order = self.death_order();
        let dead_b = self.dead_blocks();
        let ghost before = *self;
        proof {
            lemma_death_order_len(before.actors@);
            lemma_dead_blocks_len(before.blocks@);
            assert(order@.take(0) =~= Seq::<(Id, Actor)>::empty());
            assert(rolls@.take(0) =~= Seq::<bool>::empty());
            assert(before.queued_effects@ + deaths_effects(order@.take(0), before.config) =~= before.queued_effects@);
            assert(before.gasoline@ + numbered(before.gasoline.next_id(), deaths_gasoline(order@.take(0), before.config)) =~= before.gasoline@);
            assert(before.pickups@ + numbered(before.pickups.next_id(), drops(order@.take(0), rolls@.take(0), before.config)) =~= before.pickups@);
        }
        let ids = collect_ids(&order);
        self.actors.remove_listed(&ids);
        let n = order.len();
        let mut i: usize = 0;
        while i < n
            invariant
                n == order@.len(),
                i <= n,
                order@ == death_order(before.actors@),
                rolls@.len() == n,
                n <= before.actors@.len(),
                before.gasoline.next_id() + before.actors@.len() + before.blocks@.len() <= u64::MAX,
                before.pickups.next_id() + before.actors@.len() <= u64::MAX,
                self.actors@ == without(before.actors@, ids_of(order@)),
                self.actors.next_id() == before.actors.next_id(),
                self.player.gasoline == healed_times(before.player.gasoline, DEATH_GASOLINE as int, i as nat),
                self.player.actor == before.player.actor,
                self.player.out_of_view == before.player.out_of_view,
                self.queued_effects@ == before.queued_effects@ + deaths_effects(order@.take(i as int), before.config),
                self.gasoline@ == before.gasoline@ + numbered(before.gasoline.next_id(), deaths_gasoline(order@.take(i as int), before.config)),
                self.gasoline.next_id() == before.gasoline.next_id() + deaths_gasoline(order@.take(i as int), before.config).len(),
                self.pickups@ == before.pickups@ + numbered(before.pickups.next_id(), drops(order@.take(i as int), rolls@.take(i as int), before.config)),
                self.pickups.next_id() == before.pickups.next_id() + drops(order@.take(i as int), rolls@.take(i as int), before.config).len(),
                self.config == before.config,
                self.blocks == before.blocks,
                self.fire == before.fire,
                self.explosions == before.explosions,
                self.particles == before.particles,
                self.projectiles == before.projectiles,
                self.background_blocks == before.background_blocks,
                self.camera == before.camera,
                self.time == before.time,
                self.time_alive == before.time_alive,
                same_setting(before, *self),
            decreases n - i,
        {
            let (_, actor) = order[i];
            let ghost prefix = order@.take(i as int);
            let ghost next = order@.take(i + 1);
            proof {
                assert(next.drop_last() =~= prefix);
                assert(rolls@.take(i + 1).drop_last() =~= rolls@.take(i as int));
                lemma_deaths_gasoline_len(prefix, before.config);
                lemma_drops_len(prefix, rolls@.take(i as int), before.config);
            }
            self.player.gasoline.heal(DEATH_GASOLINE);
            let ghost q0 = self.queued_effects@;
            match self.config.death_explosion {
                Some(c) => {
                    self.queued_effects.push_back(
                        QueuedEffect { effect: Effect::Explosion { position: actor.body.collider.position, config: c } },
                    );
                },
                None => {},
            }
            if actor.kind == ActorKind::BossBody {
                let gas = make_boss_gasoline(&self.config);
                proof {
                    lemma_numbered_push(before.gasoline.next_id(), deaths_gasoline(prefix, before.config), gas);
                }
                self.gasoline.insert(gas);
                self.queued_effects.push_back(
                    QueuedEffect { effect: Effect::Explosion { position: Position::zero(), config: make_boss_blast() } },
                );
            }
            if rolls[i] {
                let p = make_pickup(actor, &self.config);
                proof {
                    lemma_numbered_push(before.pickups.next_id(), drops(prefix, rolls@.take(i as int), before.config), p);
                }
                self.pickups.insert(p);
            }
            proof {
                assert(self.queued_effects@ =~= q0 + actor_death_effects(actor, before.config));
                assert(self.queued_effects@ =~= before.queued_effects@ + deaths_effects(next, before.config));
            }
            i = i + 1;
        }
        proof {
            assert(order@.take(n as int) =~= order@);
            assert(rolls@.take(n as int) =~= rolls@);
        }
        let ghost mid = *self;
        let ids_b = collect_ids(&dead_b);
        self.blocks.remove_listed(&ids_b);
        let m = dead_b.len();
        let mut j: usize = 0;
        proof {
            assert(dead_b@.take(0) =~= Seq::<(Id, Block)>::empty());
            assert(mid.queued_effects@ + blocks_effects(dead_b@.take(0)) =~= mid.queued_effects@);
            assert(deaths_gasoline(order@, before.config) + blocks_gasoline(dead_b@.take(0), before.config) =~= deaths_gasoline(order@, before.config));
            lemma_deaths_gasoline_len(order@, before.config);
            assert(without(before.blocks@, ids_of(dead_b@)) + numbered(before.blocks.next_id(), respawns(dead_b@.take(0), spots@.take(0)))
                =~= without(before.blocks@, ids_of(dead_b@)));
        }
        let mut used: usize = 0;
        while j < m
            invariant
                m == dead_b@.len(),
                j <= m,
                dead_b@ == dead_blocks(before.blocks@),
                m <= before.blocks@.len(),
                n <= before.actors@.len(),
                order@ == death_order(before.actors@),
                deaths_gasoline(order@, before.config).len() <= n,
                before.gasoline.next_id() + before.actors@.len() + before.blocks@.len() <= u64::MAX,
                used == barrel_count(dead_b@.take(j as int)),
                spots@.len() == barrel_count(dead_b@),
                before.blocks.next_id() + before.blocks@.len() <= u64::MAX,
                self.blocks@ == without(before.blocks@, ids_of(dead_b@)) + numbered(before.blocks.next_id(),
                    respawns(dead_b@.take(j as int), spots@.take(used as int))),
                self.blocks.next_id() == before.blocks.next_id() + used,
                self.queued_effects@ == mid.queued_effects@ + blocks_effects(dead_b@.take(j as int)),
                self.gasoline@ == before.gasoline@ + numbered(before.gasoline.next_id(),
                    deaths_gasoline(order@, before.config) + blocks_gasoline(dead_b@.take(j as int), before.config)),
                self.gasoline.next_id() == before.gasoline.next_id() + (deaths_gasoline(order@, before.config)
                    + blocks_gasoline(dead_b@.take(j as int), before.config)).len(),
                self.config == before.config,
                self.actors == mid.actors,
                self.pickups == mid.pickups,
                self.player == mid.player,
                self.fire == before.fire,
                self.explosions == before.explosions,
                self.particles == before.particles,
                self.projectiles == before.projectiles,
                self.background_blocks == before.background_blocks,
                self.camera == before.camera,
                self.time == before.time,
                self.time_alive == before.time_alive,
                same_setting(before, *self),
            decreases m - j,
        {
            let (_, block) = dead_b[j];
            let ghost prefix = dead_b@.take(j as int);
            let ghost gas_before = deaths_gasoline(order@, before.config) + blocks_gasoline(prefix, before.config);
            proof {
                assert(dead_b@.take(j + 1).drop_last() =~= prefix);
                lemma_blocks_gasoline_len(prefix, before.config);
                lemma_barrel_count_prefix(dead_b@, j + 1);
                lemma_respawns_len(prefix, spots@.take(used as int));
                lemma_respawns_len(dead_b@, spots@);
            }
            if block.kind == BlockKind::Barrel {
                match block.explosion {
                    Some(c) => {
                        let gas = make_barrel_gasoline(block, c, &self.config);
                        proof {
                            lemma_numbered_push(before.gasoline.next_id(), gas_before, gas);
                            assert(deaths_gasoline(order@, before.config) + blocks_gasoline(dead_b@.take(j + 1), before.config)
                                =~= gas_before.push(gas));
                        }
                        self.gasoline.insert(gas);
                        self.queued_effects.push_back(
                            QueuedEffect { effect: Effect::Explosion { position: block.collider.position, config: c } },
                        );
                    },
                    None => {
                        proof {
                            assert(deaths_gasoline(order@, before.config) + blocks_gasoline(dead_b@.take(j + 1), before.config)
                                =~= gas_before);
                        }
                    },
                }
            } else {
                proof {
                    assert(deaths_gasoline(order@, before.config) + blocks_gasoline(dead_b@.take(j + 1), before.config)
                        =~= gas_before);
                }
            }
            if block.kind == BlockKind::Barrel {
                let spot = spots[used];
                let fresh = make_respawned_barrel(block, spot);
                proof {
                    let sp = spots@.take(used as int);
                    assert(spots@.take(used + 1).drop_last() =~= sp);
                    assert(spots@.take(used + 1).last() == spot);
                    lemma_numbered_push(before.blocks.next_id(), respawns(prefix, sp), fresh);
                }
                self.blocks.insert(fresh);
                used = used + 1;
            }
            proof {
                assert(self.queued_effects@ =~= mid.queued_effects@ + blocks_effects(dead_b@.take(j + 1)));
                assert(self.blocks@ =~= without(before.blocks@, ids_of(dead_b@)) + numbered(before.blocks.next_id(),
                    respawns(dead_b@.take(j + 1), spots@.take(used as int))));
            }
            j = j + 1;
        }
        proof {
            assert(dead_b@.take(m as int) =~= dead_b@);
            assert(self.queued_effects@ =~= before.queued_effects@ + deaths_effects(order@, before.config)
                + blocks_effects(dead_b@));
            assert(spots@.take(used as int) =~= spots@);
            lemma_respawns_len(dead_b@, spots@);
        }
    }

    /// Handles the deaths of this tick; whether a dying actor drops a healing pickup is
    /// rolled with the configured chance.
    pub fn check_deaths(&mut self, _delta_time: i64)
        requires
            deaths_resolvable(old(self).actors@),
            old(self).gasoline.next_id() + old(self).actors@.len() + old(self).blocks@.len() <= u64::MAX,
            old(self).pickups.next_id() + old(self).actors@.len() <= u64::MAX,
            death_order(old(self).actors@).len() > 0 ==> 0 <= old(self).config.death_drop_heal_chance <= SCALE,
            old(self).blocks.next_id() + old(self).blocks@.len() <= u64::MAX,
            barrel_count(dead_blocks(old(self).blocks@)) > 0 ==> valid_world(old(self).config.world_size),
        ensures
            exists|rolls: Seq<bool>, spots: Seq<Position>|
                {
                    &&& rolls.len() == death_order(old(self).actors@).len()
                    &&& old(self).config.death_drop_heal_chance == 0 ==> forall|k: int| 0 <= k < rolls.len() ==> !#[trigger] rolls[k]
                    &&& old(self).config.death_drop_heal_chance == SCALE ==> forall|k: int| 0 <= k < rolls.len() ==> #[trigger] rolls[k]
                    &&& spots.len() == barrel_count(dead_blocks(old(self).blocks@))
                    &&& forall|k: int| 0 <= k < spots.len() ==> 0 <= (#[trigger] spots[k]).x < old(self).config.world_size.x
                        && 0 <= spots[k].y < old(self).config.world_size.y
                    &&& deaths_resolved(*old(self), *final(self), rolls, spots)
                },
    {
        let n = self.death_order().len();
        let chance = self.config.death_drop_heal_chance;
        let mut rng = thread_rng();
        let mut rolls: Vec<bool> = Vec::new();
        let mut k: usize = 0;
        while k < n
            invariant
                k <= n,
                rolls@.len() == k,
                k < n ==> 0 <= chance <= SCALE,
                chance == 0 ==> forall|q: int| 0 <= q < k ==> !#[trigger] rolls@[q],
                chance == SCALE ==> forall|q: int| 0 <= q < k ==> #[trigger] rolls@[q],
            decreases n - k,
        {
            let roll = gen_ratio(&mut rng, chance as u32, SCALE as u32);
            rolls.push(roll);
            k = k + 1;
        }
        let dead_b = self.dead_blocks();
        let mut barrels: usize = 0;
        let mut i: usize = 0;
        while i < dead_b.len()
            invariant
                i <= dead_b@.len(),
                barrels == barrel_count(dead_b@.take(i as int)),
                barrels <= i,
            decreases dead_b@.len() - i,
        {
            proof {
                assert(dead_b@.take(i + 1).drop_last() =~= dead_b@.take(i as int));
            }
            if dead_b[i].1.kind == BlockKind::Barrel {
                barrels = barrels + 1;
            }
            i = i + 1;
        }
        proof {
            assert(dead_b@.take(dead_b@.len() as int) =~= dead_b@);
        }
        let world_size = self.config.world_size;
        let mut spots: Vec<Position> = Vec::new();
        while spots.len() < barrels
            invariant
                spots@.len() <= barrels,
                barrels > 0 ==> valid_world(world_size),
                forall|q: int| 0 <= q < spots@.len() ==> 0 <= (#[trigger] spots@[q]).x < world_size.x && 0 <= spots@[q].y < world_size.y,
            decreases barrels - spots@.len(),
        {
            let spot = Position::random(&mut rng, world_size);
            spots.push(spot);
        }
        self.resolve_deaths(&rolls, &spots);
    }
}

} // verus!

verus! {

proof fn lemma_dead_actors_members(entries: Seq<(Id, Actor)>)
    ensures
        forall|j: int| 0 <= j < entries.len() && entries[j].1.health.dead() ==> dead_actors(entries).contains(#[trigger] entries[j]),
        forall|e: (Id, Actor)| #[trigger] dead_actors(entries).contains(e) ==> entries.contains(e) && e.1.health.dead(),
    decreases entries.len(),
{
    if entries.len() > 0 {
        let init = entries.drop_last();
        lemma_dead_actors_members(init);
        let d = dead_actors(entries);
        let r = dead_actors(init);
        assert forall|j: int| 0 <= j < entries.len() && entries[j].1.health.dead() implies d.contains(#[trigger] entries[j]) by {
            if j < init.len() {
                assert(init[j] == entries[j]);
                let k = choose|k: int| 0 <= k < r.len() && r[k] == init[j];
                assert(d[k] == r[k]);
            } else {
                assert(d[d.len() - 1] == entries[j]);
            }
        }
        assert forall|e: (Id, Actor)| #[trigger] d.contains(e) implies entries.contains(e) && e.1.health.dead() by {
            let k = choose|k: int| 0 <= k < d.len() && d[k] == e;
            if k < r.len() {
                assert(r[k] == e);
                assert(r.contains(e));
                let j = choose|j: int| 0 <= j < init.len() && init[j] == e;
                assert(entries[j] == e);
            } else {
                assert(entries[entries.len() - 1] == e);
            }
        }
    }
}

proof fn lemma_live_feet_members(entries: Seq<(Id, Actor)>)
    ensures
        forall|j: int|
            0 <= j < entries.len() && entries[j].1.kind == ActorKind::BossFoot && !entries[j].1.health.dead()
                ==> live_feet(entries).contains(#[trigger] entries[j]),
        forall|e: (Id, Actor)| #[trigger] live_feet(entries).contains(e) ==> entries.contains(e) && e.1.kind == ActorKind::BossFoot,
    decreases entries.len(),
{
    if entries.len() > 0 {
        let init = entries.drop_last();
        lemma_live_feet_members(init);
        let d = live_feet(entries);
        let r = live_feet(init);
        assert forall|j: int|
            0 <= j < entries.len() && entries[j].1.kind == ActorKind::BossFoot && !entries[j].1.health.dead()
                implies d.contains(#[trigger] entries[j]) by {
            if j < init.len() {
                assert(init[j] == entries[j]);
                let k = choose|k: int| 0 <= k < r.len() && r[k] == init[j];
                assert(d[k] == r[k]);
            } else {
                assert(d[d.len() - 1] == entries[j]);
            }
        }
        assert forall|e: (Id, Actor)| #[trigger] d.contains(e) implies entries.contains(e) && e.1.kind == ActorKind::BossFoot by {
            let k = choose|k: int| 0 <= k < d.len() && d[k] == e;
            if k < r.len() {
                assert(r[k] == e);
                assert(r.contains(e));
                let j = choose|j: int| 0 <= j < init.len() && init[j] == e;
                assert(entries[j] == e);
            } else {
                assert(entries[entries.len() - 1] == e);
            }
        }
    }
}

proof fn lemma_death_sequence_members(pending: Seq<(Id, Actor)>, feet: Seq<(Id, Actor)>)
    ensures
        forall|e: (Id, Actor)| #[trigger] pending.contains(e) ==> death_sequence(pending, feet).contains(e),
        (exists|k: int| 0 <= k < pending.len() && pending[k].1.kind == ActorKind::BossBody) ==> forall|e: (Id, Actor)|
            #[trigger] feet.contains(e) ==> death_sequence(pending, feet).contains(e),
        forall|e: (Id, Actor)| #[trigger] death_sequence(pending, feet).contains(e) ==> pending.contains(e) || feet.contains(e),
    decreases pending.len(),
{
    if pending.len() > 0 {
        let rest = pending.drop_first();
        let s = death_sequence(pending, feet);
        if pending[0].1.kind == ActorKind::BossBody {
            assert forall|e: (Id, Actor)| #[trigger] pending.contains(e) implies s.contains(e) by {
                let k = choose|k: int| 0 <= k < pending.len() && pending[k] == e;
                if k == 0 {
                    assert(s[0] == e);
                } else {
                    assert(s[1 + feet.len() + k - 1] == e);
                }
            }
            assert forall|e: (Id, Actor)| #[trigger] feet.contains(e) implies s.contains(e) by {
                let k = choose|k: int| 0 <= k < feet.len() && feet[k] == e;
                assert(feet.reverse()[feet.len() - 1 - k] == e);
                assert(s[1 + feet.len() - 1 - k] == e);
            }
            assert forall|e: (Id, Actor)| #[trigger] s.contains(e) implies pending.contains(e) || feet.contains(e) by {
                let k = choose|k: int| 0 <= k < s.len() && s[k] == e;
                if k == 0 {
                    assert(pending[0] == e);
                } else if k < 1 + feet.len() {
                    assert(feet[feet.len() - 1 - (k - 1)] == e);
                } else {
                    assert(pending[k - feet.len()] == e);
                }
            }
        } else {
            lemma_death_sequence_members(rest, feet);
            let t = death_sequence(rest, feet);
            assert forall|e: (Id, Actor)| #[trigger] pending.contains(e) implies s.contains(e) by {
                let k = choose|k: int| 0 <= k < pending.len() && pending[k] == e;
                if k == 0 {
                    assert(s[0] == e);
                } else {
                    assert(rest[k - 1] == e);
                    assert(rest.contains(e));
                    let q = choose|q: int| 0 <= q < t.len() && t[q] == e;
                    assert(s[q + 1] == e);
                }
            }
            if exists|k: int| 0 <= k < pending.len() && pending[k].1.kind == ActorKind::BossBody {
                let k = choose|k: int| 0 <= k < pending.len() && pending[k].1.kind == ActorKind::BossBody;
                assert(rest[k - 1].1.kind == ActorKind::BossBody);
                assert forall|e: (Id, Actor)| #[trigger] feet.contains(e) implies s.contains(e) by {
                    let q = choose|q: int| 0 <= q < t.len() && t[q] == e;
                    assert(s[q + 1] == e);
                }
            }
            assert forall|e: (Id, Actor)| #[trigger] s.contains(e) implies pending.contains(e) || feet.contains(e) by {
                let k = choose|k: int| 0 <= k < s.len() && s[k] == e;
                if k == 0 {
                    assert(pending[0] == e);
                } else {
                    assert(t[k - 1] == e);
                    assert(t.contains(e));
                    if rest.contains(e) {
                        let q = choose|q: int| 0 <= q < rest.len() && rest[q] == e;
                        assert(pending[q + 1] == e);
                    }
                }
            }
        }
    }
}

proof fn lemma_ids_of_contains<T>(s: Seq<(Id, T)>, e: (Id, T))
    requires
        s.contains(e),
    ensures
        ids_of(s).contains(e.0),
{
    let k = choose|k: int| 0 <= k < s.len() && s[k] == e;
    assert(ids_of(s)[k] == e.0);
}

/// Handling the deaths leaves no dead actor, and once a boss body dies, no boss foot.
pub proof fn lemma_no_dead_left(entries: Seq<(Id, Actor)>)
    requires
        ids_increasing(entries),
    ensures
        forall|k: int|
            0 <= k < without(entries, ids_of(death_order(entries))).len() ==> !(#[trigger] without(
                entries,
                ids_of(death_order(entries)),
            )[k]).1.health.dead(),
        (exists|j: int| 0 <= j < entries.len() && entries[j].1.health.dead() && entries[j].1.kind == ActorKind::BossBody)
            ==> forall|k: int|
            0 <= k < without(entries, ids_of(death_order(entries))).len() ==> (#[trigger] without(
                entries,
                ids_of(death_order(entries)),
            )[k]).1.kind != ActorKind::BossFoot,
{
    let order = death_order(entries);
    let ids = ids_of(order);
    let rest = without(entries, ids);
    let dead = dead_actors(entries);
    let feet = live_feet(entries);
    lemma_dead_actors_members(entries);
    lemma_live_feet_members(entries);
    lemma_death_sequence_members(dead.reverse(), feet);
    lemma_without_from(entries, ids);
    assert forall|e: (Id, Actor)| #[trigger] dead.contains(e) implies dead.reverse().contains(e) by {
        let k = choose|k: int| 0 <= k < dead.len() && dead[k] == e;
        assert(dead.reverse()[dead.len() - 1 - k] == e);
    }
    assert forall|k: int| 0 <= k < rest.len() implies !(#[trigger] rest[k]).1.health.dead() by {
        let j = choose|j: int| 0 <= j < entries.len() && rest[k] == entries[j] && !ids.contains(entries[j].0);
        if entries[j].1.health.dead() {
            assert(dead.contains(entries[j]));
            assert(order.contains(entries[j]));
            lemma_ids_of_contains(order, entries[j]);
        }
    }
    if exists|j: int| 0 <= j < entries.len() && entries[j].1.health.dead() && entries[j].1.kind == ActorKind::BossBody {
        let b = choose|j: int| 0 <= j < entries.len() && entries[j].1.health.dead() && entries[j].1.kind == ActorKind::BossBody;
        assert(dead.contains(entries[b]));
        assert(dead.reverse().contains(entries[b]));
        let q = choose|q: int| 0 <= q < dead.reverse().len() && dead.reverse()[q] == entries[b];
        assert(dead.reverse()[q].1.kind == ActorKind::BossBody);
        assert forall|k: int| 0 <= k < rest.len() implies (#[trigger] rest[k]).1.kind != ActorKind::BossFoot by {
            let j = choose|j: int| 0 <= j < entries.len() && rest[k] == entries[j] && !ids.contains(entries[j].0);
            if entries[j].1.kind == ActorKind::BossFoot {
                if entries[j].1.health.dead() {
                    assert(dead.contains(entries[j]));
                    assert(order.contains(entries[j]));
                } else {
                    assert(feet.contains(entries[j]));
                    assert(order.contains(entries[j]));
                }
                lemma_ids_of_contains(order, entries[j]);
            }
        }
    }
}

/// Only the dead and, after a boss body, boss feet are handled as deaths.
pub proof fn lemma_only_dead_or_feet_die(entries: Seq<(Id, Actor)>)
    ensures
        forall|e: (Id, Actor)|
            #[trigger] death_order(entries).contains(e) ==> entries.contains(e) && (e.1.health.dead() || e.1.kind
                == ActorKind::BossFoot),
{
    let dead = dead_actors(entries);
    let feet = live_feet(entries);
    lemma_dead_actors_members(entries);
    lemma_live_feet_members(entries);
    lemma_death_sequence_members(dead.reverse(), feet);
    assert forall|e: (Id, Actor)| #[trigger] dead.reverse().contains(e) implies dead.contains(e) by {
        let k = choose|k: int| 0 <= k < dead.reverse().len() && dead.reverse()[k] == e;
        assert(dead[dead.len() - 1 - k] == e);
    }
}

/// Handling the deaths leaves no dead block behind.
pub proof fn lemma_no_dead_block_left(entries: Seq<(Id, Block)>)
    ensures
        forall|k: int|
            0 <= k < without(entries, ids_of(dead_blocks(entries))).len() ==> match (#[trigger] without(
                entries,
                ids_of(dead_blocks(entries)),
            )[k]).1.health {
                Some(h) => !h.dead(),
                None => true,
            },
{
    let dead = dead_blocks(entries);
    let rest = without(entries, ids_of(dead));
    lemma_dead_blocks_members(entries);
    lemma_without_from(entries, ids_of(dead));
    assert forall|k: int| 0 <= k < rest.len() implies match (#[trigger] rest[k]).1.health {
        Some(h) => !h.dead(),
        None => true,
    } by {
        let j = choose|j: int| 0 <= j < entries.len() && rest[k] == entries[j] && !ids_of(dead).contains(entries[j].0);
        match entries[j].1.health {
            Some(h) => {
                if h.dead() {
                    assert(dead.contains(entries[j]));
                    lemma_ids_of_contains(dead, entries[j]);
                }
            },
            None => {},
        }
    }
}

proof fn lemma_dead_blocks_members(entries: Seq<(Id, Block)>)
    ensures
        forall|j: int|
            0 <= j < entries.len() && (entries[j].1.health matches Some(h) && h.dead()) ==> dead_blocks(entries).contains(
                #[trigger] entries[j],
            ),
    decreases entries.len(),
{
    if entries.len() > 0 {
        let init = entries.drop_last();
        lemma_dead_blocks_members(init);
        let d = dead_blocks(entries);
        let r = dead_blocks(init);
        assert forall|j: int|
            0 <= j < entries.len() && (entries[j].1.health matches Some(h) && h.dead()) implies d.contains(#[trigger] entries[j]) by {
            if j < init.len() {
                assert(init[j] == entries[j]);
                let k = choose|k: int| 0 <= k < r.len() && r[k] == init[j];
                assert(d[k] == r[k]);
            } else {
                assert(d[d.len() - 1] == entries[j]);
            }
        }
    }
}

} // verus!
