//! Scattering blocks over a new level.

use vstd::prelude::*;
use crate::arena::{Arena, Id};
use crate::geometry::{valid_world, Angle, Collider, Position, Vec2};
use crate::health::Health;
use crate::model::{Block, BlockConfig, BlockKind, Color, Model, ProcGenConfig};
use rand::rngs::ThreadRng;
use crate::random::{choose_one, choose_weighted_block, gen_range, thread_rng, total_weight};
use crate::units::Coord;

verus! {

/// A full turn, in thousandths of a degree.
pub const FULL_TURN: i64 = 360_000;

/// The block of variant `v` placed at `position`.
pub open spec fn block_from(v: BlockConfig, position: Position, color: Color, rotation: Angle) -> Block {
    Block {
        collider: Collider { position, rotation, shape: v.shape },
        health: match v.health {
            Some(hp) => Some(Health::new_spec(hp)),
            None => None,
        },
        on_fire: None,
        vulnerability: v.vulnerability,
        color,
        kind: v.kind,
        explosion: v.explosion,
    }
}

/// `b` is a block that generation may produce from `config` and `palette`: of a variant
/// that can be picked, inside the world, white and unturned if a barrel, and painted
/// from the palette and turned less than a full turn if an obstacle.
pub open spec fn generated_from(b: Block, config: ProcGenConfig, palette: Seq<Color>, world_size: Vec2) -> bool {
    exists|v: BlockConfig|
        #![trigger config.blocks@.contains(v)]
        {
            &&& config.blocks@.contains(v)
            &&& v.weight > 0
            &&& b == block_from(v, b.collider.position, b.color, b.collider.rotation)
            &&& 0 <= b.collider.position.x < world_size.x
            &&& 0 <= b.collider.position.y < world_size.y
            &&& v.kind == BlockKind::Barrel ==> b.color == (Color { r: 255, g: 255, b: 255, a: 255 })
                && b.collider.rotation.millidegrees == 0
            &&& v.kind == BlockKind::Obstacle ==> palette.contains(b.color) && 0 <= b.collider.rotation.millidegrees
                < FULL_TURN
        }
}

/// Some variant of positive weight is an obstacle, so a color may be needed.
pub open spec fn may_pick_obstacle(blocks: Seq<BlockConfig>) -> bool {
    exists|k: int| 0 <= k < blocks.len() && blocks[k].kind == BlockKind::Obstacle && blocks[k].weight > 0
}

/// Generation can run: a variant can always be picked, and a color whenever an obstacle can.
pub open spec fn can_generate(config: ProcGenConfig, palette: Seq<Color>, world_size: Vec2) -> bool {
    &&& config.blocks_number * 3 <= usize::MAX
    &&& config.blocks_number > 0 ==> valid_world(world_size)
    &&& config.blocks_number > 0 ==> total_weight(config.blocks@) <= u32::MAX
    &&& config.blocks_number > 0 ==> config.blocks@.len() > 0 && total_weight(config.blocks@) > 0
    &&& config.blocks_number > 0 && may_pick_obstacle(config.blocks@) ==> palette.len() > 0
}

/// The block of variant `v` placed at `position`, unhurt and not burning.
pub fn make_block(v: BlockConfig, position: Position, color: Color, rotation: Angle) -> (b: Block)
    ensures
        b == block_from(v, position, color, rotation),
        b.collider.position == position,
        b.collider.rotation == rotation,
        b.collider.shape == v.shape,
        b.color == color,
        b.kind == v.kind,
        b.vulnerability == v.vulnerability,
        b.explosion == v.explosion,
        b.on_fire is None,
        v.health is None ==> b.health is None,
        v.health matches Some(hp) ==> b.health == Some((Health { value: hp, max: hp })),
{
    let health = match v.health {
        Some(hp) => Some(Health::new(hp)),
        None => None,
    };
    Block {
        color,
        health,
        on_fire: None,
        vulnerability: v.vulnerability,
        kind: v.kind,
        collider: Collider { position, rotation, shape: v.shape },
        explosion: v.explosion,
    }
}

/// A generated block is made after one variant that can be picked: its shape, its kind,
/// its vulnerability and what it does when it blows up are that variant's, it starts with
/// the variant's full health (or none), and it is not burning.
pub proof fn lemma_generated_block_fields(b: Block, config: ProcGenConfig, palette: Seq<Color>, world_size: Vec2)
    requires
        generated_from(b, config, palette, world_size),
    ensures
        exists|v: BlockConfig|
            #![trigger config.blocks@.contains(v)]
            {
                &&& config.blocks@.contains(v)
                &&& v.weight > 0
                &&& b.collider.shape == v.shape
                &&& b.kind == v.kind
                &&& b.vulnerability == v.vulnerability
                &&& b.explosion == v.explosion
                &&& v.health is None ==> b.health is None
                &&& v.health matches Some(hp) ==> b.health == Some((Health { value: hp, max: hp }))
            },
        b.on_fire is None,
{
    let v = choose|v: BlockConfig|
        #![trigger config.blocks@.contains(v)]
        {
            &&& config.blocks@.contains(v)
            &&& v.weight > 0
            &&& b == block_from(v, b.collider.position, b.color, b.collider.rotation)
            &&& 0 <= b.collider.position.x < world_size.x
            &&& 0 <= b.collider.position.y < world_size.y
            &&& v.kind == BlockKind::Barrel ==> b.color == (Color { r: 255, g: 255, b: 255, a: 255 })
                && b.collider.rotation.millidegrees == 0
            &&& v.kind == BlockKind::Obstacle ==> palette.contains(b.color) && 0 <= b.collider.rotation.millidegrees
                < FULL_TURN
        };
    assert(config.blocks@.contains(v));
}

impl Position {
    /// A point drawn at random inside the world.
    pub fn random(rng: &mut ThreadRng, world_size: Vec2) -> (p: Position)
        requires
            valid_world(world_size),
        ensures
            0 <= p.x < world_size.x,
            0 <= p.y < world_size.y,
    {
        Position { x: gen_range(rng, 0, world_size.x), y: gen_range(rng, 0, world_size.y) }
    }
}

/// `position` is at least `spacing` away from each of `spawns`.
pub open spec fn far_from(spawns: Seq<Position>, position: Position, world_size: Vec2, spacing: int) -> bool {
    forall|k: int| 0 <= k < spawns.len() ==> #[trigger] spawns[k].distance_spec(position, world_size) >= spacing
}

/// The spots taken from the candidate spots `candidates`, tried in order: a candidate is
/// taken when it is at least `spacing` from every spot taken before it, until `number`
/// spots are taken.
pub open spec fn greedy_spawns(candidates: Seq<Position>, number: nat, spacing: int, world_size: Vec2) -> Seq<Position>
    decreases candidates.len(),
{
    if candidates.len() == 0 {
        Seq::empty()
    } else {
        let taken = greedy_spawns(candidates.drop_last(), number, spacing, world_size);
        if taken.len() >= number {
            taken
        } else if far_from(taken, candidates.last(), world_size, spacing) {
            taken.push(candidates.last())
        } else {
            taken
        }
    }
}

/// `blocks` stand where scattering by `config` puts them: at the spots taken greedily
/// from at most three candidate spots inside the world per block asked for, all three
/// per block tried unless every block asked for was placed.
pub open spec fn placed_greedily(blocks: Seq<(Id, Block)>, config: ProcGenConfig, world_size: Vec2) -> bool {
    exists|candidates: Seq<Position>|
        #![trigger greedy_spawns(candidates, config.blocks_number as nat, config.spacing as int, world_size)]
        {
            let taken = greedy_spawns(candidates, config.blocks_number as nat, config.spacing as int, world_size);
            &&& candidates.len() <= 3 * config.blocks_number
            &&& blocks.len() < config.blocks_number ==> candidates.len() == 3 * config.blocks_number
            &&& forall|k: int|
                0 <= k < candidates.len() ==> 0 <= (#[trigger] candidates[k]).x < world_size.x && 0 <= candidates[k].y
                    < world_size.y
            &&& taken.len() == blocks.len()
            &&& forall|k: int| 0 <= k < blocks.len() ==> (#[trigger] blocks[k]).1.collider.position == taken[k]
        }
}

/// Whether `position` is at least `spacing` away from each of `spawns`.
pub fn far_from_all(spawns: &Vec<Position>, position: Position, world_size: Vec2, spacing: Coord) -> (r: bool)
    requires
        valid_world(world_size),
    ensures
        r == far_from(spawns@, position, world_size, spacing as int),
        spacing <= 0 ==> r,
{
    let mut i: usize = 0;
    while i < spawns.len()
        invariant
            i <= spawns@.len(),
            valid_world(world_size),
            forall|k: int| 0 <= k < i ==> #[trigger] spawns@[k].distance_spec(position, world_size) >= spacing,
        decreases spawns@.len() - i,
    {
        if spawns[i].distance(position, world_size) < spacing {
            return false;
        }
        i = i + 1;
    }
    true
}

/// Scatters up to `blocks_number` blocks at random over the world, each at least
/// `spacing` from those placed before it, trying about three times per block.
pub fn generate_blocks(config: &ProcGenConfig, palette: &Vec<Color>, world_size: Vec2) -> (r: Arena<Block>)
    requires
        can_generate(*config, palette@, world_size),
    ensures
        r@.len() <= config.blocks_number,
        r.next_id() == r@.len(),
        forall|k: int| 0 <= k < r@.len() ==> (#[trigger] r@[k]).0 == k,
        forall|k: int| 0 <= k < r@.len() ==> generated_from((#[trigger] r@[k]).1, *config, palette@, world_size),
        forall|a: int, b: int|
            0 <= a < b < r@.len() ==> (#[trigger] r@[a]).1.collider.position.distance_spec(
                (#[trigger] r@[b]).1.collider.position,
                world_size,
            ) >= config.spacing,
        config.blocks_number > 0 ==> r@.len() >= 1,
        config.spacing <= 0 ==> r@.len() == config.blocks_number,
        placed_greedily(r@, *config, world_size),
{
    let mut rng = thread_rng();
    let ghost mut candidates: Seq<Position> = Seq::empty();
    let mut spawns: Vec<Position> = Vec::new();
    let mut result: Arena<Block> = Arena::new();
    let max_iter = config.blocks_number * 3;
    let mut iter: usize = 0;
    while iter < max_iter && spawns.len() < config.blocks_number
        invariant
            iter <= max_iter,
            candidates.len() == iter,
            spawns@ == greedy_spawns(candidates, config.blocks_number as nat, config.spacing as int, world_size),
            forall|k: int|
                0 <= k < candidates.len() ==> 0 <= (#[trigger] candidates[k]).x < world_size.x && 0 <= candidates[k].y
                    < world_size.y,
            iter > 0 ==> result@.len() >= 1,
            config.spacing <= 0 ==> result@.len() == iter,
            can_generate(*config, palette@, world_size),
            max_iter == config.blocks_number * 3,
            spawns@.len() == result@.len(),
            result@.len() <= config.blocks_number,
            result.next_id() == result@.len(),
            forall|k: int| 0 <= k < result@.len() ==> (#[trigger] result@[k]).0 == k,
            forall|k: int| 0 <= k < result@.len() ==> (#[trigger] result@[k]).1.collider.position == spawns@[k],
            forall|k: int| 0 <= k < result@.len() ==> generated_from((#[trigger] result@[k]).1, *config, palette@, world_size),
            forall|a: int, b: int|
                0 <= a < b < spawns@.len() ==> (#[trigger] spawns@[a]).distance_spec(#[trigger] spawns@[b], world_size)
                    >= config.spacing,
        decreases max_iter - iter,
    {
        iter = iter + 1;
        let position = Position::random(&mut rng, world_size);
        proof {
            assert(candidates.push(position).drop_last() =~= candidates);
            candidates = candidates.push(position);
        }
        if !far_from_all(&spawns, position, world_size, config.spacing) {
            continue;
        }
        let chosen = choose_weighted_block(&mut rng, config.blocks.as_slice());
        let block = match chosen {
            Some(b) => *b,
            None => {
                return result;
            },
        };
        let (color, rotation) = match block.kind {
            BlockKind::Obstacle => {
                proof {
                    let k = choose|k: int| 0 <= k < config.blocks@.len() && config.blocks@[k] == block;
                    assert(may_pick_obstacle(config.blocks@));
                }
                let color = match choose_one(&mut rng, palette.as_slice()) {
                    Some(c) => *c,
                    None => {
                        return result;
                    },
                };
                (color, Angle { millidegrees: gen_range(&mut rng, 0, FULL_TURN) })
            },
            BlockKind::Barrel => (Color::white(), Angle::zero()),
        };
        let ghost before = spawns@;
        spawns.push(position);
        let placed = make_block(block, position, color, rotation);
        proof {
            assert(config.blocks@.contains(block));
            assert(generated_from(placed, *config, palette@, world_size));
            assert forall|a: int, b: int|
                0 <= a < b < spawns@.len() implies (#[trigger] spawns@[a]).distance_spec(#[trigger] spawns@[b], world_size)
                >= config.spacing by {
                if b == spawns@.len() - 1 {
                    assert(before[a] == spawns@[a]);
                } else {
                    assert(before[a] == spawns@[a] && before[b] == spawns@[b]);
                }
            }
        }
        result.insert(placed);
    }
    proof {
        let taken = greedy_spawns(candidates, config.blocks_number as nat, config.spacing as int, world_size);
        assert(taken.len() == result@.len());
        assert(placed_greedily(result@, *config, world_size));
    }
    result
}

impl Model {
    /// Scatters the foreground and background blocks of the level.
    pub fn generate_level(&mut self)
        requires
            can_generate(old(self).level.foreground, old(self).theme.foreground@, old(self).config.world_size),
            can_generate(old(self).level.background, old(self).theme.background@, old(self).config.world_size),
        ensures
            final(self).blocks@.len() <= old(self).level.foreground.blocks_number,
            old(self).level.foreground.blocks_number > 0 ==> final(self).blocks@.len() >= 1,
            old(self).level.foreground.spacing <= 0 ==> final(self).blocks@.len() == old(self).level.foreground.blocks_number,
            final(self).blocks.next_id() == final(self).blocks@.len(),
            placed_greedily(final(self).blocks@, old(self).level.foreground, old(self).config.world_size),
            placed_greedily(final(self).background_blocks@, old(self).level.background, old(self).config.world_size),
            forall|k: int| 0 <= k < final(self).blocks@.len() ==> generated_from(
                (#[trigger] final(self).blocks@[k]).1,
                old(self).level.foreground,
                old(self).theme.foreground@,
                old(self).config.world_size,
            ),
            forall|a: int, b: int|
                0 <= a < b < final(self).blocks@.len() ==> (#[trigger] final(self).blocks@[a]).1.collider.position.distance_spec(
                    (#[trigger] final(self).blocks@[b]).1.collider.position,
                    old(self).config.world_size,
                ) >= old(self).level.foreground.spacing,
            final(self).background_blocks@.len() <= old(self).level.background.blocks_number,
            old(self).level.background.blocks_number > 0 ==> final(self).background_blocks@.len() >= 1,
            old(self).level.background.spacing <= 0 ==> final(self).background_blocks@.len() == old(self).level.background.blocks_number,
            forall|k: int| 0 <= k < final(self).background_blocks@.len() ==> generated_from(
                (#[trigger] final(self).background_blocks@[k]).1,
                old(self).level.background,
                old(self).theme.background@,
                old(self).config.world_size,
            ),
            forall|a: int, b: int|
                0 <= a < b < final(self).background_blocks@.len() ==> (#[trigger] final(self).background_blocks@[a]).1.collider.position.distance_spec(
                    (#[trigger] final(self).background_blocks@[b]).1.collider.position,
                    old(self).config.world_size,
                ) >= old(self).level.background.spacing,
            final(self).actors == old(self).actors,
            final(self).player == old(self).player,
            final(self).config == old(self).config,
            final(self).level == old(self).level,
            final(self).theme == old(self).theme,
            final(self).time == old(self).time,
            final(self).time_alive == old(self).time_alive,
            final(self).camera == old(self).camera,
            final(self).projectiles == old(self).projectiles,
            final(self).gasoline == old(self).gasoline,
            final(self).fire == old(self).fire,
            final(self).explosions == old(self).explosions,
            final(self).particles == old(self).particles,
            final(self).pickups == old(self).pickups,
            final(self).queued_effects@ == old(self).queued_effects@,
    {
        self.blocks = generate_blocks(&self.level.foreground, &self.theme.foreground, self.config.world_size);
        self.background_blocks = generate_blocks(&self.level.background, &self.theme.background, self.config.world_size);
    }
}

} // verus!

