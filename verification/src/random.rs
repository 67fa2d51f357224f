//! The random choices of the game, made by the `rand` crate.

use rand::rngs::ThreadRng;
use rand::seq::SliceRandom;
use rand::Rng;
use vstd::prelude::*;
use crate::model::BlockConfig;

verus! {

#[verifier::external_type_specification]
#[verifier::external_body]
pub struct ExThreadRng(ThreadRng);

/// `rand::thread_rng`: a handle on this thread's random generator. Nothing is
/// promised of it but that it can be used.
#[verifier::external_body]
pub(crate) fn thread_rng() -> ThreadRng {
    rand::thread_rng()
}

/// `Rng::gen_ratio`: `true` with probability `numerator / denominator`. Its source
/// (`Bernoulli::from_ratio`) always answers `false` for a zero numerator and `true`
/// when numerator and denominator are equal; which answer comes otherwise is left open.
#[verifier::external_body]
pub(crate) fn gen_ratio(rng: &mut ThreadRng, numerator: u32, denominator: u32) -> (r: bool)
    requires
        0 < denominator,
        numerator <= denominator,
    ensures
        numerator == 0 ==> !r,
        numerator == denominator ==> r,
{
    rng.gen_ratio(numerator, denominator)
}

/// `Rng::gen_range` on `low..high`: a value from the range; which one is left open.
#[verifier::external_body]
pub(crate) fn gen_range(rng: &mut ThreadRng, low: i64, high: i64) -> (r: i64)
    requires
        low < high,
    ensures
        low <= r < high,
{
    rng.gen_range(low..high)
}

/// `SliceRandom::choose`: one element of the slice, or `None` exactly when it is empty.
#[verifier::external_body]
pub(crate) fn choose_one<'a, T>(rng: &mut ThreadRng, items: &'a [T]) -> (r: Option<&'a T>)
    ensures
        r is None <==> items@.len() == 0,
        r matches Some(x) ==> items@.contains(*x),
{
    items.choose(rng)
}

} // verus!

verus! {

/// The sum of the weights of the block variants.
pub open spec fn total_weight(blocks: Seq<BlockConfig>) -> int
    decreases blocks.len(),
{
    if blocks.len() == 0 {
        0
    } else {
        total_weight(blocks.drop_last()) + blocks.last().weight
    }
}

/// `SliceRandom::choose_weighted` with each variant's `weight`: a variant picked with
/// probability proportional to its weight. Its source (`WeightedIndex::new`) fails only
/// for an empty slice or a zero total, and never picks a variant of weight zero.
/// Which variant comes is left open.
#[verifier::external_body]
pub(crate) fn choose_weighted_block<'a>(rng: &mut ThreadRng, blocks: &'a [BlockConfig]) -> (r: Option<&'a BlockConfig>)
    requires
        total_weight(blocks@) <= u32::MAX,
    ensures
        r is Some <==> (blocks@.len() > 0 && total_weight(blocks@) > 0),
        r matches Some(b) ==> blocks@.contains(*b) && b.weight > 0,
{
    blocks.choose_weighted(rng, |b| b.weight).ok()
}

} // verus!
