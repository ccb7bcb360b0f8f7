//! The random source and the sort that the roll engine draws on, and rolls
//! made in one call.

use rand::seq::SliceRandom;
use rand::Rng;
use crate::roll::{clamp, first_faces, DieType, Roll, RollView, Take, MAX_ROLLS, MAX_SIDES};
use vstd::prelude::*;

verus! {

#[verifier::external_type_specification]
#[verifier::external_body]
pub struct ExThreadRng(rand::rngs::ThreadRng);

/// Relies on `rand::thread_rng`: a handle to the generator of the current thread.
#[verifier::external_body]
pub(crate) fn fresh_rng() -> rand::rngs::ThreadRng {
    rand::thread_rng()
}

/// Relies on `rand::Rng::gen_range` over an inclusive range: the value lies in
/// the range, which panics only when the range is empty.
#[verifier::external_body]
pub(crate) fn draw_between(rng: &mut rand::rngs::ThreadRng, low: u64, high: u64) -> (r: u64)
    requires
        low <= high,
    ensures
        low <= r <= high,
{
    rng.gen_range(low..=high)
}

/// Relies on `rand::seq::SliceRandom::choose`: `None` exactly for an empty
/// slice, otherwise one of its elements.
#[verifier::external_body]
pub(crate) fn pick_from(rng: &mut rand::rngs::ThreadRng, items: &[i64]) -> (r: Option<i64>)
    ensures
        r is None <==> items@.len() == 0,
        r matches Some(x) ==> items@.contains(x),
{
    items.choose(rng).copied()
}

/// Relies on `slice::sort`: the same elements afterwards, in ascending order.
#[verifier::external_body]
pub(crate) fn sort_ascending(v: &mut Vec<u64>)
    ensures
        final(v)@.to_multiset() == old(v)@.to_multiset(),
        forall|i: int, j: int| 0 <= i < j < final(v)@.len() ==> final(v)@[i] <= final(v)@[j],
{
    v.sort()
}

/// The roll that `roll_dice_raw` makes: `num` dice of `sides` sides, keeping
/// the `keep_highest` highest.
pub open spec fn raw_roll(num: u64, sides: u64, keep_highest: u64) -> RollView {
    RollView {
        count: clamp(num as nat, MAX_ROLLS as nat),
        custom_sides: Seq::empty(),
        die_type: DieType::Normal,
        sides: clamp(sides as nat, MAX_SIDES as nat),
        take: Some(Take::KeepHighest(keep_highest)),
        target_roll: None,
    }
}

/// The roll that `roll_custom_dice_raw` makes: `num` dice with the faces `sides`.
pub open spec fn raw_custom_roll(num: u64, sides: Seq<i64>) -> RollView {
    RollView {
        count: clamp(num as nat, MAX_ROLLS as nat),
        custom_sides: first_faces(sides),
        die_type: DieType::Custom,
        sides: 0,
        take: None,
        target_roll: None,
    }
}

/// Rolls `num` dice of `sides` sides and sums the `keep_highest` highest; 0
/// for zero-sided dice.
pub fn roll_dice_raw(num: u64, sides: u64, keep_highest: u64) -> (r: u64)
    ensures
        sides == 0 ==> r == 0,
        sides > 0 ==> raw_roll(num, sides, keep_highest).yields(r as int),
{
    if sides == 0 {
        return 0;
    }
    let mut roll = Roll::new();
    roll.count(num);
    roll.sides(sides);
    roll.keep_highest(keep_highest);
    assert(roll@ == raw_roll(num, sides, keep_highest));
    roll.roll_dice() as u64
}

/// Rolls `num` custom dice with the faces `sides` and sums the faces shown; 0
/// for an empty face list.
pub fn roll_custom_dice_raw(num: u64, sides: &[i64]) -> (r: i64)
    requires
        raw_custom_roll(num, sides@).custom_fits(),
    ensures
        raw_custom_roll(num, sides@).yields(r as int),
{
    let mut roll = Roll::new();
    roll.count(num);
    roll.add_custom_sides(sides);
    roll.die_type(DieType::Custom);
    assert(roll@ == raw_custom_roll(num, sides@));
    roll.roll_dice()
}

} // verus!
