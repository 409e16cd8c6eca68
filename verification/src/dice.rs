use vstd::prelude::*;
use crate::fixed::Fixed;
use crate::noise::{add_mod, mix, spec_add_mod, spec_mix};
use crate::vector::Vec2;

verus! {

/// The next state of the dice.
pub open spec fn spec_roll(dice: u64) -> u64 {
    spec_add_mod(dice, 0x9e37_79b9_7f4a_7c15)
}

/// The share between nothing and one whole that the dice show.
pub open spec fn spec_share_of(dice: u64) -> Fixed {
    Fixed { raw: (spec_mix(dice) % 1_000_001) as i64 }
}

/// The direction that lies the share `t` of the way from the direction `a` to the direction `b`.
pub open spec fn spec_between(a: Vec2, b: Vec2, t: Fixed) -> Vec2 {
    a.plus(b.minus(a).scale(t)).normalize()
}

/// A direction down and to the left, between 120 and 150 degrees from the x-axis.
pub open spec fn spec_away_left(t: Fixed) -> Vec2 {
    spec_between(
        Vec2 { x: Fixed { raw: -500_000i64 }, y: Fixed { raw: 866_025 } },
        Vec2 { x: Fixed { raw: -866_025i64 }, y: Fixed { raw: 500_000 } },
        t,
    )
}

/// A direction down and to the right, between 30 and 60 degrees from the x-axis.
pub open spec fn spec_away_right(t: Fixed) -> Vec2 {
    spec_between(
        Vec2 { x: Fixed { raw: 866_025 }, y: Fixed { raw: 500_000 } },
        Vec2 { x: Fixed { raw: 500_000 }, y: Fixed { raw: 866_025 } },
        t,
    )
}

/// The next state of the dice.
#[verifier::when_used_as_spec(spec_roll)]
pub fn roll(dice: u64) -> (r: u64)
    ensures
        r == spec_roll(dice),
{
    add_mod(dice, 0x9e37_79b9_7f4a_7c15)
}

/// The share between nothing and one whole that the dice show.
#[verifier::when_used_as_spec(spec_share_of)]
pub fn share_of(dice: u64) -> (r: Fixed)
    ensures
        r == spec_share_of(dice),
        0 <= r.raw <= 1_000_000,
{
    Fixed { raw: (mix(dice) % 1_000_001) as i64 }
}

/// The direction that lies the share `t` of the way from the direction `a` to
/// the direction `b`.
#[verifier::when_used_as_spec(spec_between)]
pub fn between(a: Vec2, b: Vec2, t: Fixed) -> (r: Vec2)
    ensures
        r == spec_between(a, b, t),
{
    a.plus(b.minus(a).scale(t)).normalize()
}

/// A direction down and to the left, between 120 and 150 degrees from the
/// x-axis.
#[verifier::when_used_as_spec(spec_away_left)]
pub fn away_left(t: Fixed) -> (r: Vec2)
    ensures
        r == spec_away_left(t),
{
    between(
        Vec2 { x: Fixed { raw: -500_000i64 }, y: Fixed { raw: 866_025 } },
        Vec2 { x: Fixed { raw: -866_025i64 }, y: Fixed { raw: 500_000 } },
        t,
    )
}

/// A direction down and to the right, between 30 and 60 degrees from the
/// x-axis.
#[verifier::when_used_as_spec(spec_away_right)]
pub fn away_right(t: Fixed) -> (r: Vec2)
    ensures
        r == spec_away_right(t),
{
    between(
        Vec2 { x: Fixed { raw: 866_025 }, y: Fixed { raw: 500_000 } },
        Vec2 { x: Fixed { raw: 500_000 }, y: Fixed { raw: 866_025 } },
        t,
    )
}

} // verus!
