use vstd::prelude::*;

use crate::errors::ErrorKind;

verus! {

/// Which way a dice wager bets against its target number.
#[derive(Clone, Copy, Debug, PartialEq, Eq, Structural)]
pub enum RollDirection {
    Over,
    Under,
}

/// The chance, in percent, that a roll of 0 to 99 wins against
/// `target`: rolls strictly above it for `Over`, strictly below it for
/// `Under`.
pub open spec fn spec_dice_chance(target: u8, direction: RollDirection) -> int {
    match direction {
        RollDirection::Over => 99 - target,
        RollDirection::Under => target as int,
    }
}

/// The win chance of a dice wager. Targets must leave both outcomes
/// possible: below 1 or above 98 the wager is rejected.
pub fn dice_win_chance(target: u8, direction: RollDirection) -> (r: Result<u8, ErrorKind>)
    ensures
        r is Ok <==> 1 <= target <= 98,
        match r {
            Ok(c) => {
                &&& c == spec_dice_chance(target, direction)
                &&& 1 <= c <= 98
            },
            Err(e) => {
                &&& (e == ErrorKind::BelowMinimum <==> target < 1)
                &&& (e == ErrorKind::AboveMaximum <==> target > 98)
            },
        },
{
    if target < 1 {
        return Err(ErrorKind::BelowMinimum);
    }
    if target > 98 {
        return Err(ErrorKind::AboveMaximum);
    }
    match direction {
        RollDirection::Over => Ok(99 - target),
        RollDirection::Under => Ok(target),
    }
}

/// The most a dice wager can pay: the stake times the fair multiplier
/// `100 / chance`, scaled by the 0.99 house factor — computed exactly
/// as `bet * 9_900 / (100 * chance)`. This is what the settlement cap
/// is checked against; the bettor never declares it.
pub fn dice_potential_payout(bet: u64, target: u8, direction: RollDirection) -> (r: Result<
    u64,
    ErrorKind,
>)
    ensures
        r is Ok <==> 1 <= target <= 98 && (bet * 9_900) / (100 * spec_dice_chance(
            target,
            direction,
        )) <= u64::MAX,
        match r {
            Ok(v) => v == (bet * 9_900) / (100 * spec_dice_chance(target, direction)),
            Err(e) => {
                &&& (e == ErrorKind::BelowMinimum <==> target < 1)
                &&& (e == ErrorKind::AboveMaximum <==> target > 98)
                &&& (e == ErrorKind::Overflow <==> 1 <= target <= 98 && (bet * 9_900) / (100
                    * spec_dice_chance(target, direction)) > u64::MAX)
            },
        },
{
    let chance = match dice_win_chance(target, direction) {
        Ok(c) => c,
        Err(e) => {
            return Err(e);
        },
    };
    let numerator = (bet as u128) * 9_900;
    let value = numerator / ((100 * (chance as u64)) as u128);
    if value > u64::MAX as u128 {
        return Err(ErrorKind::Overflow);
    }
    Ok(value as u64)
}

} // verus!
