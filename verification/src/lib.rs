//! A custodial accounting and settlement core for on-chain wagering
//! services, together with the pure game logic that runs against it.

pub mod constants;
pub mod errors;
pub mod ledger;
pub mod pool;
pub mod guard;
pub mod audit;
pub mod pending;
pub mod engine;
pub mod laws;
pub mod roulette;
pub mod cell;
pub mod life;
pub mod grid;
pub mod gc;
pub mod plinko;
pub mod dice;
pub mod config;

use vstd::prelude::*;

verus! {

/// True when a cached balance refreshed at `last_refresh` is older than
/// `max_age_nanos` at time `now` (or was never refreshed at all).
pub fn is_balance_cache_stale(last_refresh: u64, now: u64, max_age_nanos: u64) -> (r: bool)
    ensures
        r == (last_refresh == 0 || now - last_refresh > max_age_nanos),
{
    if last_refresh == 0 {
        true
    } else if now >= last_refresh {
        now - last_refresh > max_age_nanos
    } else {
        false
    }
}

} // verus!

