//! Random initial seeding: a freshly created board is dead everywhere except
//! for a sparse sprinkling of live cells.

use vstd::prelude::*;

verus! {

/// Numerator of the probability that a seeded cell starts live.
pub const LIVE_NUMERATOR: u32 = 1;

/// Denominator of the probability that a seeded cell starts live.
pub const LIVE_DENOMINATOR: u32 = 10;

/// Relies on rand::random_ratio: returns true with probability
/// numerator/denominator, drawn from the thread-local generator. It panics
/// only when the denominator is zero or the numerator exceeds it, which the
/// precondition rules out. The outcome is random, so nothing is promised of
/// the result.
#[verifier::external_body]
fn random_ratio(numerator: u32, denominator: u32) -> bool
    requires
        0 < denominator,
        numerator <= denominator,
{
    rand::random_ratio(numerator, denominator)
}

/// A board of `length` cells, each independently live with probability
/// `LIVE_NUMERATOR / LIVE_DENOMINATOR`, dead otherwise.
pub fn random_board(length: usize) -> (board: Vec<bool>)
    ensures
        board@.len() == length,
{
    let mut board: Vec<bool> = Vec::with_capacity(length);
    let mut k: usize = 0;
    while k < length
        invariant
            board@.len() == k,
            k <= length,
        decreases length - k,
    {
        board.push(random_ratio(LIVE_NUMERATOR, LIVE_DENOMINATOR));
        k = k + 1;
    }
    board
}

} // verus!
