//! Bounded exponential backoff between reconnect attempts.

use vstd::prelude::*;

verus! {

/// 2^e, for the small exponents the backoff policy uses.
pub open spec fn pow2(e: nat) -> nat
    decreases e,
{
    if e == 0 {
        1
    } else {
        2 * pow2((e - 1) as nat)
    }
}

/// The delay in seconds before reconnect attempt `attempt`:
/// min(2^min(attempt, 5), max_seconds).
pub open spec fn backoff_secs(attempt: u32, max_seconds: u64) -> u64 {
    let e: nat = if attempt < 5 {
        attempt as nat
    } else {
        5
    };
    if pow2(e) < max_seconds {
        pow2(e) as u64
    } else {
        max_seconds
    }
}

/// Exponential backoff delay in seconds, capped at `max_seconds`.
pub fn calculate_backoff(attempt: u32, max_seconds: u64) -> (r: u64)
    ensures
        r == backoff_secs(attempt, max_seconds),
{
    proof {
        reveal_with_fuel(pow2, 6);
    }
    let p: u64 = if attempt == 0 {
        1
    } else if attempt == 1 {
        2
    } else if attempt == 2 {
        4
    } else if attempt == 3 {
        8
    } else if attempt == 4 {
        16
    } else {
        32
    };
    if p < max_seconds {
        p
    } else {
        max_seconds
    }
}

/// The attempt counter after one more backoff: it increments, and every
/// tenth use it is reset to zero to bound its growth.
pub open spec fn next_attempt(attempt: u32) -> u32 {
    if attempt + 1 >= 10 {
        0
    } else {
        (attempt + 1) as u32
    }
}

/// Advance the reconnect attempt counter, resetting it every ten attempts.
pub fn advance_attempt(attempt: u32) -> (r: u32)
    requires
        attempt < 10,
    ensures
        r == next_attempt(attempt),
        r < 10,
{
    let next = attempt + 1;
    if next >= 10 {
        0
    } else {
        next
    }
}

} // verus!
