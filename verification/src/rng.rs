//! The reproducible pseudo-random number generator the random strategies
//! draw from: a linear congruential generator over 64-bit state, each draw
//! reduced to the range `[0, 32768)`.

use vstd::prelude::*;

verus! {

/// The generator's state after one step.
pub open spec fn lcg_step(s: u64) -> u64 {
    vstd::wrapping::u64_specs::wrapping_add(
        vstd::wrapping::u64_specs::wrapping_mul(s, 1103515245),
        12345,
    )
}

/// The value drawn when stepping from state `s`.
pub open spec fn lcg_draw(s: u64) -> u64 {
    (lcg_step(s) / 65536) % 32768
}

/// Advance the generator once: the new state and the drawn value.
pub fn lcg_next(state: u64) -> (r: (u64, u64))
    ensures
        r.0 == lcg_step(state),
        r.1 == lcg_draw(state),
        r.1 < 32768,
{
    let next = state.wrapping_mul(1103515245).wrapping_add(12345);
    (next, (next / 65536) % 32768)
}

} // verus!
