//! Round-range gates shared by condition evaluation.

use vstd::prelude::*;

verus! {

/// Inclusive round index bounds (1-based combat rounds use `min: 1`).
pub fn round_index_in_inclusive_range(round_index: u32, min: u32, max: u32) -> (r: bool)
    ensures
        r == (min <= round_index && round_index <= max),
{
    round_index >= min && round_index <= max
}

/// Inclusive "first N combat rounds" with 1-based rounds: `round_index` in `1..=n`.
pub fn round_in_inclusive_first_n(round_index: u32, n: u32) -> (r: bool)
    ensures
        r == (n > 0 && 1 <= round_index && round_index <= n),
{
    n > 0 && round_index_in_inclusive_range(round_index, 1, n)
}

/// "First N rounds" is the inclusive range `1..=n`: the two gates agree for every round when
/// `n > 0`, and no round is in the first zero rounds.
pub proof fn lemma_first_n_is_range_from_one(round_index: u32, n: u32)
    ensures
        n > 0 ==> ((n > 0 && 1 <= round_index && round_index <= n) == (1 <= round_index
            && round_index <= n)),
        n == 0 ==> !(n > 0 && 1 <= round_index && round_index <= n),
{
}

} // verus!
