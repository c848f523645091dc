//! Index bookkeeping of sampling from a STOK row η(·, · | x).

use vstd::prelude::*;

verus! {

/// Whether an option ended in its goal or in a constraint violation.
#[derive(Clone, Copy, Debug, PartialEq, Eq)]
pub enum TerminationOutcome {
    /// The goal was reached.
    Success,
    /// A constraint was violated.
    Failure,
}

/// Splits a position `flat` of a flattened `[S, T]` row (state-major) into
/// its state `flat / T` and time `flat % T`.
pub fn split_state_time(flat: usize, max_time: usize) -> (r: (usize, usize))
    requires
        max_time > 0,
    ensures
        r.0 == flat / max_time,
        r.1 == flat % max_time,
        r.0 * max_time + r.1 == flat,
        r.1 < max_time,
{
    proof {
        vstd::arithmetic::div_mod::lemma_fundamental_div_mod(flat as int, max_time as int);
        vstd::arithmetic::div_mod::lemma_mod_bound(flat as int, max_time as int);
        let q = flat as int / max_time as int;
        assert(max_time * q == q * max_time) by (nonlinear_arith);
    }
    (flat / max_time, flat % max_time)
}

/// The split of a position recovers the state and time it was made from:
/// position `x · T + t` with `t < T` splits into `(x, t)`.
pub proof fn lemma_split_state_time_inverse(x: int, t: int, max_time: int)
    requires
        max_time > 0,
        x >= 0,
        0 <= t < max_time,
    ensures
        (x * max_time + t) / max_time == x,
        (x * max_time + t) % max_time == t,
{
    vstd::arithmetic::div_mod::lemma_fundamental_div_mod_converse(x * max_time + t, max_time, x, t);
}

} // verus!
