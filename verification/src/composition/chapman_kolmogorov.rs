//! Time horizons and state-space checks of composed kernels.
//!
//! Composing a STOK of horizon T₁ with one of horizon T₂ convolves their
//! termination times: t_μ = t₁ + t₂, so the composed horizon is T₁ + T₂ − 1.

use vstd::prelude::*;
use crate::types::{StokError, is_mismatch, shape1};

verus! {

/// Horizon of the convolution of two sequences of lengths `t1` and `t2`:
/// `t1 + t2 - 1`.
pub fn composed_time_horizon(t1: usize, t2: usize) -> (t: usize)
    requires
        1 <= t1 + t2 <= usize::MAX,
    ensures
        t == t1 + t2 - 1,
{
    t1 + t2 - 1
}

/// A split of a composed time `t_mu` into a first-option time below `big_t1`.
pub open spec fn first_part(t_mu: int, big_t1: int) -> int {
    if t_mu < big_t1 { t_mu } else { big_t1 - 1 }
}

/// Every pair of termination times of the two options lands inside the
/// composed horizon: `t₁ < T₁` and `t₂ < T₂` give `t₁ + t₂ < T₁ + T₂ − 1`;
/// and every composed time below that horizon is such a sum.
pub proof fn lemma_convolution_fits_horizon(big_t1: int, big_t2: int, t1: int, t2: int, t_mu: int)
    requires
        big_t1 >= 1,
        big_t2 >= 1,
    ensures
        0 <= t1 < big_t1 && 0 <= t2 < big_t2 ==> t1 + t2 < big_t1 + big_t2 - 1,
        0 <= t_mu < big_t1 + big_t2 - 1 ==> 0 <= first_part(t_mu, big_t1) < big_t1 && 0 <= t_mu
            - first_part(t_mu, big_t1) < big_t2,
{
}

/// Composition horizons are associative: composing (o₁ ∘ o₂) with o₃ gives
/// the same horizon as o₁ with (o₂ ∘ o₃).
pub proof fn lemma_composed_horizon_associative(t1: int, t2: int, t3: int)
    requires
        t1 >= 1,
        t2 >= 1,
        t3 >= 1,
    ensures
        (t1 + t2 - 1) + t3 - 1 == t1 + (t2 + t3 - 1) - 1,
{
}

/// `Ok` when two kernels live on the same number of states, else a shape
/// mismatch naming both counts.
pub fn check_same_states(expected: usize, got: usize) -> (r: Result<(), StokError>)
    ensures
        r is Ok <==> expected == got,
        r matches Err(e) ==> is_mismatch(e, seq![expected], seq![got]),
{
    if expected != got {
        return Err(StokError::DimensionMismatch { expected: shape1(expected), got: shape1(got) });
    }
    Ok(())
}

/// The common number of states of a sequence of kernels with `state_counts`
/// states each. An empty sequence is refused; otherwise the first kernel
/// whose count differs from the first one's is reported.
pub fn check_sequence_states(state_counts: &Vec<usize>) -> (r: Result<usize, StokError>)
    ensures
        state_counts@.len() == 0 ==> (r matches Err(e) && e is EmptySequence),
        state_counts@.len() > 0 ==> (r is Ok <==> forall|j: int|
            0 <= j < state_counts@.len() ==> #[trigger] state_counts@[j] == state_counts@[0]),
        r matches Ok(n) ==> n == state_counts@[0],
        forall|j: int|
            #![trigger state_counts@[j]]
            0 <= j < state_counts@.len() && state_counts@[j] != state_counts@[0] && (forall|i: int|
                0 <= i < j ==> #[trigger] state_counts@[i] == state_counts@[0]) ==> (r matches Err(e)
                && is_mismatch(e, seq![state_counts@[0]], seq![state_counts@[j]])),
{
    if state_counts.len() == 0 {
        return Err(StokError::EmptySequence);
    }
    let n_states = state_counts[0];
    let mut i: usize = 1;
    while i < state_counts.len()
        invariant
            1 <= i <= state_counts@.len(),
            n_states == state_counts@[0],
            forall|j: int| 0 <= j < i ==> #[trigger] state_counts@[j] == n_states,
        decreases state_counts.len() - i,
    {
        if state_counts[i] != n_states {
            proof {
                let d = state_counts@;
                assert forall|j: int|
                    #![trigger d[j]]
                    0 <= j < d.len() && d[j] != d[0] && (forall|k: int| 0 <= k < j ==> #[trigger] d[k] == d[0])
                        implies j == i by {
                    if j > i {
                        assert(d[i as int] == d[0]);
                    }
                }
            }
            return Err(StokError::DimensionMismatch { expected: shape1(n_states), got: shape1(state_counts[i]) });
        }
        i = i + 1;
    }
    Ok(n_states)
}

} // verus!
