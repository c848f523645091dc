//! Shape checks of a task MDP (transition kernel P[S, A, S], goal function
//! f_g[S, A], constraint function f_c[S, A]) and the structure of the chain
//! MDPs used as examples.

use vstd::prelude::*;
use crate::types::{StokError, MDPDimensions, is_mismatch, is_zero_dimension_error, shape2, shape3};

verus! {

/// Checks the shapes of a task MDP and returns its dimensions.
///
/// The transition kernel must be square in its states, and goal and
/// constraint functions must have shape `[S, A]`; then the dimensions
/// `(S, A, max_time)` must all be positive. Errors come in that order.
pub fn check_task_shapes(
    t_dims: [usize; 3],
    g_dims: [usize; 2],
    c_dims: [usize; 2],
    max_time: usize,
) -> (r: Result<MDPDimensions, StokError>)
    ensures
        t_dims[0] != t_dims[2] ==> (r matches Err(e) && is_mismatch(
            e,
            seq![t_dims[0], t_dims[1], t_dims[0]],
            t_dims@,
        )),
        t_dims[0] == t_dims[2] && (g_dims[0] != t_dims[0] || g_dims[1] != t_dims[1]) ==> (r matches Err(
            e,
        ) && is_mismatch(e, seq![t_dims[0], t_dims[1]], g_dims@)),
        t_dims[0] == t_dims[2] && g_dims[0] == t_dims[0] && g_dims[1] == t_dims[1] && (c_dims[0]
            != t_dims[0] || c_dims[1] != t_dims[1]) ==> (r matches Err(e) && is_mismatch(
            e,
            seq![t_dims[0], t_dims[1]],
            c_dims@,
        )),
        task_shapes_ok(t_dims, g_dims, c_dims) && t_dims[0] == 0 ==> (r matches Err(e)
            && is_zero_dimension_error(e, "n_states"@)),
        task_shapes_ok(t_dims, g_dims, c_dims) && t_dims[0] != 0 && t_dims[1] == 0 ==> (r matches Err(
            e,
        ) && is_zero_dimension_error(e, "n_actions"@)),
        task_shapes_ok(t_dims, g_dims, c_dims) && t_dims[0] != 0 && t_dims[1] != 0 && max_time == 0
            ==> (r matches Err(e) && is_zero_dimension_error(e, "max_time"@)),
        r is Ok <==> task_shapes_ok(t_dims, g_dims, c_dims) && t_dims[0] > 0 && t_dims[1] > 0
            && max_time > 0,
        r matches Ok(d) ==> d == (MDPDimensions {
            n_states: t_dims[0],
            n_actions: t_dims[1],
            max_time,
        }),
        t_dims[2] == t_dims[0] && g_dims[0] == t_dims[0] && g_dims[1] == t_dims[1] && c_dims[0] == t_dims[0]
            && c_dims[1] == t_dims[1] && t_dims[0] > 0 && t_dims[1] > 0 && max_time > 0 ==> r == Ok::<
            MDPDimensions,
            StokError,
        >(MDPDimensions { n_states: t_dims[0], n_actions: t_dims[1], max_time }),
{
    proof {
        assert(t_dims@ =~= seq![t_dims[0], t_dims[1], t_dims[2]]);
        assert(g_dims@ =~= seq![g_dims[0], g_dims[1]]);
        assert(c_dims@ =~= seq![c_dims[0], c_dims[1]]);
    }
    if t_dims[0] != t_dims[2] {
        return Err(StokError::DimensionMismatch {
            expected: shape3(t_dims[0], t_dims[1], t_dims[0]),
            got: shape3(t_dims[0], t_dims[1], t_dims[2]),
        });
    }
    let n_states = t_dims[0];
    let n_actions = t_dims[1];
    if g_dims[0] != n_states || g_dims[1] != n_actions {
        return Err(StokError::DimensionMismatch {
            expected: shape2(n_states, n_actions),
            got: shape2(g_dims[0], g_dims[1]),
        });
    }
    if c_dims[0] != n_states || c_dims[1] != n_actions {
        return Err(StokError::DimensionMismatch {
            expected: shape2(n_states, n_actions),
            got: shape2(c_dims[0], c_dims[1]),
        });
    }
    let dims = MDPDimensions::new(n_states, n_actions, max_time);
    match dims.validate() {
        Ok(()) => Ok(dims),
        Err(e) => Err(e),
    }
}

/// The kernel is square and goal and constraint have the kernel's `[S, A]`.
pub open spec fn task_shapes_ok(t_dims: [usize; 3], g_dims: [usize; 2], c_dims: [usize; 2]) -> bool {
    &&& t_dims[0] == t_dims[2]
    &&& g_dims[0] == t_dims[0] && g_dims[1] == t_dims[1]
    &&& c_dims[0] == t_dims[0] && c_dims[1] == t_dims[1]
}

/// Checks the shapes of a sublimated (high-level only) MDP: kernel
/// `[Z, A_z, Z]`, goal and constraint `[Z, A_z]`. Returns `(Z, A_z)`.
pub fn check_sublimated_shapes(
    k_dims: [usize; 3],
    g_dims: [usize; 2],
    c_dims: [usize; 2],
) -> (r: Result<(usize, usize), StokError>)
    ensures
        k_dims[2] != k_dims[0] ==> (r matches Err(e) && is_mismatch(
            e,
            seq![k_dims[0], k_dims[1], k_dims[0]],
            k_dims@,
        )),
        k_dims[2] == k_dims[0] && (g_dims[0] != k_dims[0] || g_dims[1] != k_dims[1]) ==> (r matches Err(
            e,
        ) && is_mismatch(e, seq![k_dims[0], k_dims[1]], g_dims@)),
        k_dims[2] == k_dims[0] && g_dims[0] == k_dims[0] && g_dims[1] == k_dims[1] && (c_dims[0]
            != k_dims[0] || c_dims[1] != k_dims[1]) ==> (r matches Err(e) && is_mismatch(
            e,
            seq![k_dims[0], k_dims[1]],
            c_dims@,
        )),
        r is Ok <==> task_shapes_ok(k_dims, g_dims, c_dims),
        r matches Ok((z, a)) ==> z == k_dims[0] && a == k_dims[1],
        k_dims[2] == k_dims[0] && g_dims[0] == k_dims[0] && g_dims[1] == k_dims[1] && c_dims[0] == k_dims[0]
            && c_dims[1] == k_dims[1] ==> r == Ok::<(usize, usize), StokError>((k_dims[0], k_dims[1])),
{
    proof {
        assert(k_dims@ =~= seq![k_dims[0], k_dims[1], k_dims[2]]);
        assert(g_dims@ =~= seq![g_dims[0], g_dims[1]]);
        assert(c_dims@ =~= seq![c_dims[0], c_dims[1]]);
    }
    let n_hl_states = k_dims[0];
    let n_hl_actions = k_dims[1];
    if k_dims[2] != n_hl_states {
        return Err(StokError::DimensionMismatch {
            expected: shape3(n_hl_states, n_hl_actions, n_hl_states),
            got: shape3(k_dims[0], k_dims[1], k_dims[2]),
        });
    }
    if g_dims[0] != n_hl_states || g_dims[1] != n_hl_actions {
        return Err(StokError::DimensionMismatch {
            expected: shape2(n_hl_states, n_hl_actions),
            got: shape2(g_dims[0], g_dims[1]),
        });
    }
    if c_dims[0] != n_hl_states || c_dims[1] != n_hl_actions {
        return Err(StokError::DimensionMismatch {
            expected: shape2(n_hl_states, n_hl_actions),
            got: shape2(c_dims[0], c_dims[1]),
        });
    }
    Ok((n_hl_states, n_hl_actions))
}

// ============================================================================
// Chain MDPs
// ============================================================================

/// Number of actions of the chain MDPs: left, right, stay.
pub const CHAIN_N_ACTIONS: usize = 3;

/// The intended successor of `x` under chain action `a`: left (`0`) moves
/// one step down and stops at 0, right (`1`) one step up and stops at the
/// last state, any other action stays.
pub open spec fn chain_step(x: int, a: int, n_states: int) -> int {
    if a == 0 {
        if x > 0 { x - 1 } else { 0 }
    } else if a == 1 {
        if x + 1 < n_states { x + 1 } else { n_states - 1 }
    } else {
        x
    }
}

/// The intended successor of `x` under action `a` in a chain of `n_states`.
pub fn chain_next_state(x: usize, a: usize, n_states: usize) -> (r: usize)
    requires
        n_states > 0,
        x < n_states,
    ensures
        r == chain_step(x as int, a as int, n_states as int),
        r < n_states,
        a == 0 ==> r == (if x > 0 { x - 1 } else { 0 }),
        a == 1 ==> r == (if x + 1 < n_states { x + 1 } else { n_states - 1 }),
        a != 0 && a != 1 ==> r == x,
{
    if a == 0 {
        x.saturating_sub(1)
    } else if a == 1 {
        if x + 1 < n_states - 1 { x + 1 } else { n_states - 1 }
    } else {
        x
    }
}

/// The chain moves: left goes one state down (and stays at 0), right one
/// state up (and stays at the last state), every other action stays; so the
/// successor is always a state of the chain next to or equal to `x`.
pub proof fn lemma_chain_moves(x: int, a: int, n_states: int)
    requires
        0 <= x < n_states,
    ensures
        a == 0 && x > 0 ==> chain_step(x, a, n_states) == x - 1,
        a == 0 && x == 0 ==> chain_step(x, a, n_states) == 0,
        a == 1 && x + 1 < n_states ==> chain_step(x, a, n_states) == x + 1,
        a == 1 && x + 1 == n_states ==> chain_step(x, a, n_states) == x,
        a != 0 && a != 1 ==> chain_step(x, a, n_states) == x,
        0 <= chain_step(x, a, n_states) < n_states,
        x - 1 <= chain_step(x, a, n_states) <= x + 1,
{
}

/// Position of entry `[i, j, k]` in a row-major buffer of shape `[_, d1, d2]`.
pub open spec fn flat3(i: int, j: int, k: int, d1: int, d2: int) -> int {
    (i * d1 + j) * d2 + k
}

/// Position of entry `[i, j, k]` in a row-major buffer of shape `[d0, d1, d2]`.
pub fn flat_index3(i: usize, j: usize, k: usize, d0: usize, d1: usize, d2: usize) -> (r: usize)
    requires
        i < d0,
        j < d1,
        k < d2,
        d0 * d1 * d2 <= usize::MAX,
    ensures
        r == flat3(i as int, j as int, k as int, d1 as int, d2 as int),
        r < d0 * d1 * d2,
{
    proof {
        lemma_flat3_bound(i as int, j as int, k as int, d0 as int, d1 as int, d2 as int);
    }
    (i * d1 + j) * d2 + k
}

/// A row-major position lies within the buffer, and so do its partial sums.
pub proof fn lemma_flat3_bound(i: int, j: int, k: int, d0: int, d1: int, d2: int)
    requires
        0 <= i < d0,
        0 <= j < d1,
        0 <= k < d2,
    ensures
        0 <= i * d1 + j < d0 * d1,
        0 <= (i * d1 + j) * d2 + k < d0 * d1 * d2,
        i * d1 <= i * d1 + j,
        (i * d1 + j) * d2 <= (i * d1 + j) * d2 + k,
        d0 * d1 <= d0 * d1 * d2,
{
    assert(d0 * d1 <= d0 * d1 * d2) by (nonlinear_arith)
        requires
            d0 > 0,
            d1 > 0,
            d2 > 0,
    ;
    assert(0 <= i * d1 + j < d0 * d1) by (nonlinear_arith)
        requires
            0 <= i < d0,
            0 <= j < d1,
    ;
    let ij = i * d1 + j;
    assert(0 <= ij * d2 + k < (d0 * d1) * d2) by (nonlinear_arith)
        requires
            0 <= ij < d0 * d1,
            0 <= k < d2,
    ;
    assert(i * d1 >= 0) by (nonlinear_arith)
        requires
            i >= 0,
            d1 > 0,
    ;
}

/// Row-major positions of distinct entries are distinct, and each one
/// determines its entry.
pub proof fn lemma_flat3_injective(
    i: int,
    j: int,
    k: int,
    i2: int,
    j2: int,
    k2: int,
    d1: int,
    d2: int,
)
    requires
        0 <= i,
        0 <= j < d1,
        0 <= k < d2,
        0 <= i2,
        0 <= j2 < d1,
        0 <= k2 < d2,
        flat3(i, j, k, d1, d2) == flat3(i2, j2, k2, d1, d2),
    ensures
        i == i2 && j == j2 && k == k2,
{
    let a = i * d1 + j;
    let b = i2 * d1 + j2;
    assert(a >= 0 && b >= 0) by (nonlinear_arith)
        requires
            a == i * d1 + j,
            b == i2 * d1 + j2,
            0 <= i,
            0 <= j,
            0 <= i2,
            0 <= j2,
            d1 > 0,
    ;
    vstd::arithmetic::div_mod::lemma_fundamental_div_mod_converse(a * d2 + k, d2, a, k);
    vstd::arithmetic::div_mod::lemma_fundamental_div_mod_converse(b * d2 + k2, d2, b, k2);
    vstd::arithmetic::div_mod::lemma_fundamental_div_mod_converse(a, d1, i, j);
    vstd::arithmetic::div_mod::lemma_fundamental_div_mod_converse(b, d1, i2, j2);
}

} // verus!
