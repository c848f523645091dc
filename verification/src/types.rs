//! Index newtypes, dimension records and the error type shared by the library.

use vstd::prelude::*;
use vstd::string::*;
use crate::text::{decimal, with_number};

verus! {

// ============================================================================
// Index newtypes
// ============================================================================

/// Index of a state; kept apart from action and time indices by its type.
#[derive(Clone, Copy, Debug, PartialEq, Eq, Hash, PartialOrd, Ord)]
pub struct StateIdx(pub usize);

impl StateIdx {
    /// The printed form `S<n>`.
    pub fn to_string(&self) -> (s: String)
        ensures
            s@ == seq!['S'] + decimal(self.0 as nat),
    {
        proof {
            reveal_strlit("S");
            reveal_strlit("");
        }
        with_number("S", self.0, "")
    }
}

impl From<usize> for StateIdx {
    fn from(v: usize) -> (r: Self) {
        StateIdx(v)
    }
}

impl vstd::std_specs::convert::FromSpecImpl<usize> for StateIdx {
    open spec fn obeys_from_spec() -> bool {
        true
    }

    open spec fn from_spec(v: usize) -> Self {
        StateIdx(v)
    }
}

impl From<StateIdx> for usize {
    fn from(v: StateIdx) -> (r: Self) {
        v.0
    }
}

impl vstd::std_specs::convert::FromSpecImpl<StateIdx> for usize {
    open spec fn obeys_from_spec() -> bool {
        true
    }

    open spec fn from_spec(v: StateIdx) -> Self {
        v.0
    }
}


/// Index of an action; kept apart from state and time indices by its type.
#[derive(Clone, Copy, Debug, PartialEq, Eq, Hash, PartialOrd, Ord)]
pub struct ActionIdx(pub usize);

impl ActionIdx {
    /// The printed form `A<n>`.
    pub fn to_string(&self) -> (s: String)
        ensures
            s@ == seq!['A'] + decimal(self.0 as nat),
    {
        proof {
            reveal_strlit("A");
            reveal_strlit("");
        }
        with_number("A", self.0, "")
    }
}

impl From<usize> for ActionIdx {
    fn from(v: usize) -> (r: Self) {
        ActionIdx(v)
    }
}

impl vstd::std_specs::convert::FromSpecImpl<usize> for ActionIdx {
    open spec fn obeys_from_spec() -> bool {
        true
    }

    open spec fn from_spec(v: usize) -> Self {
        ActionIdx(v)
    }
}

impl From<ActionIdx> for usize {
    fn from(v: ActionIdx) -> (r: Self) {
        v.0
    }
}

impl vstd::std_specs::convert::FromSpecImpl<ActionIdx> for usize {
    open spec fn obeys_from_spec() -> bool {
        true
    }

    open spec fn from_spec(v: ActionIdx) -> Self {
        v.0
    }
}

/// Discrete time step of a STOK computation.
#[derive(Clone, Copy, Debug, PartialEq, Eq, Hash, PartialOrd, Ord)]
pub struct TimeIdx(pub usize);

impl TimeIdx {
    /// Subtracts `other`, stopping at time zero instead of underflowing.
    pub fn saturating_sub(&self, other: usize) -> (r: TimeIdx)
        ensures
            r.0 == if self.0 >= other { (self.0 - other) as usize } else { 0usize },
    {
        if self.0 >= other {
            TimeIdx(self.0 - other)
        } else {
            TimeIdx(0)
        }
    }

    /// Adds `other`, or returns `None` when the sum does not fit in a `usize`.
    pub fn checked_add(&self, other: usize) -> (r: Option<TimeIdx>)
        ensures
            self.0 + other <= usize::MAX ==> r == Some(TimeIdx((self.0 + other) as usize)),
            self.0 + other > usize::MAX ==> r is None,
    {
        match self.0.checked_add(other) {
            Some(v) => Some(TimeIdx(v)),
            None => None,
        }
    }

    /// The printed form `t=<n>`.
    pub fn to_string(&self) -> (s: String)
        ensures
            s@ == seq!['t', '='] + decimal(self.0 as nat),
    {
        proof {
            reveal_strlit("t=");
            reveal_strlit("");
        }
        with_number("t=", self.0, "")
    }
}

impl From<usize> for TimeIdx {
    fn from(v: usize) -> (r: Self) {
        TimeIdx(v)
    }
}

impl vstd::std_specs::convert::FromSpecImpl<usize> for TimeIdx {
    open spec fn obeys_from_spec() -> bool {
        true
    }

    open spec fn from_spec(v: usize) -> Self {
        TimeIdx(v)
    }
}

impl From<TimeIdx> for usize {
    fn from(v: TimeIdx) -> (r: Self) {
        v.0
    }
}

impl vstd::std_specs::convert::FromSpecImpl<TimeIdx> for usize {
    open spec fn obeys_from_spec() -> bool {
        true
    }

    open spec fn from_spec(v: TimeIdx) -> Self {
        v.0
    }
}

/// Identifier of a goal in a goal kernel.
#[derive(Clone, Copy, Debug, PartialEq, Eq, Hash, PartialOrd, Ord)]
pub struct GoalId(pub u32);

impl GoalId {
    /// A goal identifier with the given raw value.
    pub fn new(id: u32) -> (g: Self)
        ensures
            g.0 == id,
    {
        GoalId(id)
    }

    /// The raw identifier value.
    pub fn as_u32(&self) -> (v: u32)
        ensures
            v == self.0,
    {
        self.0
    }

    /// The printed form `Goal(<n>)`.
    pub fn to_string(&self) -> (s: String)
        ensures
            s@ == seq!['G', 'o', 'a', 'l', '('] + decimal(self.0 as nat) + seq![')'],
    {
        proof {
            reveal_strlit("Goal(");
            reveal_strlit(")");
        }
        with_number("Goal(", self.0 as usize, ")")
    }
}

impl From<u32> for GoalId {
    fn from(id: u32) -> (r: Self) {
        GoalId(id)
    }
}

impl vstd::std_specs::convert::FromSpecImpl<u32> for GoalId {
    open spec fn obeys_from_spec() -> bool {
        true
    }

    open spec fn from_spec(v: u32) -> Self {
        GoalId(v)
    }
}

// ============================================================================
// Errors
// ============================================================================

/// Failure modes of STOK computation.
///
/// Fields that hold a 32-bit float (a probability, a sum, a tolerance, a
/// convergence delta) carry its IEEE-754 bit pattern as a `u32`; this crate
/// stores and compares such values but never does arithmetic on them.
#[derive(Clone, Debug)]
pub enum StokError {
    /// Tensor shapes differ from the expected ones.
    DimensionMismatch { expected: Vec<usize>, got: Vec<usize> },
    /// A value became NaN, infinite or left its bounds during iteration.
    NumericalInstability { location: String, value_bits: u32 },
    /// A dimension parameter is invalid (for example zero).
    InvalidDimension { name: String, value: usize, reason: String },
    /// A probability left the interval [0, 1].
    InvalidProbability { value_bits: u32, context: String },
    /// A distribution does not sum to the expected total.
    NotNormalized { sum_bits: u32, expected_bits: u32, tolerance_bits: u32 },
    /// Backend initialisation or execution failed.
    DeviceError(String),
    /// Feasibility iteration did not reach its tolerance.
    ConvergenceFailure { iterations: usize, delta_bits: u32 },
    /// Composition of kernels failed.
    CompositionError { message: String },
    /// An empty sequence of options was given for composition.
    EmptySequence,
}

/// `e` reports that the dimension called `name` is zero, with the reason
/// "must be > 0".
pub open spec fn is_zero_dimension_error(e: StokError, name: Seq<char>) -> bool {
    match e {
        StokError::InvalidDimension { name: n, value, reason } => {
            &&& n@ == name
            &&& value == 0
            &&& reason@ == "must be > 0"@
        },
        _ => false,
    }
}

/// `e` reports a shape mismatch between the `expected` and `got` shapes.
pub open spec fn is_mismatch(e: StokError, expected: Seq<usize>, got: Seq<usize>) -> bool {
    match e {
        StokError::DimensionMismatch { expected: x, got: g } => x@ == expected && g@ == got,
        _ => false,
    }
}

/// A one-element shape vector.
pub fn shape1(a: usize) -> (v: Vec<usize>)
    ensures
        v@ == seq![a],
{
    let mut v = Vec::new();
    v.push(a);
    v
}

/// A two-element shape vector.
pub fn shape2(a: usize, b: usize) -> (v: Vec<usize>)
    ensures
        v@ == seq![a, b],
{
    let mut v = Vec::new();
    v.push(a);
    v.push(b);
    v
}

/// A three-element shape vector.
pub fn shape3(a: usize, b: usize, c: usize) -> (v: Vec<usize>)
    ensures
        v@ == seq![a, b, c],
{
    let mut v = Vec::new();
    v.push(a);
    v.push(b);
    v.push(c);
    v
}

/// The error for a dimension called `name` that is zero.
pub fn zero_dimension_error(name: &str) -> (e: StokError)
    ensures
        is_zero_dimension_error(e, name@),
{
    StokError::InvalidDimension {
        name: String::from_str(name),
        value: 0,
        reason: String::from_str("must be > 0"),
    }
}

// ============================================================================
// Dimensions
// ============================================================================

/// Sizes of the state space, action space and time horizon of an MDP.
#[derive(Clone, Copy, Debug, PartialEq, Eq)]
pub struct MDPDimensions {
    /// Number of states |S|.
    pub n_states: usize,
    /// Number of actions |A| at each state.
    pub n_actions: usize,
    /// Time horizon T of STOK computation.
    pub max_time: usize,
}

impl MDPDimensions {
    /// Dimension record with the given sizes (not yet validated).
    pub fn new(n_states: usize, n_actions: usize, max_time: usize) -> (d: Self)
        ensures
            d.n_states == n_states,
            d.n_actions == n_actions,
            d.max_time == max_time,
    {
        MDPDimensions { n_states, n_actions, max_time }
    }

    /// `Ok` when every size is positive; otherwise the error names the first
    /// zero size, in the order states, actions, time.
    pub fn validate(&self) -> (r: Result<(), StokError>)
        ensures
            self.n_states == 0 ==> (r matches Err(e) && is_zero_dimension_error(e, "n_states"@)),
            self.n_states != 0 && self.n_actions == 0 ==> (r matches Err(e)
                && is_zero_dimension_error(e, "n_actions"@)),
            self.n_states != 0 && self.n_actions != 0 && self.max_time == 0 ==> (r matches Err(e)
                && is_zero_dimension_error(e, "max_time"@)),
            r is Ok <==> (self.n_states > 0 && self.n_actions > 0 && self.max_time > 0),
    {
        if self.n_states == 0 {
            return Err(zero_dimension_error("n_states"));
        }
        if self.n_actions == 0 {
            return Err(zero_dimension_error("n_actions"));
        }
        if self.max_time == 0 {
            return Err(zero_dimension_error("max_time"));
        }
        Ok(())
    }

    /// Size of a state-time slice, `n_states * max_time`.
    pub fn state_time_size(&self) -> (n: usize)
        requires
            self.n_states * self.max_time <= usize::MAX,
        ensures
            n == self.n_states * self.max_time,
    {
        self.n_states * self.max_time
    }

    /// Size of the transition tensor P[S, A, S], `n_states * n_actions * n_states`.
    pub fn transition_size(&self) -> (n: usize)
        requires
            self.n_states * self.n_actions * self.n_states <= usize::MAX,
        ensures
            n == self.n_states * self.n_actions * self.n_states,
    {
        proof {
            lemma_prefix_product_fits(self.n_states as int, self.n_actions as int, self.n_states as int);
        }
        self.n_states * self.n_actions * self.n_states
    }

    /// Size of the STOK tensor eta[S, S, T], `n_states * n_states * max_time`.
    pub fn stok_size(&self) -> (n: usize)
        requires
            self.n_states * self.n_states <= usize::MAX,
            self.n_states * self.n_states * self.max_time <= usize::MAX,
        ensures
            n == self.n_states * self.n_states * self.max_time,
    {
        proof {
            lemma_prefix_product_fits(self.n_states as int, self.n_states as int, self.max_time as int);
        }
        self.n_states * self.n_states * self.max_time
    }
}

/// When a product of three naturals fits under a bound, so does the product
/// of its first two factors, unless the third factor is zero.
pub proof fn lemma_prefix_product_fits(a: int, b: int, c: int)
    requires
        a >= 0,
        b >= 0,
        c >= 0,
        a * b * c <= usize::MAX,
    ensures
        c > 0 ==> a * b <= usize::MAX,
        a * b >= 0,
{
    assert(a * b >= 0) by (nonlinear_arith)
        requires
            a >= 0,
            b >= 0,
    ;
    assert(c > 0 ==> a * b <= a * b * c) by (nonlinear_arith)
        requires
            a * b >= 0,
            c >= 0,
    ;
}

/// Sizes of a STOK: state space and time horizon (the option fixes the policy,
/// so there is no action dimension).
#[derive(Clone, Copy, Debug, PartialEq, Eq)]
pub struct STOKDimensions {
    /// Number of states |S|.
    pub n_states: usize,
    /// Time horizon T.
    pub max_time: usize,
}

impl STOKDimensions {
    /// Dimension record with the given sizes (not yet validated).
    pub fn new(n_states: usize, max_time: usize) -> (d: Self)
        ensures
            d.n_states == n_states,
            d.max_time == max_time,
    {
        STOKDimensions { n_states, max_time }
    }

    /// `Ok` when both sizes are positive; otherwise the error names the first
    /// zero size, states before time.
    pub fn validate(&self) -> (r: Result<(), StokError>)
        ensures
            self.n_states == 0 ==> (r matches Err(e) && is_zero_dimension_error(e, "n_states"@)),
            self.n_states != 0 && self.max_time == 0 ==> (r matches Err(e)
                && is_zero_dimension_error(e, "max_time"@)),
            r is Ok <==> (self.n_states > 0 && self.max_time > 0),
    {
        if self.n_states == 0 {
            return Err(zero_dimension_error("n_states"));
        }
        if self.max_time == 0 {
            return Err(zero_dimension_error("max_time"));
        }
        Ok(())
    }

    /// The STOK dimensions of an MDP: its states and horizon, without actions.
    pub fn from_mdp(mdp_dims: &MDPDimensions) -> (d: Self)
        ensures
            d.n_states == mdp_dims.n_states,
            d.max_time == mdp_dims.max_time,
    {
        STOKDimensions { n_states: mdp_dims.n_states, max_time: mdp_dims.max_time }
    }

    /// Size of a STOK tensor, `n_states * n_states * max_time`.
    pub fn stok_size(&self) -> (n: usize)
        requires
            self.n_states * self.n_states <= usize::MAX,
            self.n_states * self.n_states * self.max_time <= usize::MAX,
        ensures
            n == self.n_states * self.n_states * self.max_time,
    {
        proof {
            lemma_prefix_product_fits(self.n_states as int, self.n_states as int, self.max_time as int);
        }
        self.n_states * self.n_states * self.max_time
    }

    /// Size of a state-time slice, `n_states * max_time`.
    pub fn state_time_size(&self) -> (n: usize)
        requires
            self.n_states * self.max_time <= usize::MAX,
        ensures
            n == self.n_states * self.max_time,
    {
        self.n_states * self.max_time
    }
}

} // verus!
