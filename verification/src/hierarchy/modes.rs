//! Mode functions ζ: Z → E, which pick the environment mode (and so the
//! base-level dynamics) from the high-level state.

use vstd::prelude::*;
use vstd::string::*;
use crate::text::{decimal, with_number};
use crate::types::{StokError, is_mismatch, shape1, shape2, shape3};
use super::bits::{bits_value, two_pow, index_bits, lemma_bits_roundtrip, lemma_one_shl, lemma_bits_value_prefix, lemma_bits_value_bound,
    lemma_two_pow, lemma_two_pow_monotone, lemma_two_pow_word};
use super::product_space::HLState;

verus! {

/// Environment mode: the door is closed (blocking).
pub const MODE_CLOSED: usize = 0;

/// Environment mode: the door is open (passable).
pub const MODE_OPEN: usize = 1;

/// A deterministic map from high-level state to environment mode.
pub trait ModeFunction {
    /// The high-level states on which the function is defined.
    spec fn accepts(&self, hl_states: Seq<HLState>) -> bool;

    /// The mode assigned to `hl_states`.
    spec fn spec_mode(&self, hl_states: Seq<HLState>) -> nat;

    /// The number of modes, |E|.
    spec fn spec_n_modes(&self) -> nat;

    /// The name of a mode.
    spec fn spec_mode_name(&self, mode: nat) -> Seq<char>;

    /// Whether `hl_states` lies in the domain of the function.
    fn accepts_states(&self, hl_states: &[HLState]) -> (b: bool)
        ensures
            b == self.accepts(hl_states@),
    ;

    /// The mode of `hl_states`, below the number of modes.
    fn mode(&self, hl_states: &[HLState]) -> (m: usize)
        requires
            self.accepts(hl_states@),
        ensures
            m == self.spec_mode(hl_states@),
            m < self.spec_n_modes(),
    ;

    /// The number of modes.
    fn n_modes(&self) -> (n: usize)
        requires
            self.spec_n_modes() <= usize::MAX,
        ensures
            n == self.spec_n_modes(),
    ;

    /// A readable name for `mode`.
    fn mode_name(&self, mode: usize) -> (s: String)
        ensures
            s@ == self.spec_mode_name(mode as nat),
    ;
}

/// The generic name `Mode <n>`.
pub open spec fn generic_mode_name(mode: nat) -> Seq<char> {
    seq!['M', 'o', 'd', 'e', ' '] + decimal(mode)
}

/// The generic name of a mode, `Mode <n>`.
pub fn generic_mode_name_string(mode: usize) -> (s: String)
    ensures
        s@ == generic_mode_name(mode as nat),
{
    proof {
        reveal_strlit("Mode ");
        reveal_strlit("");
    }
    with_number("Mode ", mode, "")
}

// ============================================================================
// No mode switching
// ============================================================================

/// The constant mode function ζ(z) = 0: a single mode, no switching.
#[derive(Clone, Debug, Default)]
pub struct NoMode;

impl ModeFunction for NoMode {
    open spec fn accepts(&self, hl_states: Seq<HLState>) -> bool {
        true
    }

    open spec fn spec_mode(&self, hl_states: Seq<HLState>) -> nat {
        0
    }

    open spec fn spec_n_modes(&self) -> nat {
        1
    }

    open spec fn spec_mode_name(&self, mode: nat) -> Seq<char> {
        "NoMode"@
    }

    fn accepts_states(&self, hl_states: &[HLState]) -> (b: bool) {
        true
    }

    fn mode(&self, hl_states: &[HLState]) -> (m: usize) {
        0
    }

    fn n_modes(&self) -> (n: usize) {
        1
    }

    fn mode_name(&self, mode: usize) -> (s: String) {
        String::from_str("NoMode")
    }
}

// ============================================================================
// Key-controlled door
// ============================================================================

/// A door opened by a key bit: mode `MODE_OPEN` when the key bit of the
/// given high-level component is set, `MODE_CLOSED` otherwise.
#[derive(Clone, Debug)]
pub struct KeyDoorMode {
    /// High-level component that holds the key bit.
    pub key_space_index: usize,
    /// Position of the key bit in that component's flags.
    pub key_bit_index: usize,
}

impl KeyDoorMode {
    /// A door whose key is bit `key_bit_index` of component `key_space_index`.
    pub fn new(key_space_index: usize, key_bit_index: usize) -> (m: Self)
        ensures
            m.key_space_index == key_space_index,
            m.key_bit_index == key_bit_index,
    {
        KeyDoorMode { key_space_index, key_bit_index }
    }
}

impl ModeFunction for KeyDoorMode {
    /// The key component exists, is a binary vector, and has the key bit.
    open spec fn accepts(&self, hl_states: Seq<HLState>) -> bool {
        &&& self.key_space_index < hl_states.len()
        &&& hl_states[self.key_space_index as int] is BinaryVector
        &&& self.key_bit_index < hl_states[self.key_space_index as int]->BinaryVector_0@.len()
    }

    open spec fn spec_mode(&self, hl_states: Seq<HLState>) -> nat {
        if hl_states[self.key_space_index as int]->BinaryVector_0@[self.key_bit_index as int] {
            MODE_OPEN as nat
        } else {
            MODE_CLOSED as nat
        }
    }

    open spec fn spec_n_modes(&self) -> nat {
        2
    }

    open spec fn spec_mode_name(&self, mode: nat) -> Seq<char> {
        if mode == MODE_CLOSED {
            "DoorClosed"@
        } else if mode == MODE_OPEN {
            "DoorOpen"@
        } else {
            "UnknownMode("@ + decimal(mode) + ")"@
        }
    }

    fn accepts_states(&self, hl_states: &[HLState]) -> (b: bool) {
        if self.key_space_index >= hl_states.len() {
            return false;
        }
        match &hl_states[self.key_space_index] {
            HLState::BinaryVector(bits) => self.key_bit_index < bits.len(),
            _ => false,
        }
    }

    fn mode(&self, hl_states: &[HLState]) -> (m: usize)
        ensures
            m == (if hl_states@[self.key_space_index as int]->BinaryVector_0@[self.key_bit_index as int] {
                MODE_OPEN
            } else {
                MODE_CLOSED
            }),
    {
        let key_state = &hl_states[self.key_space_index];
        let bits = key_state.as_binary_vec();
        if bits[self.key_bit_index] {
            MODE_OPEN
        } else {
            MODE_CLOSED
        }
    }

    fn n_modes(&self) -> (n: usize) {
        2
    }

    fn mode_name(&self, mode: usize) -> (s: String) {
        if mode == MODE_CLOSED {
            String::from_str("DoorClosed")
        } else if mode == MODE_OPEN {
            String::from_str("DoorOpen")
        } else {
            with_number("UnknownMode(", mode, ")")
        }
    }
}

// ============================================================================
// Several bits
// ============================================================================

/// Mode read from `k` chosen bits of one high-level component, least
/// significant first: `2^k` modes.
#[derive(Clone, Debug)]
pub struct MultiBitMode {
    /// High-level component that holds the mode bits.
    pub space_index: usize,
    /// Positions of the mode bits in that component's flags.
    pub bit_indices: Vec<usize>,
}

/// The selected bits of `bits`, in the order of `positions`.
pub open spec fn selected_bits(bits: Seq<bool>, positions: Seq<usize>) -> Seq<bool> {
    Seq::new(positions.len(), |i: int| bits[positions[i] as int])
}

impl MultiBitMode {
    /// A mode function reading bits `bit_indices` (least significant first)
    /// of component `space_index`.
    pub fn new(space_index: usize, bit_indices: Vec<usize>) -> (m: Self)
        ensures
            m.space_index == space_index,
            m.bit_indices@ == bit_indices@,
    {
        MultiBitMode { space_index, bit_indices }
    }
}

impl ModeFunction for MultiBitMode {
    /// The component exists, is a binary vector containing every selected
    /// position, and at most a word's worth of bits is selected.
    open spec fn accepts(&self, hl_states: Seq<HLState>) -> bool {
        &&& self.space_index < hl_states.len()
        &&& hl_states[self.space_index as int] is BinaryVector
        &&& self.bit_indices@.len() < usize::BITS
        &&& forall|i: int|
            0 <= i < self.bit_indices@.len() ==> #[trigger] self.bit_indices@[i]
                < hl_states[self.space_index as int]->BinaryVector_0@.len()
    }

    open spec fn spec_mode(&self, hl_states: Seq<HLState>) -> nat {
        bits_value(
            selected_bits(hl_states[self.space_index as int]->BinaryVector_0@, self.bit_indices@),
        )
    }

    open spec fn spec_n_modes(&self) -> nat {
        two_pow(self.bit_indices@.len())
    }

    open spec fn spec_mode_name(&self, mode: nat) -> Seq<char> {
        generic_mode_name(mode)
    }

    fn accepts_states(&self, hl_states: &[HLState]) -> (b: bool) {
        if self.space_index >= hl_states.len() {
            return false;
        }
        match &hl_states[self.space_index] {
            HLState::BinaryVector(bits) => {
                if self.bit_indices.len() >= usize::BITS as usize {
                    return false;
                }
                let mut i: usize = 0;
                while i < self.bit_indices.len()
                    invariant
                        self.space_index < hl_states@.len(),
                        hl_states@[self.space_index as int] is BinaryVector,
                        hl_states@[self.space_index as int]->BinaryVector_0@ == bits@,
                        self.bit_indices@.len() < usize::BITS,
                        i <= self.bit_indices@.len(),
                        forall|j: int| 0 <= j < i ==> #[trigger] self.bit_indices@[j] < bits@.len(),
                    decreases self.bit_indices.len() - i,
                {
                    if self.bit_indices[i] >= bits.len() {
                        return false;
                    }
                    i = i + 1;
                }
                true
            },
            _ => false,
        }
    }

    fn mode(&self, hl_states: &[HLState]) -> (m: usize) {
        let state = &hl_states[self.space_index];
        let bits = state.as_binary_vec();
        let ghost sel = selected_bits(bits@, self.bit_indices@);
        let mut mode: usize = 0;
        let mut i: usize = 0;
        let n = self.bit_indices.len();
        while i < n
            invariant
                n == self.bit_indices@.len(),
                n < usize::BITS,
                i <= n,
                bits@ == hl_states@[self.space_index as int]->BinaryVector_0@,
                sel == selected_bits(bits@, self.bit_indices@),
                forall|j: int| 0 <= j < n ==> #[trigger] self.bit_indices@[j] < bits@.len(),
                mode == bits_value(sel.subrange(0, i as int)),
            decreases n - i,
        {
            let bit_idx = self.bit_indices[i];
            proof {
                lemma_bits_value_prefix(sel, i as int);
                lemma_bits_value_bound(sel.subrange(0, i as int));
                lemma_one_shl(i);
            }
            if bits[bit_idx] {
                let one: usize = 1;
                proof {
                    let m = mode;
                    let ii = i;
                    assert(m < (1usize << ii) ==> m | (1usize << ii) == m + (1usize << ii))
                        by (bit_vector);
                }
                mode = mode | (one << i);
            }
            i = i + 1;
        }
        proof {
            assert(sel.subrange(0, n as int) =~= sel);
            lemma_bits_value_bound(sel);
        }
        mode
    }

    fn n_modes(&self) -> (n: usize) {
        let k = self.bit_indices.len();
        proof {
            lemma_two_pow_word();
            if k >= usize::BITS {
                lemma_two_pow_monotone(usize::BITS as nat, k as nat);
            }
            lemma_one_shl(k);
        }
        1usize << k
    }

    fn mode_name(&self, mode: usize) -> (s: String) {
        generic_mode_name_string(mode)
    }
}

// ============================================================================
// Shape checks for mode-conditioned MDPs
// ============================================================================

/// Checks the tensor shapes of a mode-conditioned MDP: one transition kernel
/// `[S, A, S]` per mode, all of the same square shape, and goal and
/// constraint functions of shape `[S, A]`. Returns `(S, A)`, read from the
/// first kernel.
///
/// Errors, in the order checked: the number of kernels differs from the number
/// of modes; there are no kernels; the first kernel is not square in its
/// states; a later kernel's shape differs from the first one's (the first such
/// kernel is reported); the goal shape, then the constraint shape, is not
/// `[S, A]`.
pub fn check_mode_kernel_shapes(
    n_modes: usize,
    transition_dims: &Vec<[usize; 3]>,
    goal_dims: [usize; 2],
    constraint_dims: [usize; 2],
) -> (r: Result<(usize, usize), StokError>)
    ensures
        r is Ok <==> mode_shapes_ok(n_modes, transition_dims@, goal_dims, constraint_dims),
        r matches Ok((s, a)) ==> s == transition_dims@[0][0] && a == transition_dims@[0][1],
        ({
            let d = transition_dims@;
            d.len() == n_modes && n_modes >= 1 && (forall|j: int| 0 <= j < d.len() ==> #[trigger] d[j] == d[0])
                && d[0][0] == d[0][2] && goal_dims[0] == d[0][0] && goal_dims[1] == d[0][1]
                && constraint_dims[0] == d[0][0] && constraint_dims[1] == d[0][1] ==> r == Ok::<
                (usize, usize),
                StokError,
            >((d[0][0], d[0][1]))
        }),
        transition_dims@.len() != n_modes ==> (r matches Err(e) && is_mismatch(
            e,
            seq![n_modes],
            seq![transition_dims@.len() as usize],
        )),
        transition_dims@.len() == n_modes && n_modes == 0 ==> (r matches Err(e) && is_mismatch(
            e,
            seq![1usize],
            seq![0usize],
        )),
        ({
            let d = transition_dims@;
            d.len() == n_modes && n_modes > 0 && d[0][0] != d[0][2] ==> (r matches Err(e)
                && is_mismatch(e, seq![d[0][0], d[0][1], d[0][0]], d[0]@))
        }),
        ({
            let d = transition_dims@;
            forall|j: int|
                #![trigger d[j]]
                d.len() == n_modes && n_modes > 0 && d[0][0] == d[0][2] && 0 <= j < d.len() && d[j]
                    != d[0] && (forall|i: int| 0 <= i < j ==> #[trigger] d[i] == d[0]) ==> (r matches Err(
                    e,
                ) && is_mismatch(e, d[0]@, d[j]@))
        }),
        ({
            let d = transition_dims@;
            d.len() == n_modes && n_modes > 0 && d[0][0] == d[0][2] && (forall|j: int|
                0 <= j < d.len() ==> #[trigger] d[j] == d[0]) && (goal_dims[0] != d[0][0]
                || goal_dims[1] != d[0][1]) ==> (r matches Err(e) && is_mismatch(
                e,
                seq![d[0][0], d[0][1]],
                goal_dims@,
            ))
        }),
        ({
            let d = transition_dims@;
            d.len() == n_modes && n_modes > 0 && d[0][0] == d[0][2] && (forall|j: int|
                0 <= j < d.len() ==> #[trigger] d[j] == d[0]) && goal_dims[0] == d[0][0]
                && goal_dims[1] == d[0][1] && (constraint_dims[0] != d[0][0] || constraint_dims[1]
                != d[0][1]) ==> (r matches Err(e) && is_mismatch(
                e,
                seq![d[0][0], d[0][1]],
                constraint_dims@,
            ))
        }),
{
    if transition_dims.len() != n_modes {
        return Err(StokError::DimensionMismatch { expected: shape1(n_modes), got: shape1(transition_dims.len()) });
    }
    if transition_dims.len() == 0 {
        return Err(StokError::DimensionMismatch { expected: shape1(1), got: shape1(0) });
    }
    let dims = transition_dims[0];
    let n_states = dims[0];
    let n_actions = dims[1];
    let mut i: usize = 0;
    while i < transition_dims.len()
        invariant
            i <= transition_dims@.len(),
            transition_dims@.len() == n_modes,
            n_modes > 0,
            dims == transition_dims@[0],
            n_states == dims[0],
            n_actions == dims[1],
            forall|j: int| 0 <= j < i ==> #[trigger] transition_dims@[j] == dims,
            i > 0 ==> dims[0] == dims[2],
        decreases transition_dims.len() - i,
    {
        let trans_dims = transition_dims[i];
        if trans_dims[0] != dims[0] || trans_dims[1] != dims[1] || trans_dims[2] != dims[2] {
            proof {
                assert(trans_dims != dims);
                assert(dims@ =~= seq![dims[0], dims[1], dims[2]]);
                assert(trans_dims@ =~= seq![trans_dims[0], trans_dims[1], trans_dims[2]]);
                let d = transition_dims@;
                assert forall|j: int|
                    #![trigger d[j]]
                    0 <= j < d.len() && d[j] != d[0] && (forall|k: int|
                        0 <= k < j ==> #[trigger] d[k] == d[0]) implies j == i by {
                    if j > i {
                        assert(d[i as int] == d[0]);
                    }
                }
            }
            return Err(StokError::DimensionMismatch {
                expected: shape3(dims[0], dims[1], dims[2]),
                got: shape3(trans_dims[0], trans_dims[1], trans_dims[2]),
            });
        }
        proof {
            assert(trans_dims =~= dims);
        }
        if trans_dims[0] != trans_dims[2] {
            proof {
                assert(trans_dims@ =~= seq![trans_dims[0], trans_dims[1], trans_dims[2]]);
            }
            return Err(StokError::DimensionMismatch {
                expected: shape3(n_states, n_actions, n_states),
                got: shape3(trans_dims[0], trans_dims[1], trans_dims[2]),
            });
        }
        i = i + 1;
    }
    proof {
        assert(goal_dims@ =~= seq![goal_dims[0], goal_dims[1]]);
        assert(constraint_dims@ =~= seq![constraint_dims[0], constraint_dims[1]]);
    }
    if goal_dims[0] != n_states || goal_dims[1] != n_actions {
        return Err(StokError::DimensionMismatch {
            expected: shape2(n_states, n_actions),
            got: shape2(goal_dims[0], goal_dims[1]),
        });
    }
    if constraint_dims[0] != n_states || constraint_dims[1] != n_actions {
        return Err(StokError::DimensionMismatch {
            expected: shape2(n_states, n_actions),
            got: shape2(constraint_dims[0], constraint_dims[1]),
        });
    }
    Ok((n_states, n_actions))
}

/// The shapes of a mode-conditioned MDP fit together: one kernel per mode,
/// at least one, all of the first kernel's shape `[S, A, S]`, and goal and
/// constraint of shape `[S, A]`.
pub open spec fn mode_shapes_ok(
    n_modes: usize,
    transition_dims: Seq<[usize; 3]>,
    goal_dims: [usize; 2],
    constraint_dims: [usize; 2],
) -> bool {
    &&& transition_dims.len() == n_modes
    &&& n_modes > 0
    &&& forall|j: int| 0 <= j < transition_dims.len() ==> #[trigger] transition_dims[j] == transition_dims[0]
    &&& transition_dims[0][0] == transition_dims[0][2]
    &&& goal_dims[0] == transition_dims[0][0] && goal_dims[1] == transition_dims[0][1]
    &&& constraint_dims[0] == transition_dims[0][0] && constraint_dims[1] == transition_dims[0][1]
}

/// The shapes of a mode-conditioned MDP are acceptable exactly when there
/// is at least one mode, one kernel per mode, every kernel has the shape of
/// the first, the first is `[S, A, S]`, and goal and constraint are `[S, A]`.
pub proof fn lemma_mode_shapes_accepted(
    n_modes: usize,
    transition_dims: Seq<[usize; 3]>,
    goal_dims: [usize; 2],
    constraint_dims: [usize; 2],
)
    ensures
        mode_shapes_ok(n_modes, transition_dims, goal_dims, constraint_dims) <==> (
        transition_dims.len() == n_modes && n_modes >= 1 && (forall|j: int|
            0 <= j < transition_dims.len() ==> #[trigger] transition_dims[j] == transition_dims[0])
            && transition_dims[0][0] == transition_dims[0][2] && goal_dims[0] == transition_dims[0][0]
            && goal_dims[1] == transition_dims[0][1] && constraint_dims[0] == transition_dims[0][0]
            && constraint_dims[1] == transition_dims[0][1]),
{
}

/// A key-door mode reads the key flag alone: on every accepted input the
/// door is open exactly when flag `key_bit_index` of component
/// `key_space_index` is set, whatever the other flags and components hold.
pub proof fn lemma_key_door_reads_key_bit(m: KeyDoorMode, hl_states: Seq<HLState>, other: Seq<HLState>)
    requires
        m.accepts(hl_states),
    ensures
        m.spec_mode(hl_states) == if hl_states[m.key_space_index as int]->BinaryVector_0@[m.key_bit_index as int] {
            MODE_OPEN as nat
        } else {
            MODE_CLOSED as nat
        },
        m.accepts(other) && other[m.key_space_index as int]->BinaryVector_0@[m.key_bit_index as int]
            == hl_states[m.key_space_index as int]->BinaryVector_0@[m.key_bit_index as int] ==> m.spec_mode(other)
            == m.spec_mode(hl_states),
{
}

/// A multi-bit mode writes the selected flags as binary digits: on every
/// accepted input, digit `i` of the mode (least significant first) is the
/// flag at position `bit_indices[i]`, and the mode is below `2^k` for `k`
/// selected flags.
pub proof fn lemma_multi_bit_mode_digits(m: MultiBitMode, hl_states: Seq<HLState>, i: int)
    requires
        m.accepts(hl_states),
        0 <= i < m.bit_indices@.len(),
    ensures
        (m.spec_mode(hl_states) / vstd::arithmetic::power2::pow2(i as nat)) % 2 == 1
            <==> hl_states[m.space_index as int]->BinaryVector_0@[m.bit_indices@[i] as int],
        m.spec_mode(hl_states) < vstd::arithmetic::power2::pow2(m.bit_indices@.len()),
{
    let sel = selected_bits(hl_states[m.space_index as int]->BinaryVector_0@, m.bit_indices@);
    lemma_bits_roundtrip(sel);
    lemma_bits_value_bound(sel);
    lemma_two_pow(i as nat);
    lemma_two_pow(m.bit_indices@.len());
    assert(index_bits(bits_value(sel), sel.len())[i] == sel[i]);
}

} // verus!
