//! States and dimensions of a product space S = X × Z₁ × … × Zₙ.
//!
//! A product state is a base state `x` and one component per high-level
//! space. It is numbered by the mixed-radix index
//! `x + |X|·(z₁ + |Z₁|·(z₂ + …))`, so the base state varies fastest.

use vstd::prelude::*;
use vstd::string::*;
use crate::text::{decimal, decimal_string, with_number};
use super::bits::{bits_value, index_bits, two_pow, lemma_two_pow, lemma_one_shl, lemma_two_pow_word, lemma_two_pow_monotone, lemma_bits_value_prefix, lemma_bits_value_bound};

verus! {

// ============================================================================
// Mixed-radix arithmetic
// ============================================================================

/// Product of the sizes, `∏ sizes[k]` (1 for no sizes).
pub open spec fn seq_product(sizes: Seq<usize>) -> int
    decreases sizes.len(),
{
    if sizes.len() == 0 {
        1
    } else {
        sizes[0] * seq_product(sizes.drop_first())
    }
}

/// Mixed-radix value `d₀ + s₀·(d₁ + s₁·(d₂ + …))` of digits in the given radices.
pub open spec fn horner(digits: Seq<int>, sizes: Seq<usize>) -> int
    decreases digits.len(),
{
    if digits.len() == 0 {
        0
    } else {
        digits[0] + sizes[0] * horner(digits.drop_first(), sizes.drop_first())
    }
}

/// The mixed-radix digits of `r` in the given radices: digit `k` is
/// `(r / (s₀·…·s_{k-1})) % s_k`.
pub open spec fn mixed_digits(r: int, sizes: Seq<usize>) -> Seq<int> {
    Seq::new(sizes.len(), |k: int| (r / seq_product(sizes.take(k))) % (sizes[k] as int))
}

/// All radices are positive.
pub open spec fn all_positive(sizes: Seq<usize>) -> bool {
    forall|k: int| 0 <= k < sizes.len() ==> sizes[k] > 0
}

/// Every digit is below its radix (and not negative).
pub open spec fn digits_in_range(digits: Seq<int>, sizes: Seq<usize>) -> bool {
    &&& digits.len() == sizes.len()
    &&& forall|k: int| #![trigger digits[k]] 0 <= k < digits.len() ==> 0 <= digits[k] < sizes[k]
}

/// Appending a radix multiplies the product by it.
pub proof fn lemma_product_push(sizes: Seq<usize>, y: usize)
    ensures
        seq_product(sizes.push(y)) == seq_product(sizes) * y,
    decreases sizes.len(),
{
    if sizes.len() == 0 {
        assert(sizes.push(y).drop_first() =~= Seq::<usize>::empty());
        assert(seq_product(sizes.push(y)) == y * seq_product(Seq::<usize>::empty()));
    } else {
        assert(sizes.push(y).drop_first() =~= sizes.drop_first().push(y));
        assert(sizes.push(y)[0] == sizes[0]);
        lemma_product_push(sizes.drop_first(), y);
        let p = seq_product(sizes.drop_first());
        assert(sizes[0] * (p * y) == (sizes[0] * p) * y) by (nonlinear_arith);
    }
}

/// Positive radices have a positive product, at least each prefix product.
pub proof fn lemma_product_positive(sizes: Seq<usize>)
    requires
        all_positive(sizes),
    ensures
        seq_product(sizes) >= 1,
    decreases sizes.len(),
{
    if sizes.len() > 0 {
        lemma_product_positive(sizes.drop_first());
        let p = seq_product(sizes.drop_first());
        let s0 = sizes[0] as int;
        assert(s0 * p >= 1) by (nonlinear_arith)
            requires
                s0 >= 1,
                p >= 1,
        ;
    }
}

/// A prefix of positive radices has a product no larger than the whole.
pub proof fn lemma_product_prefix_le(sizes: Seq<usize>, k: int)
    requires
        all_positive(sizes),
        0 <= k <= sizes.len(),
    ensures
        1 <= seq_product(sizes.take(k)) <= seq_product(sizes),
    decreases sizes.len() - k,
{
    lemma_product_positive(sizes.take(k));
    if k < sizes.len() {
        lemma_product_prefix_le(sizes, k + 1);
        assert(sizes.take(k + 1) =~= sizes.take(k).push(sizes[k]));
        lemma_product_push(sizes.take(k), sizes[k]);
        let p = seq_product(sizes.take(k));
        let y = sizes[k] as int;
        assert(p <= p * y) by (nonlinear_arith)
            requires
                p >= 1,
                y >= 1,
        ;
    } else {
        assert(sizes.take(k) =~= sizes);
    }
}

/// Appending a digit at the most significant end adds `digit · ∏ sizes`.
pub proof fn lemma_horner_push(digits: Seq<int>, sizes: Seq<usize>, x: int, y: usize)
    requires
        digits.len() == sizes.len(),
    ensures
        horner(digits.push(x), sizes.push(y)) == horner(digits, sizes) + x * seq_product(sizes),
    decreases digits.len(),
{
    if digits.len() == 0 {
        assert(digits.push(x).drop_first() =~= Seq::<int>::empty());
        assert(sizes.push(y).drop_first() =~= Seq::<usize>::empty());
        assert(digits.push(x)[0] == x);
        assert(horner(digits.push(x), sizes.push(y)) == x + y * horner(
            Seq::<int>::empty(),
            Seq::<usize>::empty(),
        ));
    } else {
        assert(digits.push(x).drop_first() =~= digits.drop_first().push(x));
        assert(digits.push(x)[0] == digits[0]);
        assert(sizes.push(y)[0] == sizes[0]);
        assert(sizes.push(y).drop_first() =~= sizes.drop_first().push(y));
        lemma_horner_push(digits.drop_first(), sizes.drop_first(), x, y);
        let h = horner(digits.drop_first(), sizes.drop_first());
        let p = seq_product(sizes.drop_first());
        let s0 = sizes[0] as int;
        assert(s0 * (h + x * p) == s0 * h + x * (s0 * p)) by (nonlinear_arith);
    }
}

/// Digits in range have a mixed-radix value in `[0, ∏ sizes)`.
pub proof fn lemma_horner_bound(digits: Seq<int>, sizes: Seq<usize>)
    requires
        digits_in_range(digits, sizes),
    ensures
        0 <= horner(digits, sizes) < seq_product(sizes),
    decreases digits.len(),
{
    if digits.len() > 0 {
        lemma_horner_bound(digits.drop_first(), sizes.drop_first());
        let h = horner(digits.drop_first(), sizes.drop_first());
        let p = seq_product(sizes.drop_first());
        let s0 = sizes[0] as int;
        let d0 = digits[0];
        assert(0 <= d0 + s0 * h < s0 * p) by (nonlinear_arith)
            requires
                0 <= d0 < s0,
                0 <= h < p,
        ;
    }
}

/// Digit extraction peels the least significant radix.
pub proof fn lemma_mixed_digits_first(r: int, sizes: Seq<usize>)
    requires
        r >= 0,
        sizes.len() > 0,
        all_positive(sizes),
    ensures
        mixed_digits(r, sizes)[0] == r % (sizes[0] as int),
        mixed_digits(r, sizes).drop_first() == mixed_digits(r / (sizes[0] as int), sizes.drop_first()),
{
    let s0 = sizes[0] as int;
    let rest = sizes.drop_first();
    assert(sizes.take(0) =~= Seq::<usize>::empty());
    assert forall|k: int| 0 <= k < rest.len() implies mixed_digits(r, sizes).drop_first()[k]
        == mixed_digits(r / s0, rest)[k] by {
        assert(sizes.take(k + 1).drop_first() =~= rest.take(k));
        assert(sizes.take(k + 1)[0] == sizes[0]);
        lemma_product_prefix_le(rest, k);
        vstd::arithmetic::div_mod::lemma_div_denominator(r, s0, seq_product(rest.take(k)));
    }
    assert(mixed_digits(r, sizes).drop_first() =~= mixed_digits(r / s0, rest));
}

/// Digits of `r`, read back, give `r` modulo the product of the radices.
pub proof fn lemma_digits_then_value(r: int, sizes: Seq<usize>)
    requires
        r >= 0,
        all_positive(sizes),
    ensures
        digits_in_range(mixed_digits(r, sizes), sizes),
        horner(mixed_digits(r, sizes), sizes) == r % seq_product(sizes),
    decreases sizes.len(),
{
    lemma_product_positive(sizes);
    if sizes.len() == 0 {
        assert(mixed_digits(r, sizes) =~= Seq::<int>::empty());
    } else {
        let s0 = sizes[0] as int;
        let rest = sizes.drop_first();
        lemma_mixed_digits_first(r, sizes);
        lemma_product_positive(rest);
        vstd::arithmetic::div_mod::lemma_div_pos_is_pos(r, s0);
        lemma_digits_then_value(r / s0, rest);
        vstd::arithmetic::div_mod::lemma_mod_breakdown(r, s0, seq_product(rest));
        assert forall|k: int| 0 <= k < sizes.len() implies 0 <= #[trigger] mixed_digits(r, sizes)[k]
            < sizes[k] by {
            lemma_product_prefix_le(sizes, k);
        }
    }
}

/// Digits in range, turned into a value and back, are unchanged.
pub proof fn lemma_value_then_digits(digits: Seq<int>, sizes: Seq<usize>)
    requires
        digits_in_range(digits, sizes),
        all_positive(sizes),
    ensures
        mixed_digits(horner(digits, sizes), sizes) == digits,
    decreases digits.len(),
{
    if digits.len() == 0 {
        assert(mixed_digits(horner(digits, sizes), sizes) =~= digits);
    } else {
        let s0 = sizes[0] as int;
        let d0 = digits[0];
        let h = horner(digits.drop_first(), sizes.drop_first());
        lemma_horner_bound(digits.drop_first(), sizes.drop_first());
        lemma_horner_bound(digits, sizes);
        vstd::arithmetic::div_mod::lemma_fundamental_div_mod_converse(d0 + s0 * h, s0, h, d0);
        lemma_mixed_digits_first(horner(digits, sizes), sizes);
        lemma_value_then_digits(digits.drop_first(), sizes.drop_first());
        let m = mixed_digits(horner(digits, sizes), sizes);
        assert(m =~= seq![m[0]] + m.drop_first());
        assert(digits =~= seq![digits[0]] + digits.drop_first());
    }
}


// ============================================================================
// High-level states
// ============================================================================

/// State of one high-level space Z_k.
///
/// A continuous component keeps its discretised bin `index`, which is what
/// the product-space numbering uses, and its 32-bit float value as the
/// IEEE-754 bit pattern `value_bits`, which this crate only carries.
#[derive(Clone, Debug, PartialEq)]
pub enum HLState {
    /// Categorical state.
    Discrete(usize),
    /// Discretised continuous value.
    Continuous { index: usize, value_bits: u32 },
    /// Boolean flags, least significant first.
    BinaryVector(Vec<bool>),
}

/// The index of a high-level state: the category, the bin, or the integer
/// value of the flags.
pub open spec fn hl_index(h: HLState) -> nat {
    match h {
        HLState::Discrete(i) => i as nat,
        HLState::Continuous { index, .. } => index as nat,
        HLState::BinaryVector(bits) => bits_value(bits@),
    }
}

/// Flags fit in a machine word, so their integer value can be computed.
pub open spec fn hl_fits(h: HLState) -> bool {
    match h {
        HLState::BinaryVector(bits) => bits@.len() <= usize::BITS,
        _ => true,
    }
}

/// Indices of a sequence of high-level states.
pub open spec fn hl_indices(hl: Seq<HLState>) -> Seq<int> {
    Seq::new(hl.len(), |k: int| hl_index(hl[k]) as int)
}

impl HLState {
    /// The index of this state (category, bin, or value of the flags).
    pub fn as_discrete(&self) -> (r: usize)
        requires
            hl_fits(*self),
        ensures
            r == hl_index(*self),
    {
        match self {
            HLState::Discrete(i) => *i,
            HLState::Continuous { index, .. } => *index,
            HLState::BinaryVector(bits) => binary_vec_to_index(bits.as_slice()),
        }
    }

    /// The flags of a binary-vector state.
    pub fn as_binary_vec(&self) -> (r: &[bool])
        requires
            self is BinaryVector,
        ensures
            r@ == self->BinaryVector_0@,
    {
        match self {
            HLState::BinaryVector(bits) => bits.as_slice(),
            _ => {
                proof {
                    assert(false);
                }
                &[]
            },
        }
    }

    /// Size of the space this state lives in, assuming 0-based indices: one
    /// more than the index, or `2^n` for `n` flags.
    pub fn space_size(&self) -> (r: usize)
        requires
            match *self {
                HLState::Discrete(i) => i < usize::MAX,
                HLState::Continuous { index, .. } => index < usize::MAX,
                HLState::BinaryVector(bits) => bits@.len() < usize::BITS,
            },
        ensures
            r == match *self {
                HLState::Discrete(i) => i + 1,
                HLState::Continuous { index, .. } => index + 1,
                HLState::BinaryVector(bits) => two_pow(bits@.len()) as int,
            },
    {
        match self {
            HLState::Discrete(i) => *i + 1,
            HLState::Continuous { index, .. } => *index + 1,
            HLState::BinaryVector(bits) => {
                proof {
                    lemma_one_shl(bits@.len() as usize);
                }
                1usize << bits.len()
            },
        }
    }

    /// An identical copy of this state.
    pub fn duplicate(&self) -> (r: HLState)
        ensures
            same_hl(r, *self),
    {
        match self {
            HLState::Discrete(i) => HLState::Discrete(*i),
            HLState::Continuous { index, value_bits } => HLState::Continuous {
                index: *index,
                value_bits: *value_bits,
            },
            HLState::BinaryVector(bits) => {
                let copy = bits.clone();
                proof {
                    assert(copy@ =~= bits@);
                }
                HLState::BinaryVector(copy)
            },
        }
    }
}

/// Two high-level states are the same: same variant, same fields (flags
/// compared by their contents).
pub open spec fn same_hl(a: HLState, b: HLState) -> bool {
    match (a, b) {
        (HLState::Discrete(i), HLState::Discrete(j)) => i == j,
        (
            HLState::Continuous { index: i, value_bits: v },
            HLState::Continuous { index: j, value_bits: w },
        ) => i == j && v == w,
        (HLState::BinaryVector(x), HLState::BinaryVector(y)) => x@ == y@,
        _ => false,
    }
}

/// Two lists of high-level states agree component by component.
pub open spec fn same_hl_seq(a: Seq<HLState>, b: Seq<HLState>) -> bool {
    &&& a.len() == b.len()
    &&& forall|k: int| 0 <= k < a.len() ==> same_hl(#[trigger] a[k], b[k])
}

/// An identical copy of a list of high-level states.
pub fn duplicate_states(states: &Vec<HLState>) -> (r: Vec<HLState>)
    ensures
        same_hl_seq(r@, states@),
{
    let mut out: Vec<HLState> = Vec::new();
    let mut i: usize = 0;
    while i < states.len()
        invariant
            i <= states@.len(),
            out@.len() == i,
            forall|k: int| 0 <= k < i ==> same_hl(#[trigger] out@[k], states@[k]),
        decreases states.len() - i,
    {
        out.push(states[i].duplicate());
        i = i + 1;
    }
    out
}

// ============================================================================
// Product-space dimensions
// ============================================================================

/// Sizes of the component spaces of S = X × Z₁ × … × Zₙ.
#[derive(Clone, Debug, PartialEq)]
pub struct ProductSpaceDims {
    /// Base-level size |X|.
    pub base_size: usize,
    /// High-level sizes |Z₁|, |Z₂|, …
    pub hl_sizes: Vec<usize>,
    /// Total size |X| · ∏ |Zᵢ|.
    pub total_size: usize,
}

impl ProductSpaceDims {
    /// Every size is positive and `total_size` is their product.
    pub open spec fn wf(&self) -> bool {
        &&& self.base_size > 0
        &&& all_positive(self.hl_sizes@)
        &&& self.total_size == self.base_size * seq_product(self.hl_sizes@)
    }

    /// Dimensions with the given sizes and their product as total size.
    pub fn new(base_size: usize, hl_sizes: Vec<usize>) -> (d: Self)
        requires
            base_size > 0,
            all_positive(hl_sizes@),
            base_size * seq_product(hl_sizes@) <= usize::MAX,
        ensures
            d.wf(),
            d.base_size == base_size,
            d.hl_sizes@ == hl_sizes@,
            d.total_size == base_size * seq_product(hl_sizes@),
    {
        let ghost sizes = hl_sizes@;
        proof {
            lemma_product_positive(sizes);
            let p = seq_product(sizes);
            assert(p <= base_size * p) by (nonlinear_arith)
                requires
                    base_size >= 1,
                    p >= 1,
            ;
        }
        let mut hl_product: usize = 1;
        let mut i: usize = 0;
        while i < hl_sizes.len()
            invariant
                sizes == hl_sizes@,
                all_positive(sizes),
                seq_product(sizes) <= usize::MAX,
                i <= sizes.len(),
                hl_product == seq_product(sizes.take(i as int)),
            decreases hl_sizes.len() - i,
        {
            proof {
                assert(sizes.take(i as int + 1) =~= sizes.take(i as int).push(sizes[i as int]));
                lemma_product_push(sizes.take(i as int), sizes[i as int]);
                lemma_product_prefix_le(sizes, i as int + 1);
            }
            hl_product = hl_product * hl_sizes[i];
            i = i + 1;
        }
        proof {
            assert(sizes.take(sizes.len() as int) =~= sizes);
        }
        let total_size = base_size * hl_product;
        ProductSpaceDims { base_size, hl_sizes, total_size }
    }

    /// Number of high-level spaces.
    pub fn n_hl_spaces(&self) -> (n: usize)
        ensures
            n == self.hl_sizes@.len(),
    {
        self.hl_sizes.len()
    }

    /// Size of high-level space `index`.
    pub fn hl_size(&self, index: usize) -> (n: usize)
        requires
            index < self.hl_sizes@.len(),
        ensures
            n == self.hl_sizes@[index as int],
    {
        self.hl_sizes[index]
    }

    /// Whether there are no high-level spaces.
    pub fn is_base_only(&self) -> (b: bool)
        ensures
            b == (self.hl_sizes@.len() == 0),
    {
        self.hl_sizes.len() == 0
    }

    /// Product of the high-level sizes, ∏ |Zᵢ| (1 when there are none).
    pub fn hl_product_size(&self) -> (n: usize)
        requires
            all_positive(self.hl_sizes@),
            seq_product(self.hl_sizes@) <= usize::MAX,
        ensures
            n == seq_product(self.hl_sizes@),
    {
        let ghost sizes = self.hl_sizes@;
        if self.hl_sizes.len() == 0 {
            return 1;
        }
        let mut p: usize = 1;
        let mut i: usize = 0;
        while i < self.hl_sizes.len()
            invariant
                sizes == self.hl_sizes@,
                all_positive(sizes),
                seq_product(sizes) <= usize::MAX,
                i <= sizes.len(),
                p == seq_product(sizes.take(i as int)),
            decreases self.hl_sizes.len() - i,
        {
            proof {
                assert(sizes.take(i as int + 1) =~= sizes.take(i as int).push(sizes[i as int]));
                lemma_product_push(sizes.take(i as int), sizes[i as int]);
                lemma_product_prefix_le(sizes, i as int + 1);
            }
            p = p * self.hl_sizes[i];
            i = i + 1;
        }
        proof {
            assert(sizes.take(sizes.len() as int) =~= sizes);
        }
        p
    }
}

/// The listing `, Z1:<|Z₁|>, Z2:<|Z₂|>, …` of high-level sizes, numbered
/// from 1.
pub open spec fn hl_sizes_text(sizes: Seq<usize>) -> Seq<char>
    decreases sizes.len(),
{
    if sizes.len() == 0 {
        Seq::empty()
    } else {
        hl_sizes_text(sizes.drop_last()) + seq![',', ' ', 'Z'] + decimal(sizes.len()) + seq![':']
            + decimal(sizes.last() as nat)
    }
}

impl ProductSpaceDims {
    /// The printed form `ProductSpace(X:<|X|>, Z1:<|Z₁|>, … | total:<n>)`.
    pub fn to_string(&self) -> (s: String)
        ensures
            s@ == "ProductSpace(X:"@ + decimal(self.base_size as nat) + hl_sizes_text(
                self.hl_sizes@,
            ) + " | total:"@ + decimal(self.total_size as nat) + ")"@,
    {
        proof {
            reveal_strlit("ProductSpace(X:");
            reveal_strlit("");
        }
        let mut s = with_number("ProductSpace(X:", self.base_size, "");
        let ghost head = "ProductSpace(X:"@ + decimal(self.base_size as nat);
        let mut i: usize = 0;
        while i < self.hl_sizes.len()
            invariant
                i <= self.hl_sizes@.len(),
                s@ == head + hl_sizes_text(self.hl_sizes@.take(i as int)),
            decreases self.hl_sizes.len() - i,
        {
            proof {
                reveal_strlit(", Z");
                reveal_strlit(":");
                let t = self.hl_sizes@.take(i as int + 1);
                assert(t.drop_last() =~= self.hl_sizes@.take(i as int));
                assert(t.last() == self.hl_sizes@[i as int]);
            }
            s.append(", Z");
            let k = decimal_string(i + 1);
            s.append(k.as_str());
            s.append(":");
            let v = decimal_string(self.hl_sizes[i]);
            s.append(v.as_str());
            i = i + 1;
        }
        proof {
            assert(self.hl_sizes@.take(self.hl_sizes@.len() as int) =~= self.hl_sizes@);
            reveal_strlit(" | total:");
            reveal_strlit(")");
        }
        s.append(" | total:");
        let t = decimal_string(self.total_size);
        s.append(t.as_str());
        s.append(")");
        s
    }
}

// ============================================================================
// Product states
// ============================================================================

/// A point s = (x, z₁, …, zₙ) of the product space.
#[derive(Clone, Debug, PartialEq)]
pub struct ProductState {
    /// Base-level state x.
    pub base: usize,
    /// High-level components z₁, …, zₙ.
    pub hl_states: Vec<HLState>,
}

/// Flat index of base state `base` with high-level indices `digits`:
/// `base + |X|·(z₁ + |Z₁|·(z₂ + …))`.
pub open spec fn flat_index(base: int, digits: Seq<int>, dims: ProductSpaceDims) -> int {
    base + dims.base_size * horner(digits, dims.hl_sizes@)
}

impl ProductState {
    /// A state with base component `base` and no high-level components.
    pub fn new(base: usize) -> (s: Self)
        ensures
            s.base == base,
            s.hl_states@.len() == 0,
    {
        ProductState { base, hl_states: Vec::new() }
    }

    /// This state with a discrete component appended.
    pub fn with_hl_discrete(self, state: usize) -> (s: Self)
        ensures
            s.base == self.base,
            s.hl_states@ == self.hl_states@.push(HLState::Discrete(state)),
    {
        let mut me = self;
        me.hl_states.push(HLState::Discrete(state));
        me
    }

    /// This state with a continuous component appended (value given by its
    /// IEEE-754 bit pattern).
    pub fn with_hl_continuous(self, value_bits: u32, index: usize) -> (s: Self)
        ensures
            s.base == self.base,
            s.hl_states@ == self.hl_states@.push(HLState::Continuous { index, value_bits }),
    {
        let mut me = self;
        me.hl_states.push(HLState::Continuous { index, value_bits });
        me
    }

    /// This state with a binary-vector component appended.
    pub fn with_hl_binary_vector(self, bits: Vec<bool>) -> (s: Self)
        ensures
            s.base == self.base,
            s.hl_states@ == self.hl_states@.push(HLState::BinaryVector(bits)),
    {
        let mut me = self;
        me.hl_states.push(HLState::BinaryVector(bits));
        me
    }

    /// Number of high-level components.
    pub fn n_hl_components(&self) -> (n: usize)
        ensures
            n == self.hl_states@.len(),
    {
        self.hl_states.len()
    }

    /// The index of each high-level component, in order.
    pub fn hl_indices(&self) -> (r: Vec<usize>)
        requires
            forall|k: int| 0 <= k < self.hl_states@.len() ==> hl_fits(#[trigger] self.hl_states@[k]),
        ensures
            r@.len() == self.hl_states@.len(),
            forall|k: int| 0 <= k < r@.len() ==> #[trigger] r@[k] == hl_index(self.hl_states@[k]),
    {
        let mut r: Vec<usize> = Vec::new();
        let mut k: usize = 0;
        while k < self.hl_states.len()
            invariant
                k <= self.hl_states@.len(),
                forall|j: int| 0 <= j < self.hl_states@.len() ==> hl_fits(#[trigger] self.hl_states@[j]),
                r@.len() == k,
                forall|j: int| 0 <= j < k ==> #[trigger] r@[j] == hl_index(self.hl_states@[j]),
            decreases self.hl_states.len() - k,
        {
            r.push(self.hl_states[k].as_discrete());
            k = k + 1;
        }
        r
    }

    /// Flat index of this state: `base + |X|·(z₁ + |Z₁|·(z₂ + …))`.
    ///
    /// The state must have one component per high-level space, each index
    /// within its space, and the result must lie below the total size.
    pub fn to_flat_index(&self, dims: &ProductSpaceDims) -> (r: usize)
        requires
            dims.wf(),
            self.hl_states@.len() == dims.hl_sizes@.len(),
            forall|k: int| 0 <= k < self.hl_states@.len() ==> hl_fits(#[trigger] self.hl_states@[k]),
            digits_in_range(hl_indices(self.hl_states@), dims.hl_sizes@),
            flat_index(self.base as int, hl_indices(self.hl_states@), *dims) < dims.total_size,
        ensures
            r == flat_index(self.base as int, hl_indices(self.hl_states@), *dims),
    {
        let ghost digits = hl_indices(self.hl_states@);
        let ghost sizes = dims.hl_sizes@;
        let n = self.hl_states.len();
        let mut index: usize = self.base;
        let mut stride: usize = dims.base_size;
        let mut k: usize = 0;
        proof {
            lemma_horner_bound(digits, sizes);
            assert(digits.take(0) =~= Seq::<int>::empty());
            assert(sizes.take(0) =~= Seq::<usize>::empty());
        }
        while k < n
            invariant
                n == self.hl_states@.len(),
                n == sizes.len(),
                sizes == dims.hl_sizes@,
                digits == hl_indices(self.hl_states@),
                dims.wf(),
                forall|j: int| 0 <= j < self.hl_states@.len() ==> hl_fits(#[trigger] self.hl_states@[j]),
                digits_in_range(digits, sizes),
                flat_index(self.base as int, digits, *dims) < dims.total_size,
                k <= n,
                index == self.base + dims.base_size * horner(digits.take(k as int), sizes.take(k as int)),
                stride == dims.base_size * seq_product(sizes.take(k as int)),
            decreases n - k,
        {
            let hl_idx = self.hl_states[k].as_discrete();
            proof {
                let dk = digits.take(k as int);
                let sk = sizes.take(k as int);
                assert(digits.take(k as int + 1) =~= dk.push(digits[k as int]));
                assert(sizes.take(k as int + 1) =~= sk.push(sizes[k as int]));
                lemma_horner_push(dk, sk, digits[k as int], sizes[k as int]);
                lemma_product_push(sk, sizes[k as int]);
                lemma_product_prefix_le(sizes, k as int + 1);
                lemma_product_prefix_le(sizes, k as int);
                // The partial sum grows towards the full index, which fits.
                lemma_horner_prefix_le(digits, sizes, k as int + 1);
                let b = dims.base_size as int;
                let p = seq_product(sk);
                let h1 = horner(digits.take(k as int + 1), sizes.take(k as int + 1));
                let hf = horner(digits, sizes);
                assert(b * h1 <= b * hf) by (nonlinear_arith)
                    requires
                        b >= 1,
                        h1 <= hf,
                ;
                assert(b * (horner(dk, sk) + digits[k as int] * p) == b * horner(dk, sk) + digits[k as int] * (b * p))
                    by (nonlinear_arith);
                let pf = seq_product(sizes);
                let p1 = seq_product(sizes.take(k as int + 1));
                assert(b * p1 <= b * pf) by (nonlinear_arith)
                    requires
                        b >= 1,
                        p1 <= pf,
                ;
                assert(b * (p * sizes[k as int]) == (b * p) * sizes[k as int]) by (nonlinear_arith);
            }
            index = index + hl_idx * stride;
            stride = stride * dims.hl_sizes[k];
            k = k + 1;
        }
        proof {
            assert(digits.take(n as int) =~= digits);
            assert(sizes.take(n as int) =~= sizes);
        }
        index
    }

    /// The state with flat index `index`, every high-level component
    /// discrete; inverse of `to_flat_index`.
    pub fn from_flat_index(index: usize, dims: &ProductSpaceDims) -> (s: Self)
        requires
            dims.wf(),
            index < dims.total_size,
        ensures
            s.base == index % dims.base_size,
            s.hl_states@.len() == dims.hl_sizes@.len(),
            forall|k: int| 0 <= k < s.hl_states@.len() ==> (#[trigger] s.hl_states@[k]) is Discrete,
            hl_indices(s.hl_states@) == mixed_digits((index as int) / (dims.base_size as int), dims.hl_sizes@),
    {
        let ghost sizes = dims.hl_sizes@;
        let ghost r: int = (index as int) / (dims.base_size as int);
        let base = index % dims.base_size;
        let mut remaining = index / dims.base_size;
        let mut hl_states: Vec<HLState> = Vec::new();
        let n = dims.hl_sizes.len();
        let mut k: usize = 0;
        proof {
            assert(sizes.take(0) =~= Seq::<usize>::empty());
        }
        while k < n
            invariant
                n == sizes.len(),
                sizes == dims.hl_sizes@,
                all_positive(sizes),
                r >= 0,
                k <= n,
                remaining == r / seq_product(sizes.take(k as int)),
                hl_states@.len() == k,
                forall|j: int| 0 <= j < k ==> (#[trigger] hl_states@[j]) is Discrete,
                forall|j: int| 0 <= j < k ==> hl_index(#[trigger] hl_states@[j]) == mixed_digits(r, sizes)[j],
            decreases n - k,
        {
            let size = dims.hl_sizes[k];
            proof {
                let sk = sizes.take(k as int);
                assert(sizes.take(k as int + 1) =~= sk.push(sizes[k as int]));
                lemma_product_push(sk, sizes[k as int]);
                lemma_product_prefix_le(sizes, k as int);
                vstd::arithmetic::div_mod::lemma_div_denominator(r, seq_product(sk), size as int);
            }
            let hl_idx = remaining % size;
            hl_states.push(HLState::Discrete(hl_idx));
            remaining = remaining / size;
            k = k + 1;
        }
        let s = ProductState { base, hl_states };
        proof {
            assert(hl_indices(s.hl_states@) =~= mixed_digits(r, sizes));
        }
        s
    }

    /// A copy of this state with base component `new_base`.
    pub fn with_base(&self, new_base: usize) -> (s: Self)
        ensures
            s.base == new_base,
            same_hl_seq(s.hl_states@, self.hl_states@),
    {
        ProductState { base: new_base, hl_states: duplicate_states(&self.hl_states) }
    }

    /// A copy of this state with high-level component `component_idx`
    /// replaced by `new_state`.
    pub fn with_hl_component(&self, component_idx: usize, new_state: HLState) -> (s: Self)
        requires
            component_idx < self.hl_states@.len(),
        ensures
            s.base == self.base,
            s.hl_states@.len() == self.hl_states@.len(),
            s.hl_states@[component_idx as int] == new_state,
            forall|k: int|
                0 <= k < self.hl_states@.len() && k != component_idx ==> same_hl(
                    #[trigger] s.hl_states@[k],
                    self.hl_states@[k],
                ),
    {
        let mut new_hl = duplicate_states(&self.hl_states);
        new_hl.set(component_idx, new_state);
        ProductState { base: self.base, hl_states: new_hl }
    }
}


/// Decoding then encoding is the identity: for every flat index below the
/// total size, the state that `from_flat_index` yields (base `index % |X|`,
/// high-level digits of `index / |X|`) is a valid argument of `to_flat_index`,
/// which maps it back to `index`.
pub proof fn lemma_flat_index_decode_encode(index: int, dims: ProductSpaceDims)
    requires
        dims.wf(),
        0 <= index < dims.total_size,
    ensures
        digits_in_range(mixed_digits(index / (dims.base_size as int), dims.hl_sizes@), dims.hl_sizes@),
        flat_index(
            index % (dims.base_size as int),
            mixed_digits(index / (dims.base_size as int), dims.hl_sizes@),
            dims,
        ) == index,
{
    let b = dims.base_size as int;
    let sizes = dims.hl_sizes@;
    let r = index / b;
    lemma_product_positive(sizes);
    vstd::arithmetic::div_mod::lemma_div_pos_is_pos(index, b);
    lemma_digits_then_value(r, sizes);
    let p = seq_product(sizes);
    vstd::arithmetic::div_mod::lemma_fundamental_div_mod(index, b);
    assert(r < p) by {
        vstd::arithmetic::div_mod::lemma_div_is_ordered(index, b * p, b);
        vstd::arithmetic::div_mod::lemma_div_by_multiple(p, b);
        assert(b * p == p * b) by (nonlinear_arith);
        vstd::arithmetic::div_mod::lemma_div_by_multiple_is_strongly_ordered(index, b * p, p, b);
    }
    vstd::arithmetic::div_mod::lemma_small_mod(r as nat, p as nat);
}

/// Encoding then decoding is the identity: a state whose base lies in the
/// base space and whose high-level indices lie in their spaces has a flat
/// index below the total size, from which its base and indices are recovered.
pub proof fn lemma_flat_index_encode_decode(base: int, digits: Seq<int>, dims: ProductSpaceDims)
    requires
        dims.wf(),
        0 <= base < dims.base_size,
        digits_in_range(digits, dims.hl_sizes@),
    ensures
        0 <= flat_index(base, digits, dims) < dims.total_size,
        flat_index(base, digits, dims) % (dims.base_size as int) == base,
        mixed_digits(flat_index(base, digits, dims) / (dims.base_size as int), dims.hl_sizes@)
            == digits,
{
    let b = dims.base_size as int;
    let sizes = dims.hl_sizes@;
    let h = horner(digits, sizes);
    let p = seq_product(sizes);
    lemma_horner_bound(digits, sizes);
    assert(0 <= base + b * h < b * p) by (nonlinear_arith)
        requires
            0 <= base < b,
            0 <= h < p,
    ;
    assert(base + b * h == h * b + base) by (nonlinear_arith);
    vstd::arithmetic::div_mod::lemma_fundamental_div_mod_converse(base + b * h, b, h, base);
    lemma_value_then_digits(digits, sizes);
}

/// A prefix of the digits has a mixed-radix value no larger than the whole.
pub proof fn lemma_horner_prefix_le(digits: Seq<int>, sizes: Seq<usize>, k: int)
    requires
        digits_in_range(digits, sizes),
        0 <= k <= digits.len(),
    ensures
        0 <= horner(digits.take(k), sizes.take(k)) <= horner(digits, sizes),
    decreases digits.len() - k,
{
    if k < digits.len() {
        lemma_horner_prefix_le(digits, sizes, k + 1);
        let dk = digits.take(k);
        let sk = sizes.take(k);
        assert(digits.take(k + 1) =~= dk.push(digits[k]));
        assert(sizes.take(k + 1) =~= sk.push(sizes[k]));
        lemma_horner_push(dk, sk, digits[k], sizes[k]);
        assert(all_positive(sk) ==> true);
        lemma_horner_bound(dk, sk);
        lemma_product_nonneg(sk);
        let d = digits[k];
        let p = seq_product(sk);
        assert(d * p >= 0) by (nonlinear_arith)
            requires
                d >= 0,
                p >= 0,
        ;
    } else {
        assert(digits.take(k) =~= digits);
        assert(sizes.take(k) =~= sizes);
        lemma_horner_bound(digits, sizes);
    }
}

/// A product of sizes is never negative.
pub proof fn lemma_product_nonneg(sizes: Seq<usize>)
    ensures
        seq_product(sizes) >= 0,
    decreases sizes.len(),
{
    if sizes.len() > 0 {
        lemma_product_nonneg(sizes.drop_first());
        let p = seq_product(sizes.drop_first());
        let s0 = sizes[0] as int;
        assert(s0 * p >= 0) by (nonlinear_arith)
            requires
                s0 >= 0,
                p >= 0,
        ;
    }
}

/// Integer value of a little-endian binary vector (`[true, false, true]` is 5).
pub fn binary_vec_to_index(bits: &[bool]) -> (r: usize)
    requires
        bits@.len() <= usize::BITS,
    ensures
        r == bits_value(bits@),
{
    let mut acc: usize = 0;
    let mut i: usize = 0;
    let n = bits.len();
    while i < n
        invariant
            n == bits@.len(),
            n <= usize::BITS,
            i <= n,
            acc == bits_value(bits@.subrange(0, i as int)),
        decreases n - i,
    {
        proof {
            lemma_bits_value_prefix(bits@, i as int);
            lemma_bits_value_bound(bits@.subrange(0, i as int + 1));
            lemma_two_pow(i as nat + 1);
            lemma_two_pow_word();
            lemma_two_pow_monotone(i as nat + 1, usize::BITS as nat);
            lemma_one_shl(i);
        }
        if bits[i] {
            acc = acc + (1usize << i);
        }
        i = i + 1;
    }
    assert(bits@.subrange(0, n as int) =~= bits@);
    acc
}

/// The `n_bits` lowest bits of `index`, least significant first.
pub fn index_to_binary_vec(index: usize, n_bits: usize) -> (r: Vec<bool>)
    requires
        n_bits <= usize::BITS,
    ensures
        r@ == index_bits(index as nat, n_bits as nat),
{
    let mut out: Vec<bool> = Vec::new();
    let mut i: usize = 0;
    while i < n_bits
        invariant
            n_bits <= usize::BITS,
            i <= n_bits,
            out@ =~= index_bits(index as nat, i as nat),
        decreases n_bits - i,
    {
        let shifted = index >> i;
        let bit = shifted & 1 == 1;
        proof {
            vstd::bits::lemma_usize_shr_is_div(index, i);
            lemma_two_pow(i as nat);
            assert(shifted & 1 == shifted % 2) by (bit_vector);
        }
        out.push(bit);
        i = i + 1;
    }
    out
}

/// The flat index puts the base state fastest, then the first high-level
/// space, then the second: with no, one or two high-level spaces it is `x`,
/// `x + |X|·z₁`, and `x + |X|·(z₁ + |Z₁|·z₂)`.
pub proof fn lemma_flat_index_layout(base: int, z1: int, z2: int, dims: ProductSpaceDims)
    ensures
        dims.hl_sizes@.len() == 0 ==> flat_index(base, Seq::<int>::empty(), dims) == base,
        dims.hl_sizes@.len() == 1 ==> flat_index(base, seq![z1], dims) == base + dims.base_size * z1,
        dims.hl_sizes@.len() == 2 ==> flat_index(base, seq![z1, z2], dims) == base + dims.base_size * (z1
            + dims.hl_sizes@[0] * z2),
{
    let d1 = seq![z1];
    let d2 = seq![z1, z2];
    assert(d1.drop_first() =~= Seq::<int>::empty());
    assert(d2.drop_first() =~= seq![z2]);
    assert(seq![z2].drop_first() =~= Seq::<int>::empty());
    assert(horner(Seq::<int>::empty(), dims.hl_sizes@.drop_first()) == 0);
    assert(horner(Seq::<int>::empty(), dims.hl_sizes@.drop_first().drop_first()) == 0);
    assert(horner(seq![z2], dims.hl_sizes@.drop_first()) == z2 + dims.hl_sizes@.drop_first()[0] * 0);
}

} // verus!
