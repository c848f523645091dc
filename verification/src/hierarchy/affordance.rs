//! High-level actions and their action sets: the part of affordance
//! functions F(α_z | x, a) that is about which high-level actions exist.

use vstd::prelude::*;
use super::product_space::{seq_product, mixed_digits, horner, digits_in_range, all_positive,
    lemma_product_push, lemma_product_prefix_le, lemma_digits_then_value, lemma_value_then_digits,
    lemma_horner_bound, lemma_product_positive};

verus! {

/// An action on the high-level spaces: on one space, or one per space.
#[derive(Clone, Debug, PartialEq, Eq, Hash)]
pub enum HLAction {
    /// Action `action_id` on high-level space `space_id` alone.
    Single { space_id: usize, action_id: usize },
    /// One action per high-level space (α_{z₁}, α_{z₂}, …).
    Vector(Vec<usize>),
}

impl HLAction {
    /// Action `action_id` on space `space_id`.
    pub fn single(space_id: usize, action_id: usize) -> (a: Self)
        ensures
            a == (HLAction::Single { space_id, action_id }),
    {
        HLAction::Single { space_id, action_id }
    }

    /// The action vector `actions`, one entry per space.
    pub fn vector(actions: Vec<usize>) -> (a: Self)
        ensures
            a == HLAction::Vector(actions),
    {
        HLAction::Vector(actions)
    }

    /// The action this takes on space `space_id`, if it names one.
    pub fn action_for_space(&self, space_id: usize) -> (r: Option<usize>)
        ensures
            r == match *self {
                HLAction::Single { space_id: sid, action_id } => if sid == space_id {
                    Some(action_id)
                } else {
                    None
                },
                HLAction::Vector(v) => if space_id < v@.len() {
                    Some(v@[space_id as int])
                } else {
                    None
                },
            },
    {
        match self {
            HLAction::Single { space_id: sid, action_id } => {
                if *sid == space_id {
                    Some(*action_id)
                } else {
                    None
                }
            },
            HLAction::Vector(actions) => {
                if space_id < actions.len() {
                    Some(actions[space_id])
                } else {
                    None
                }
            },
        }
    }

    /// The action as a vector over `n_spaces` spaces: a vector action as it
    /// is, a single action with `default` on every other space.
    pub fn to_vector(&self, n_spaces: usize, default: usize) -> (r: Vec<usize>)
        requires
            match *self {
                HLAction::Single { space_id, .. } => space_id < n_spaces,
                HLAction::Vector(_) => true,
            },
        ensures
            match *self {
                HLAction::Vector(v) => r@ == v@,
                HLAction::Single { space_id, action_id } => r@ == Seq::new(
                    n_spaces as nat,
                    |k: int| if k == space_id { action_id } else { default },
                ),
            },
    {
        match self {
            HLAction::Vector(v) => {
                let mut out: Vec<usize> = Vec::new();
                let mut i: usize = 0;
                while i < v.len()
                    invariant
                        i <= v@.len(),
                        out@ =~= v@.take(i as int),
                    decreases v.len() - i,
                {
                    out.push(v[i]);
                    i = i + 1;
                }
                proof {
                    assert(v@.take(v@.len() as int) =~= v@);
                }
                out
            },
            HLAction::Single { space_id, action_id } => {
                let mut out: Vec<usize> = Vec::new();
                let mut i: usize = 0;
                while i < n_spaces
                    invariant
                        i <= n_spaces,
                        out@.len() == i,
                        forall|k: int| 0 <= k < i ==> #[trigger] out@[k] == default,
                    decreases n_spaces - i,
                {
                    out.push(default);
                    i = i + 1;
                }
                out.set(*space_id, *action_id);
                proof {
                    assert(out@ =~= Seq::new(
                        n_spaces as nat,
                        |k: int| if k == *space_id { *action_id } else { default },
                    ));
                }
                out
            },
        }
    }
}

/// The set of high-level action vectors: the Cartesian product of the
/// component action spaces, numbered in mixed radix with the first space
/// varying fastest.
#[derive(Clone, Debug)]
pub struct HLActionSet {
    /// Action-space sizes |A_{z₁}|, |A_{z₂}|, …
    action_sizes: Vec<usize>,
    /// Number of action vectors, ∏ |A_{zᵢ}|.
    total_actions: usize,
}

/// Some radix is zero.
pub open spec fn has_zero(sizes: Seq<usize>) -> bool {
    exists|k: int| 0 <= k < sizes.len() && #[trigger] sizes[k] == 0
}

/// A product with a zero factor is zero; one without is positive.
pub proof fn lemma_product_zero(sizes: Seq<usize>)
    ensures
        has_zero(sizes) <==> seq_product(sizes) == 0,
        seq_product(sizes) >= 0,
    decreases sizes.len(),
{
    if sizes.len() == 0 {
        assert(!has_zero(sizes));
    } else {
        let rest = sizes.drop_first();
        lemma_product_zero(rest);
        let p = seq_product(rest);
        let s0 = sizes[0] as int;
        assert(s0 * p == 0 <==> s0 == 0 || p == 0) by (nonlinear_arith)
            requires
                s0 >= 0,
                p >= 0,
        ;
        assert(s0 * p >= 0) by (nonlinear_arith)
            requires
                s0 >= 0,
                p >= 0,
        ;
        if has_zero(rest) {
            let k = choose|k: int| 0 <= k < rest.len() && #[trigger] rest[k] == 0;
            assert(sizes[k + 1] == 0);
        }
        if has_zero(sizes) && sizes[0] != 0 {
            let k = choose|k: int| 0 <= k < sizes.len() && #[trigger] sizes[k] == 0;
            assert(rest[k - 1] == 0);
        }
    }
}

impl HLActionSet {
    /// The sizes of the component action spaces.
    pub closed spec fn sizes(&self) -> Seq<usize> {
        self.action_sizes@
    }

    /// `total_actions` is the product of the sizes.
    pub closed spec fn wf(&self) -> bool {
        self.total_actions == seq_product(self.action_sizes@)
    }

    /// The action set with the given component sizes.
    pub fn new(action_sizes: Vec<usize>) -> (s: Self)
        requires
            forall|k: int|
                0 <= k <= action_sizes@.len() ==> seq_product(#[trigger] action_sizes@.take(k))
                    <= usize::MAX,
        ensures
            s.wf(),
            s.sizes() == action_sizes@,
    {
        let ghost sizes = action_sizes@;
        let mut total: usize = 1;
        let mut i: usize = 0;
        proof {
            assert(sizes.take(0) =~= Seq::<usize>::empty());
        }
        while i < action_sizes.len()
            invariant
                sizes == action_sizes@,
                forall|k: int| 0 <= k <= sizes.len() ==> seq_product(#[trigger] sizes.take(k)) <= usize::MAX,
                i <= sizes.len(),
                total == seq_product(sizes.take(i as int)),
            decreases action_sizes.len() - i,
        {
            proof {
                assert(sizes.take(i as int + 1) =~= sizes.take(i as int).push(sizes[i as int]));
                lemma_product_push(sizes.take(i as int), sizes[i as int]);
                assert(seq_product(sizes.take(i as int + 1)) <= usize::MAX);
            }
            total = total * action_sizes[i];
            i = i + 1;
        }
        proof {
            assert(sizes.take(sizes.len() as int) =~= sizes);
        }
        HLActionSet { action_sizes, total_actions: total }
    }

    /// Number of action vectors, ∏ |A_{zᵢ}|.
    pub fn total_actions(&self) -> (n: usize)
        requires
            self.wf(),
        ensures
            n == seq_product(self.sizes()),
    {
        self.total_actions
    }

    /// Every action vector, the one numbered `i` at position `i`: entry `k`
    /// of vector `i` is digit `k` of `i` in the mixed radix of the sizes.
    pub fn enumerate(&self) -> (r: Vec<HLAction>)
        requires
            self.wf(),
        ensures
            r@.len() == seq_product(self.sizes()),
            forall|i: int|
                0 <= i < r@.len() ==> (#[trigger] r@[i] matches HLAction::Vector(v) && digits_match(
                    v@,
                    mixed_digits(i, self.sizes()),
                )),
    {
        let ghost sizes = self.action_sizes@;
        let mut actions: Vec<HLAction> = Vec::new();
        let mut flat_index: usize = 0;
        proof {
            lemma_product_zero(sizes);
        }
        while flat_index < self.total_actions
            invariant
                self.wf(),
                sizes == self.action_sizes@,
                flat_index <= self.total_actions,
                self.total_actions > 0 ==> all_positive(sizes),
                actions@.len() == flat_index,
                forall|i: int|
                    0 <= i < flat_index ==> (#[trigger] actions@[i] matches HLAction::Vector(v)
                        && digits_match(v@, mixed_digits(i, sizes))),
            decreases self.total_actions - flat_index,
        {
            proof {
                if !all_positive(sizes) {
                    let k = choose|k: int| 0 <= k < sizes.len() && !(sizes[k] > 0);
                    assert(has_zero(sizes));
                }
            }
            let action_vec = self.flat_to_action_vector(flat_index);
            actions.push(HLAction::Vector(action_vec));
            flat_index = flat_index + 1;
        }
        actions
    }

    /// The action vector numbered `index`: its mixed-radix digits.
    fn flat_to_action_vector(&self, index: usize) -> (r: Vec<usize>)
        requires
            all_positive(self.sizes()),
        ensures
            digits_match(r@, mixed_digits(index as int, self.sizes())),
    {
        let ghost sizes = self.action_sizes@;
        let mut actions: Vec<usize> = Vec::new();
        let mut remaining = index;
        let mut k: usize = 0;
        let n = self.action_sizes.len();
        proof {
            assert(sizes.take(0) =~= Seq::<usize>::empty());
        }
        while k < n
            invariant
                n == sizes.len(),
                sizes == self.action_sizes@,
                all_positive(sizes),
                k <= n,
                remaining == (index as int) / seq_product(sizes.take(k as int)),
                actions@.len() == k,
                forall|j: int| 0 <= j < k ==> #[trigger] actions@[j] == mixed_digits(index as int, sizes)[j],
            decreases n - k,
        {
            let size = self.action_sizes[k];
            proof {
                let sk = sizes.take(k as int);
                assert(sizes.take(k as int + 1) =~= sk.push(sizes[k as int]));
                lemma_product_push(sk, sizes[k as int]);
                lemma_product_prefix_le(sizes, k as int);
                vstd::arithmetic::div_mod::lemma_div_denominator(index as int, seq_product(sk), size as int);
            }
            actions.push(remaining % size);
            remaining = remaining / size;
            k = k + 1;
        }
        actions
    }
}

/// An action vector equals a sequence of digits, entry by entry.
pub open spec fn digits_match(v: Seq<usize>, digits: Seq<int>) -> bool {
    &&& v.len() == digits.len()
    &&& forall|k: int| 0 <= k < v.len() ==> #[trigger] v[k] as int == digits[k]
}

/// Numbering of action vectors is a bijection: the vector numbered `i` has
/// every entry within its action space and is numbered `i` back, and every
/// in-range action vector is numbered below the total and decodes to itself.
pub proof fn lemma_action_numbering_bijective(sizes: Seq<usize>, i: int, digits: Seq<int>)
    requires
        all_positive(sizes),
        0 <= i < seq_product(sizes),
        digits_in_range(digits, sizes),
    ensures
        digits_in_range(mixed_digits(i, sizes), sizes),
        horner(mixed_digits(i, sizes), sizes) == i,
        0 <= horner(digits, sizes) < seq_product(sizes),
        mixed_digits(horner(digits, sizes), sizes) == digits,
{
    lemma_digits_then_value(i, sizes);
    vstd::arithmetic::div_mod::lemma_small_mod(i as nat, seq_product(sizes) as nat);
    lemma_horner_bound(digits, sizes);
    lemma_value_then_digits(digits, sizes);
}


// ============================================================================
// Cartesian product of supports
// ============================================================================

/// The per-space supports as sequences.
pub open spec fn supports_view(s: Seq<Vec<usize>>) -> Seq<Seq<usize>> {
    Seq::new(s.len(), |i: int| s[i]@)
}

/// All action vectors choosing one action from each support, the first
/// space varying slowest; no vectors at all when there are no supports.
pub open spec fn cartesian(s: Seq<Seq<usize>>) -> Seq<Seq<usize>>
    decreases s.len(),
{
    if s.len() == 0 {
        Seq::empty()
    } else if s.len() == 1 {
        Seq::new(s[0].len(), |j: int| seq![s[0][j]])
    } else {
        let r = cartesian(s.drop_first());
        Seq::new(s[0].len() * r.len(), |i: int| seq![s[0][i / (r.len() as int)]] + r[i % (r.len() as int)])
    }
}

/// A copy of `v` with `a` in front.
fn prepend(a: usize, v: &Vec<usize>) -> (r: Vec<usize>)
    ensures
        r@ == seq![a] + v@,
{
    let mut out: Vec<usize> = Vec::new();
    out.push(a);
    let mut i: usize = 0;
    while i < v.len()
        invariant
            i <= v@.len(),
            out@ =~= seq![a] + v@.take(i as int),
        decreases v.len() - i,
    {
        out.push(v[i]);
        i = i + 1;
    }
    proof {
        assert(v@.take(v@.len() as int) =~= v@);
    }
    out
}

/// Cartesian product of the supports from position `start` on.
fn cartesian_from(supports: &[Vec<usize>], start: usize) -> (r: Vec<Vec<usize>>)
    requires
        start < supports@.len(),
    ensures
        r@.len() == cartesian(supports_view(supports@).subrange(start as int, supports@.len() as int)).len(),
        forall|i: int|
            0 <= i < r@.len() ==> (#[trigger] r@[i])@ == cartesian(
                supports_view(supports@).subrange(start as int, supports@.len() as int),
            )[i],
    decreases supports@.len() - start,
{
    let ghost sv = supports_view(supports@).subrange(start as int, supports@.len() as int);
    let first = &supports[start];
    let mut result: Vec<Vec<usize>> = Vec::new();
    if start + 1 == supports.len() {
        let mut j: usize = 0;
        while j < first.len()
            invariant
                start + 1 == supports@.len(),
                first@ == supports@[start as int]@,
                sv == supports_view(supports@).subrange(start as int, supports@.len() as int),
                j <= first@.len(),
                result@.len() == j,
                forall|i: int| 0 <= i < j ==> (#[trigger] result@[i])@ == seq![first@[i]],
            decreases first.len() - j,
        {
            let mut single: Vec<usize> = Vec::new();
            single.push(first[j]);
            result.push(single);
            j = j + 1;
        }
        proof {
            assert(sv.len() == 1);
            assert(sv[0] == first@);
        }
        return result;
    }
    let rest = cartesian_from(supports, start + 1);
    let ghost rv = cartesian(sv.drop_first());
    proof {
        assert(sv.drop_first() =~= supports_view(supports@).subrange(start as int + 1, supports@.len() as int));
        assert(sv[0] == first@);
    }
    let rlen = rest.len();
    let mut a_idx: usize = 0;
    while a_idx < first.len()
        invariant
            sv.len() >= 2,
            sv[0] == first@,
            rv == cartesian(sv.drop_first()),
            rest@.len() == rv.len(),
            rlen == rv.len(),
            forall|i: int| 0 <= i < rest@.len() ==> (#[trigger] rest@[i])@ == rv[i],
            a_idx <= first@.len(),
            result@.len() == a_idx * rlen,
            forall|i: int|
                0 <= i < result@.len() ==> (#[trigger] result@[i])@ == seq![first@[i / (rlen as int)]]
                    + rv[i % (rlen as int)],
        decreases first.len() - a_idx,
    {
        let a0 = first[a_idx];
        let mut l: usize = 0;
        while l < rlen
            invariant
                rest@.len() == rv.len(),
                rlen == rv.len(),
                forall|i: int| 0 <= i < rest@.len() ==> (#[trigger] rest@[i])@ == rv[i],
                a_idx < first@.len(),
                a0 == first@[a_idx as int],
                l <= rlen,
                result@.len() == a_idx * rlen + l,
                forall|i: int|
                    0 <= i < result@.len() ==> (#[trigger] result@[i])@ == seq![first@[i / (rlen as int)]]
                        + rv[i % (rlen as int)],
            decreases rlen - l,
        {
            let combined = prepend(a0, &rest[l]);
            proof {
                let idx = a_idx * rlen + l;
                vstd::arithmetic::div_mod::lemma_fundamental_div_mod_converse(
                    idx as int,
                    rlen as int,
                    a_idx as int,
                    l as int,
                );
            }
            result.push(combined);
            l = l + 1;
        }
        proof {
            assert((a_idx + 1) * rlen == a_idx * rlen + rlen) by (nonlinear_arith);
        }
        a_idx = a_idx + 1;
    }
    proof {
        let c = cartesian(sv);
        assert(c.len() == first@.len() * rlen);
        assert forall|i: int| 0 <= i < result@.len() implies (#[trigger] result@[i])@ == c[i] by {}
    }
    result
}

/// All action vectors that choose one action from each space's support,
/// the first space varying slowest; none when there are no spaces.
pub fn cartesian_product_actions(component_supports: &[Vec<usize>]) -> (r: Vec<HLAction>)
    ensures
        r@.len() == cartesian(supports_view(component_supports@)).len(),
        forall|i: int|
            0 <= i < r@.len() ==> (#[trigger] r@[i] matches HLAction::Vector(v) && v@ == cartesian(
                supports_view(component_supports@),
            )[i]),
        component_supports@.len() > 0 ==> r@.len() == support_sizes_product(
            supports_view(component_supports@),
        ),
{
    let mut out: Vec<HLAction> = Vec::new();
    if component_supports.len() == 0 {
        return out;
    }
    proof {
        lemma_cartesian_len(supports_view(component_supports@));
    }
    let vectors = cartesian_from(component_supports, 0);
    proof {
        assert(supports_view(component_supports@).subrange(0, component_supports@.len() as int)
            =~= supports_view(component_supports@));
    }
    let mut i: usize = 0;
    while i < vectors.len()
        invariant
            i <= vectors@.len(),
            out@.len() == i,
            forall|j: int|
                0 <= j < i ==> (#[trigger] out@[j] matches HLAction::Vector(v) && v@ == vectors@[j]@),
        decreases vectors.len() - i,
    {
        let v = copy_vec(&vectors[i]);
        out.push(HLAction::Vector(v));
        i = i + 1;
    }
    out
}

/// A copy of `v`.
fn copy_vec(v: &Vec<usize>) -> (r: Vec<usize>)
    ensures
        r@ == v@,
{
    let mut out: Vec<usize> = Vec::new();
    let mut i: usize = 0;
    while i < v.len()
        invariant
            i <= v@.len(),
            out@ =~= v@.take(i as int),
        decreases v.len() - i,
    {
        out.push(v[i]);
        i = i + 1;
    }
    proof {
        assert(v@.take(v@.len() as int) =~= v@);
    }
    out
}


/// Every vector of the Cartesian product has one entry per space, taken from
/// that space's support.
pub proof fn lemma_cartesian_members(s: Seq<Seq<usize>>, i: int)
    requires
        0 <= i < cartesian(s).len(),
    ensures
        cartesian(s)[i].len() == s.len(),
        forall|k: int| 0 <= k < s.len() ==> #[trigger] s[k].contains(cartesian(s)[i][k]),
    decreases s.len(),
{
    if s.len() == 1 {
        assert(s[0].contains(cartesian(s)[i][0])) by {
            assert(s[0][i] == cartesian(s)[i][0]);
        }
    } else if s.len() > 1 {
        let r = cartesian(s.drop_first());
        let rl = r.len() as int;
        assert(rl > 0) by {
            if rl == 0 {
                assert(s[0].len() * r.len() == 0) by (nonlinear_arith)
                    requires
                        r.len() == 0,
                ;
            }
        }
        let q = i / rl;
        let m = i % rl;
        assert(0 <= q < s[0].len()) by {
            vstd::arithmetic::div_mod::lemma_div_pos_is_pos(i, rl);
            vstd::arithmetic::div_mod::lemma_div_is_ordered(i, s[0].len() * rl - 1, rl);
            vstd::arithmetic::div_mod::lemma_fundamental_div_mod(i, rl);
            assert(q < s[0].len()) by (nonlinear_arith)
                requires
                    i == rl * q + m,
                    0 <= m,
                    i < s[0].len() * rl,
                    rl > 0,
            ;
        }
        assert(0 <= m < rl) by {
            vstd::arithmetic::div_mod::lemma_mod_bound(i, rl);
        }
        lemma_cartesian_members(s.drop_first(), m);
        let v = cartesian(s)[i];
        assert(v == seq![s[0][q]] + r[m]);
        assert forall|k: int| 0 <= k < s.len() implies #[trigger] s[k].contains(v[k]) by {
            if k == 0 {
                assert(s[0][q] == v[0]);
            } else {
                assert(v[k] == r[m][k - 1]);
                assert(s.drop_first()[k - 1] == s[k]);
            }
        }
    }
}


/// Product of the support sizes, ∏ |S_k| (1 for no supports).
pub open spec fn support_sizes_product(s: Seq<Seq<usize>>) -> nat
    decreases s.len(),
{
    if s.len() == 0 {
        1
    } else {
        s[0].len() * support_sizes_product(s.drop_first())
    }
}

/// The Cartesian product of one or more supports has exactly ∏ |S_k|
/// vectors.
pub proof fn lemma_cartesian_len(s: Seq<Seq<usize>>)
    requires
        s.len() > 0,
    ensures
        cartesian(s).len() == support_sizes_product(s),
    decreases s.len(),
{
    if s.len() == 1 {
        assert(s.drop_first().len() == 0);
        assert(support_sizes_product(s.drop_first()) == 1);
        assert(support_sizes_product(s) == s[0].len() * 1);
        assert(cartesian(s).len() == s[0].len());
    } else {
        lemma_cartesian_len(s.drop_first());
    }
}

/// The Cartesian product of one or more supports is complete: every vector
/// with one entry per space, each from that space's support, is in it.
pub proof fn lemma_cartesian_complete(s: Seq<Seq<usize>>, v: Seq<usize>)
    requires
        s.len() > 0,
        v.len() == s.len(),
        forall|k: int| 0 <= k < s.len() ==> #[trigger] s[k].contains(v[k]),
    ensures
        cartesian(s).contains(v),
    decreases s.len(),
{
    assert(s[0].contains(v[0]));
    let q = choose|q: int| 0 <= q < s[0].len() && s[0][q] == v[0];
    if s.len() == 1 {
        assert(cartesian(s)[q] =~= v);
    } else {
        let sd = s.drop_first();
        let vd = v.drop_first();
        assert forall|k: int| 0 <= k < sd.len() implies #[trigger] sd[k].contains(vd[k]) by {
            assert(s[k + 1].contains(v[k + 1]));
        }
        lemma_cartesian_complete(sd, vd);
        let r = cartesian(sd);
        let m = choose|m: int| 0 <= m < r.len() && r[m] == vd;
        let rl = r.len() as int;
        let n0 = s[0].len() as int;
        let i = q * rl + m;
        assert(0 <= i < n0 * rl) by (nonlinear_arith)
            requires
                0 <= q < n0,
                0 <= m < rl,
                i == q * rl + m,
        ;
        vstd::arithmetic::div_mod::lemma_fundamental_div_mod_converse(i, rl, q, m);
        assert(cartesian(s).len() == n0 * rl);
        assert(cartesian(s)[i] == seq![s[0][q]] + r[m]);
        assert(cartesian(s)[i] =~= v);
    }
}

// ============================================================================
// Shapes of factorized affordances
// ============================================================================

/// Base dimensions and high-level action counts of a factorized affordance
/// whose component `k` has shape `[|X|, |A|, |A_{z_k}|]`: returns
/// `((|X|, |A|), [|A_{z_1}|, …])`. All components must share the base
/// dimensions.
pub fn affordance_dims(component_dims: &Vec<[usize; 3]>) -> (r: ((usize, usize), Vec<usize>))
    requires
        component_dims@.len() > 0,
        forall|k: int|
            0 <= k < component_dims@.len() ==> (#[trigger] component_dims@[k])[0] == component_dims@[0][0]
                && component_dims@[k][1] == component_dims@[0][1],
    ensures
        r.0 == (component_dims@[0][0], component_dims@[0][1]),
        r.1@.len() == component_dims@.len(),
        forall|k: int| 0 <= k < r.1@.len() ==> #[trigger] r.1@[k] == component_dims@[k][2],
{
    let base_dims = (component_dims[0][0], component_dims[0][1]);
    let mut sizes: Vec<usize> = Vec::new();
    let mut k: usize = 0;
    while k < component_dims.len()
        invariant
            k <= component_dims@.len(),
            sizes@.len() == k,
            forall|j: int| 0 <= j < k ==> #[trigger] sizes@[j] == component_dims@[j][2],
        decreases component_dims.len() - k,
    {
        sizes.push(component_dims[k][2]);
        k = k + 1;
    }
    (base_dims, sizes)
}

} // verus!
