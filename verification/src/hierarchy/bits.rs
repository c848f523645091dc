//! Little-endian binary vectors and their integer values.

use vstd::prelude::*;

verus! {

/// 2 to the power `n`.
pub open spec fn two_pow(n: nat) -> nat
    decreases n,
{
    if n == 0 {
        1
    } else {
        2 * two_pow((n - 1) as nat)
    }
}

/// Value of a little-endian bit sequence: bit `i` contributes `2^i`.
pub open spec fn bits_value(bits: Seq<bool>) -> nat
    decreases bits.len(),
{
    if bits.len() == 0 {
        0
    } else {
        bits_value(bits.drop_last()) + if bits.last() {
            two_pow((bits.len() - 1) as nat)
        } else {
            0
        }
    }
}

/// The `n` lowest bits of `index`, least significant first.
pub open spec fn index_bits(index: nat, n: nat) -> Seq<bool> {
    Seq::new(n, |i: int| (index / two_pow(i as nat)) % 2 == 1)
}

/// Powers of two are positive and agree with vstd's `pow2`.
pub proof fn lemma_two_pow(n: nat)
    ensures
        two_pow(n) > 0,
        two_pow(n) == vstd::arithmetic::power2::pow2(n),
    decreases n,
{
    if n == 0 {
        vstd::arithmetic::power2::lemma2_to64();
    } else {
        lemma_two_pow((n - 1) as nat);
        vstd::arithmetic::power2::lemma_pow2_unfold(n);
    }
}

/// `2^BITS` is one more than the largest `usize`.
pub proof fn lemma_two_pow_word()
    ensures
        two_pow(usize::BITS as nat) == usize::MAX + 1,
{
    lemma_two_pow(usize::BITS as nat);
    vstd::arithmetic::power2::lemma2_to64();
    vstd::arithmetic::power2::lemma2_to64_rest();
}

/// `1 << i` is `2^i` for shifts below the word size.
pub proof fn lemma_one_shl(i: usize)
    requires
        i < usize::BITS,
    ensures
        (1usize << i) == two_pow(i as nat),
        two_pow(i as nat) <= usize::MAX,
{
    lemma_two_pow(i as nat);
    vstd::bits::lemma_usize_pow2_no_overflow(i as nat);
    vstd::bits::lemma_usize_shl_is_mul(1, i);
}

/// Powers of two grow with the exponent.
pub proof fn lemma_two_pow_monotone(a: nat, b: nat)
    requires
        a <= b,
    ensures
        two_pow(a) <= two_pow(b),
    decreases b,
{
    if a < b {
        lemma_two_pow_monotone(a, (b - 1) as nat);
    }
}

/// The value of `n` bits is below `2^n`.
pub proof fn lemma_bits_value_bound(bits: Seq<bool>)
    ensures
        bits_value(bits) < two_pow(bits.len()),
    decreases bits.len(),
{
    if bits.len() > 0 {
        lemma_bits_value_bound(bits.drop_last());
    }
}

/// Appending a bit at the top adds `2^len` when the bit is set.
pub proof fn lemma_bits_value_prefix(bits: Seq<bool>, i: int)
    requires
        0 <= i < bits.len(),
    ensures
        bits_value(bits.subrange(0, i + 1)) == bits_value(bits.subrange(0, i)) + if bits[i] {
            two_pow(i as nat)
        } else {
            0
        },
{
    assert(bits.subrange(0, i + 1).drop_last() =~= bits.subrange(0, i));
}

/// Reading the bits of `v` back gives `v` modulo `2^n`.
pub proof fn lemma_index_bits_value(v: nat, n: nat)
    ensures
        bits_value(index_bits(v, n)) == v % two_pow(n),
    decreases n,
{
    lemma_two_pow(n);
    if n == 0 {
        assert(index_bits(v, 0) =~= Seq::<bool>::empty());
    } else {
        let m = (n - 1) as nat;
        lemma_two_pow(m);
        lemma_index_bits_value(v, m);
        assert(index_bits(v, n).drop_last() =~= index_bits(v, m));
        vstd::arithmetic::div_mod::lemma_mod_breakdown(v as int, two_pow(m) as int, 2);
        assert(two_pow(n) == two_pow(m) * 2);
    }
}

/// Two bit sequences of the same length with the same value are equal.
pub proof fn lemma_bits_value_injective(a: Seq<bool>, b: Seq<bool>)
    requires
        a.len() == b.len(),
        bits_value(a) == bits_value(b),
    ensures
        a == b,
    decreases a.len(),
{
    if a.len() > 0 {
        let n = (a.len() - 1) as nat;
        lemma_bits_value_bound(a.drop_last());
        lemma_bits_value_bound(b.drop_last());
        lemma_bits_value_injective(a.drop_last(), b.drop_last());
        assert(a =~= a.drop_last().push(a.last()));
        assert(b =~= b.drop_last().push(b.last()));
    } else {
        assert(a =~= b);
    }
}

/// Bits and values are inverse: the bits of the value of `bits` are `bits`.
pub proof fn lemma_bits_roundtrip(bits: Seq<bool>)
    ensures
        index_bits(bits_value(bits), bits.len()) == bits,
{
    let v = bits_value(bits);
    lemma_bits_value_bound(bits);
    lemma_index_bits_value(v, bits.len());
    vstd::arithmetic::div_mod::lemma_small_mod(v, two_pow(bits.len()));
    lemma_bits_value_injective(index_bits(v, bits.len()), bits);
}

/// Values and bits are inverse: the value of the `n` bits of `v < 2^n` is `v`.
pub proof fn lemma_index_roundtrip(v: nat, n: nat)
    requires
        v < two_pow(n),
    ensures
        bits_value(index_bits(v, n)) == v,
        index_bits(v, n).len() == n,
{
    lemma_index_bits_value(v, n);
    vstd::arithmetic::div_mod::lemma_small_mod(v, two_pow(n));
}

/// Little-endian weights: no bits have value 0, and appending bit `b` to
/// `n` bits adds `2^n` when `b` is set and nothing otherwise.
pub proof fn lemma_bits_value_weights(bits: Seq<bool>, b: bool)
    ensures
        bits_value(Seq::<bool>::empty()) == 0,
        bits_value(bits.push(b)) == bits_value(bits) + if b {
            vstd::arithmetic::power2::pow2(bits.len())
        } else {
            0
        },
{
    assert(bits.push(b).drop_last() =~= bits);
    lemma_two_pow(bits.len());
}

} // verus!
