//! What the operators on elements return. An operator's result is the
//! element with a given value; these are the spec functions that say
//! which.
use crate::element::{bit, wrap, Element};
use crate::signed::{truncated_quotient, truncated_remainder, Signed};
use vstd::arithmetic::div_mod::lemma_div_denominator;
use vstd::arithmetic::power2::{lemma2_to64, lemma_pow2_adds, lemma_pow2_pos, pow2};
use vstd::prelude::*;

verus! {

/// The element of type `T` with the value `v`.
pub open spec fn from_value<T: Element>(v: nat) -> T {
    choose|r: T| r.value() == v
}

/// An element is the element with its value.
pub proof fn lemma_from_value<T: Element>(r: T)
    ensures
        from_value::<T>(r.value()) == r,
{
    let chosen = from_value::<T>(r.value());
    r.lemma_value_unique(chosen);
}

/// Two numbers below `2^bits` with the same bits are the same number.
pub proof fn lemma_bits_determine(a: nat, b: nat, bits: nat)
    requires
        a < pow2(bits),
        b < pow2(bits),
        forall|i: nat| i < bits ==> #[trigger] bit(a, i) == bit(b, i),
    ensures
        a == b,
    decreases bits,
{
    lemma2_to64();
    if bits > 0 {
        let rest = (bits - 1) as nat;
        lemma_pow2_adds(1, rest);
        assert forall|i: nat| i < rest implies #[trigger] bit(a / 2, i) == bit(b / 2, i) by {
            lemma_pow2_adds(1, i);
            lemma_pow2_pos(i);
            lemma_div_denominator(a as int, 2, pow2(i) as int);
            lemma_div_denominator(b as int, 2, pow2(i) as int);
            assert(bit(a, i + 1) == bit(b, i + 1));
        }
        lemma_bits_determine(a / 2, b / 2, rest);
        assert(bit(a, 0) == bit(b, 0));
    }
}

/// Whether `v` is the bitwise conjunction of `a` and `b` in `bits` bits.
pub open spec fn is_and(v: nat, a: nat, b: nat, bits: nat) -> bool {
    v < pow2(bits) && forall|i: nat| i < bits ==> #[trigger] bit(v, i) == (bit(a, i) && bit(b, i))
}

/// Whether `v` is the bitwise disjunction of `a` and `b` in `bits` bits.
pub open spec fn is_or(v: nat, a: nat, b: nat, bits: nat) -> bool {
    v < pow2(bits) && forall|i: nat| i < bits ==> #[trigger] bit(v, i) == (bit(a, i) || bit(b, i))
}

/// Whether `v` is the bitwise exclusive disjunction of `a` and `b` in
/// `bits` bits.
pub open spec fn is_xor(v: nat, a: nat, b: nat, bits: nat) -> bool {
    v < pow2(bits) && forall|i: nat| i < bits ==> #[trigger] bit(v, i) == (bit(a, i) != bit(b, i))
}

/// The bitwise conjunction of `a` and `b` in `bits` bits.
pub open spec fn and_value(a: nat, b: nat, bits: nat) -> nat {
    choose|v: nat| is_and(v, a, b, bits)
}

/// The bitwise disjunction of `a` and `b` in `bits` bits.
pub open spec fn or_value(a: nat, b: nat, bits: nat) -> nat {
    choose|v: nat| is_or(v, a, b, bits)
}

/// The bitwise exclusive disjunction of `a` and `b` in `bits` bits.
pub open spec fn xor_value(a: nat, b: nat, bits: nat) -> nat {
    choose|v: nat| is_xor(v, a, b, bits)
}

/// There is one bitwise conjunction.
pub proof fn lemma_and_value(a: nat, b: nat, bits: nat, v: nat)
    requires
        is_and(v, a, b, bits),
    ensures
        and_value(a, b, bits) == v,
{
    lemma_bits_determine(and_value(a, b, bits), v, bits);
}

/// There is one bitwise disjunction.
pub proof fn lemma_or_value(a: nat, b: nat, bits: nat, v: nat)
    requires
        is_or(v, a, b, bits),
    ensures
        or_value(a, b, bits) == v,
{
    lemma_bits_determine(or_value(a, b, bits), v, bits);
}

/// There is one bitwise exclusive disjunction.
pub proof fn lemma_xor_value(a: nat, b: nat, bits: nat, v: nat)
    requires
        is_xor(v, a, b, bits),
    ensures
        xor_value(a, b, bits) == v,
{
    lemma_bits_determine(xor_value(a, b, bits), v, bits);
}

/// `a + b`: the wrapping sum.
pub open spec fn sum<T: Element>(a: T, b: T) -> T {
    from_value((a.value() + b.value()) % pow2(T::BITS as nat))
}

/// `a - b`: the wrapping difference.
pub open spec fn difference<T: Element>(a: T, b: T) -> T {
    from_value(wrap(a.value() - b.value(), T::BITS as nat))
}

/// `a * b`: the wrapping product.
pub open spec fn product<T: Element>(a: T, b: T) -> T {
    from_value((a.value() * b.value()) % pow2(T::BITS as nat))
}

/// `a / b`: the quotient, or all bits set for a zero divisor.
pub open spec fn quotient<T: Element>(a: T, b: T) -> T {
    from_value(
        if b.value() == 0 {
            (pow2(T::BITS as nat) - 1) as nat
        } else {
            a.value() / b.value()
        },
    )
}

/// `a % b`: the remainder, or the dividend for a zero divisor.
pub open spec fn remainder<T: Element>(a: T, b: T) -> T {
    from_value(
        if b.value() == 0 {
            a.value()
        } else {
            a.value() % b.value()
        },
    )
}

/// `-a`: the two's-complement negation.
pub open spec fn negation<T: Element>(a: T) -> T {
    from_value(wrap(-(a.value() as int), T::BITS as nat))
}

/// `!a`: every bit flipped.
pub open spec fn complement<T: Element>(a: T) -> T {
    from_value((pow2(T::BITS as nat) - 1 - a.value()) as nat)
}

/// `a & b`.
pub open spec fn conjunction<T: Element>(a: T, b: T) -> T {
    from_value(and_value(a.value(), b.value(), T::BITS as nat))
}

/// `a | b`.
pub open spec fn disjunction<T: Element>(a: T, b: T) -> T {
    from_value(or_value(a.value(), b.value(), T::BITS as nat))
}

/// `a ^ b`.
pub open spec fn exclusive<T: Element>(a: T, b: T) -> T {
    from_value(xor_value(a.value(), b.value(), T::BITS as nat))
}

/// `a << n`: the logical shift left, zero once `n` reaches the width.
pub open spec fn shifted_left<T: Element>(a: T, n: u32) -> T {
    from_value(
        if n >= T::BITS {
            0
        } else {
            (a.value() * pow2(n as nat)) % pow2(T::BITS as nat)
        },
    )
}

/// `a >> n`: the logical shift right, zero once `n` reaches the width.
pub open spec fn shifted_right<T: Element>(a: T, n: u32) -> T {
    from_value(
        if n >= T::BITS {
            0
        } else {
            a.value() / pow2(n as nat)
        },
    )
}

/// `a / b` for signed integers: the quotient rounded toward zero and
/// wrapped, or -1 for a zero divisor.
pub open spec fn signed_quotient<U: Element>(a: Signed<U>, b: Signed<U>) -> Signed<U> {
    Signed {
        uint: from_value(
            if b.value() == 0 {
                (pow2(U::BITS as nat) - 1) as nat
            } else {
                wrap(truncated_quotient(a.value(), b.value()), U::BITS as nat)
            },
        ),
    }
}

/// `a % b` for signed integers: the remainder with the sign of the
/// dividend, or the dividend for a zero divisor.
pub open spec fn signed_remainder<U: Element>(a: Signed<U>, b: Signed<U>) -> Signed<U> {
    Signed {
        uint: from_value(
            if b.value() == 0 {
                a.uint.value()
            } else {
                wrap(truncated_remainder(a.value(), b.value()), U::BITS as nat)
            },
        ),
    }
}

} // verus!
