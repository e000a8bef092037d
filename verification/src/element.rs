//! The lane-value abstraction: what every element width must provide.
//!
//! A value of an element type is a bit pattern of `BITS` bits. Its meaning
//! is the natural number `value()`, below `2^BITS`; two's-complement
//! reinterpretation is the spec function [`to_signed`]. Every operation is
//! total and is described by what it does to these numbers.
use vstd::arithmetic::power2::pow2;
use vstd::prelude::*;

verus! {

/// The integer `v` reduced into `[0, 2^bits)`.
pub open spec fn wrap(v: int, bits: nat) -> nat {
    (v % (pow2(bits) as int)) as nat
}

/// The two's-complement reading of the `bits`-bit pattern whose value is
/// `v`: `v` itself, less `2^bits` when the top bit is set.
pub open spec fn to_signed(v: nat, bits: nat) -> int {
    if 2 * v >= pow2(bits) {
        v - pow2(bits)
    } else {
        v as int
    }
}

/// The pattern that repeats the sign bit of the `bits`-bit pattern `v`:
/// all ones for a negative reading, zero else.
pub open spec fn sign_fill(v: nat, bits: nat) -> nat {
    if to_signed(v, bits) < 0 {
        (pow2(bits) - 1) as nat
    } else {
        0
    }
}

/// Bit `i` of the natural number `v`.
pub open spec fn bit(v: nat, i: nat) -> bool {
    (v / pow2(i)) % 2 == 1
}

/// The value that a 64-bit scalar register `x` takes in a lane of `bits`
/// bits: its low bits where the lane is no wider than the register, its
/// sign extension where the lane is wider.
pub open spec fn scalar_value(x: u64, bits: nat) -> nat {
    if bits <= 64 {
        x as nat % pow2(bits)
    } else if x < 0x8000_0000_0000_0000 {
        x as nat
    } else {
        (pow2(bits) - 0x1_0000_0000_0000_0000 + x) as nat
    }
}

/// Whether `r` is the number of leading zero bits of `v` in a field of
/// `bits` bits: the whole width for zero, else the `r` for which `v`
/// lies from `2^(bits - 1 - r)` up to `2^(bits - r)`.
pub open spec fn is_leading_zeros(v: nat, bits: nat, r: nat) -> bool {
    if v == 0 {
        r == bits
    } else {
        r < bits && pow2((bits - 1 - r) as nat) <= v < pow2((bits - r) as nat)
    }
}

/// A lane value: an unsigned integer of `BITS` bits. No operation
/// panics; arithmetic wraps, division by zero has a result, and shifts
/// take any amount.
pub trait Element: Copy + Sized + PartialEq + Eq {
    /// The size of this integer type in bits.
    const BITS: u32;

    /// The natural number that the bit pattern stands for.
    spec fn value(self) -> nat;

    /// The width is a whole number of bytes, from 8 to 1024 bits.
    proof fn lemma_bits()
        ensures
            8 <= Self::BITS <= 1024,
            Self::BITS % 8 == 0,
    ;

    /// Every value is below `2^BITS`.
    proof fn lemma_value_bound(self)
        ensures
            self.value() < pow2(Self::BITS as nat),
    ;

    /// No two bit patterns stand for the same number.
    proof fn lemma_value_unique(self, other: Self)
        ensures
            self.value() == other.value() ==> self == other,
    ;

    /// The zero value.
    fn zero() -> (r: Self)
        ensures
            r.value() == 0,
    ;

    /// The value one.
    fn one() -> (r: Self)
        ensures
            r.value() == 1,
    ;

    /// The smallest value that can be represented.
    fn min_value() -> (r: Self)
        ensures
            r.value() == 0,
    ;

    /// The largest value that can be represented: all bits set.
    fn max_value() -> (r: Self)
        ensures
            r.value() == pow2(Self::BITS as nat) - 1,
    ;

    /// The value `x`, reduced modulo `2^BITS`.
    fn from_u128(x: u128) -> (r: Self)
        ensures
            r.value() == x as nat % pow2(Self::BITS as nat),
    ;

    /// The value `x` in two's complement: sign-extended to a wider type,
    /// truncated to a narrower one.
    fn from_i128(x: i128) -> (r: Self)
        ensures
            r.value() == wrap(x as int, Self::BITS as nat),
    ;

    /// A lane value from a scalar `x` register. A lane of at most 64 bits
    /// takes the low bits of `x`; a wider lane takes `x` sign-extended.
    fn vx(x: u64) -> (r: Self)
        ensures
            r.value() == scalar_value(x, Self::BITS as nat),
    ;

    /// A lane value from a 5-bit immediate, sign-extended.
    fn vi(i: i32) -> (r: Self)
        requires
            -16 <= i <= 15,
        ensures
            to_signed(r.value(), Self::BITS as nat) == i,
    ;

    /// Whether the two values are the same.
    fn equal(self, rhs: Self) -> (r: bool)
        ensures
            r == (self.value() == rhs.value()),
    ;

    /// Unsigned `<`.
    fn less_than(self, rhs: Self) -> (r: bool)
        ensures
            r == (self.value() < rhs.value()),
    ;

    /// Whether the two's-complement reading is above zero.
    fn is_positive(self) -> (r: bool)
        ensures
            r == (to_signed(self.value(), Self::BITS as nat) > 0),
    ;

    /// Whether the two's-complement reading is below zero.
    fn is_negative(self) -> (r: bool)
        ensures
            r == (to_signed(self.value(), Self::BITS as nat) < 0),
    ;

    /// The lower 32 bits.
    fn u32(self) -> (r: u32)
        ensures
            r == self.value() % 0x1_0000_0000,
    ;

    /// The lower 64 bits.
    fn u64(self) -> (r: u64)
        ensures
            r == self.value() % 0x1_0000_0000_0000_0000,
    ;

    /// The number of leading zeros in the binary representation.
    fn leading_zeros(self) -> (r: u32)
        ensures
            is_leading_zeros(self.value(), Self::BITS as nat, r as nat),
    ;

    /// The bits that `self` and `rhs` both have.
    fn bit_and(self, rhs: Self) -> (r: Self)
        ensures
            forall|i: nat|
                i < Self::BITS ==> #[trigger] bit(r.value(), i) == (bit(self.value(), i) && bit(
                    rhs.value(),
                    i,
                )),
    ;

    /// The bits that `self` or `rhs` has.
    fn bit_or(self, rhs: Self) -> (r: Self)
        ensures
            forall|i: nat|
                i < Self::BITS ==> #[trigger] bit(r.value(), i) == (bit(self.value(), i) || bit(
                    rhs.value(),
                    i,
                )),
    ;

    /// The bits that one of `self` and `rhs` has and the other has not.
    fn bit_xor(self, rhs: Self) -> (r: Self)
        ensures
            forall|i: nat|
                i < Self::BITS ==> #[trigger] bit(r.value(), i) == (bit(self.value(), i) != bit(
                    rhs.value(),
                    i,
                )),
    ;

    /// Every bit flipped.
    fn bit_not(self) -> (r: Self)
        ensures
            r.value() == pow2(Self::BITS as nat) - 1 - self.value(),
    ;

    /// Two's-complement negation.
    fn wrapping_neg(self) -> (r: Self)
        ensures
            r.value() == wrap(-(self.value() as int), Self::BITS as nat),
    ;

    /// `self + rhs`, and whether it left the range.
    fn overflowing_add(self, rhs: Self) -> (r: (Self, bool))
        ensures
            r.0.value() == (self.value() + rhs.value()) % pow2(Self::BITS as nat),
            r.1 == (self.value() + rhs.value() >= pow2(Self::BITS as nat)),
    ;

    /// `self - rhs`, and whether it left the range.
    fn overflowing_sub(self, rhs: Self) -> (r: (Self, bool))
        ensures
            r.0.value() == wrap(self.value() - rhs.value(), Self::BITS as nat),
            r.1 == (self.value() < rhs.value()),
    ;

    /// `self * rhs`, and whether it left the range.
    fn overflowing_mul(self, rhs: Self) -> (r: (Self, bool))
        ensures
            r.0.value() == (self.value() * rhs.value()) % pow2(Self::BITS as nat),
            r.1 == (self.value() * rhs.value() >= pow2(Self::BITS as nat)),
    ;

    /// The quotient as `wrapping_div` gives it; unsigned division never
    /// leaves the range.
    fn overflowing_div(self, rhs: Self) -> (r: (Self, bool))
        ensures
            r.0.value() == (if rhs.value() == 0 {
                pow2(Self::BITS as nat) - 1
            } else {
                self.value() as int / rhs.value() as int
            }),
            !r.1,
    ;

    /// The remainder as `wrapping_rem` gives it; unsigned remainder never
    /// leaves the range.
    fn overflowing_rem(self, rhs: Self) -> (r: (Self, bool))
        ensures
            r.0.value() == (if rhs.value() == 0 {
                self.value()
            } else {
                self.value() % rhs.value()
            }),
            !r.1,
    ;

    /// `self + rhs` modulo `2^BITS`.
    fn wrapping_add(self, rhs: Self) -> (r: Self)
        ensures
            r.value() == (self.value() + rhs.value()) % pow2(Self::BITS as nat),
    ;

    /// `self - rhs` modulo `2^BITS`.
    fn wrapping_sub(self, rhs: Self) -> (r: Self)
        ensures
            r.value() == wrap(self.value() - rhs.value(), Self::BITS as nat),
    ;

    /// `self * rhs` modulo `2^BITS`.
    fn wrapping_mul(self, rhs: Self) -> (r: Self)
        ensures
            r.value() == (self.value() * rhs.value()) % pow2(Self::BITS as nat),
    ;

    /// `self / rhs`; all bits set when `rhs` is zero.
    fn wrapping_div(self, rhs: Self) -> (r: Self)
        ensures
            r.value() == (if rhs.value() == 0 {
                pow2(Self::BITS as nat) - 1
            } else {
                self.value() as int / rhs.value() as int
            }),
    ;

    /// `self % rhs`; `self` when `rhs` is zero.
    fn wrapping_rem(self, rhs: Self) -> (r: Self)
        ensures
            r.value() == (if rhs.value() == 0 {
                self.value()
            } else {
                self.value() % rhs.value()
            }),
    ;

    /// Logical shift left; zero once `rhs` reaches `BITS`.
    fn wrapping_shl(self, rhs: u32) -> (r: Self)
        ensures
            r.value() == (if rhs >= Self::BITS {
                0
            } else {
                (self.value() * pow2(rhs as nat)) % pow2(Self::BITS as nat)
            }),
    ;

    /// Logical shift right; zero once `rhs` reaches `BITS`.
    fn wrapping_shr(self, rhs: u32) -> (r: Self)
        ensures
            r.value() == (if rhs >= Self::BITS {
                0
            } else {
                self.value() / pow2(rhs as nat)
            }),
    ;

    /// Arithmetic shift right: the two's-complement reading divided by
    /// `2^rhs`, rounded down. From `BITS - 1` on the result is all zeros
    /// or all ones, by the sign.
    fn wrapping_sra(self, rhs: u32) -> (r: Self)
        ensures
            to_signed(r.value(), Self::BITS as nat) == to_signed(self.value(), Self::BITS as nat)
                / (pow2(rhs as nat) as int),
            rhs >= Self::BITS - 1 ==> r.value() == sign_fill(self.value(), Self::BITS as nat),
    ;

    /// The complete product `self * rhs`, as its low and high halves.
    fn widening_mul(self, rhs: Self) -> (r: (Self, Self))
        ensures
            r.0.value() + pow2(Self::BITS as nat) * r.1.value() == self.value() * rhs.value(),
    ;
}

/// The two's-complement reading of `x`.
pub open spec fn signed<T: Element>(x: T) -> int {
    to_signed(x.value(), T::BITS as nat)
}

/// The element types that can be one half of a wide integer: those of
/// 128 to 512 bits.
pub trait Half: Element {
    /// The width is from 128 to 512 bits.
    proof fn lemma_half_bits()
        ensures
            128 <= Self::BITS <= 512,
    ;
}

} // verus!
