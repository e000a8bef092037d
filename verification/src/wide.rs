//! Wide integers: two halves of the next smaller width, `lo + 2^h * hi`.
use crate::element::{bit, is_leading_zeros, to_signed, wrap, Element, Half};
use crate::halves::{
    lemma_add_digits, lemma_base, lemma_bit_digits, lemma_leading_zeros_join, lemma_low_bits,
    lemma_not_digits, lemma_signed_digits, lemma_sub_digits, lemma_two_digits,
    lemma_two_digits_order,
};
use crate::modular::{lemma_wrap_add, lemma_wrap_neg, lemma_wrap_sub};
use crate::native::lemma_pow2_128;
use crate::quadword::{lemma_u128_bits, U128};
use vstd::arithmetic::div_mod::lemma_small_mod;
use vstd::arithmetic::power2::{lemma2_to64, lemma2_to64_rest, lemma_pow2_strictly_increases, pow2};
use vstd::prelude::*;
use vstd::prelude::*;

verus! {

/// An unsigned integer of twice the width of `H`, as its low and high
/// halves.
#[derive(Copy, Debug, Default, PartialEq, Eq, Structural)]
pub struct Wide<H> {
    pub lo: H,
    pub hi: H,
}

pub type U256 = Wide<U128>;

pub type U512 = Wide<U256>;

pub type U1024 = Wide<U512>;

impl<H: Copy> Clone for Wide<H> {
    fn clone(&self) -> (r: Self)
        ensures
            r == *self,
    {
        *self
    }
}

/// What the width of a wide integer is, by the width `h` of its halves.
pub proof fn lemma_wide_bits<H: Half>()
    ensures
        Wide::<H>::BITS == 2 * H::BITS,
        128 <= H::BITS <= 512,
        H::BITS % 8 == 0,
        pow2(Wide::<H>::BITS as nat) == pow2(H::BITS as nat) * pow2(H::BITS as nat),
        2 * pow2((H::BITS - 1) as nat) == pow2(H::BITS as nat),
        2 <= pow2(H::BITS as nat),
{
    H::lemma_bits();
    H::lemma_half_bits();
    lemma_base(H::BITS as nat);
}

/// The digit one for a carry or borrow that is set, zero for one that is
/// not.
fn carry_digit<H: Element>(carry: bool) -> (r: H)
    ensures
        r.value() == (if carry {
            1nat
        } else {
            0nat
        }),
{
    if carry {
        H::one()
    } else {
        H::zero()
    }
}

impl<H: Half> Wide<H> {
    /// Returns true if self is positive and false if the number is zero or negative.
    pub fn is_positive(self) -> (r: bool)
        ensures
            r == (to_signed(self.value(), Self::BITS as nat) > 0),
    {
        proof {
            lemma_wide_bits::<H>();
            self.lo.lemma_value_bound();
            self.hi.lemma_value_bound();
            lemma_signed_digits(self.lo.value(), self.hi.value(), H::BITS as nat);
            lemma_two_digits(self.lo.value(), self.hi.value(), pow2(H::BITS as nat));
            assert(pow2(H::BITS as nat) * 0 == 0) by (nonlinear_arith);
        }
        !self.hi.is_negative() && !(self.hi.equal(H::zero()) && self.lo.equal(H::zero()))
    }

    /// Returns true if self is negative and false if the number is zero or positive.
    pub fn is_negative(self) -> (r: bool)
        ensures
            r == (to_signed(self.value(), Self::BITS as nat) < 0),
    {
        proof {
            lemma_wide_bits::<H>();
            self.lo.lemma_value_bound();
            self.hi.lemma_value_bound();
            lemma_signed_digits(self.lo.value(), self.hi.value(), H::BITS as nat);
            lemma_two_digits(self.lo.value(), self.hi.value(), pow2(H::BITS as nat));
        }
        self.hi.is_negative()
    }

    /// The wide integer with `lo` as its low half and a zero high half.
    pub fn from_half(lo: H) -> (r: Self)
        ensures
            r.value() == lo.value(),
            r.lo == lo,
            r.hi.value() == 0,
    {
        proof {
            assert(pow2(H::BITS as nat) * 0 == 0) by (nonlinear_arith);
        }
        Wide { lo, hi: H::zero() }
    }

    /// Returns the lower 32 bits.
    pub fn u32(self) -> (r: u32)
        ensures
            r == self.value() % 0x1_0000_0000,
    {
        proof {
            lemma_wide_bits::<H>();
            lemma2_to64();
            lemma_low_bits(self.lo.value(), self.hi.value(), H::BITS as nat, 32);
        }
        self.lo.u32()
    }

    /// Returns the lower 64 bits.
    pub fn u64(self) -> (r: u64)
        ensures
            r == self.value() % 0x1_0000_0000_0000_0000,
    {
        proof {
            lemma_wide_bits::<H>();
            lemma2_to64_rest();
            lemma_low_bits(self.lo.value(), self.hi.value(), H::BITS as nat, 64);
        }
        self.lo.u64()
    }

    /// Returns the number of leading zeros in the binary representation of self.
    pub fn leading_zeros(self) -> (r: u32)
        ensures
            is_leading_zeros(self.value(), Self::BITS as nat, r as nat),
    {
        proof {
            lemma_wide_bits::<H>();
            self.lo.lemma_value_bound();
            self.hi.lemma_value_bound();
        }
        if self.hi.equal(H::zero()) {
            let low: u32 = self.lo.leading_zeros();
            proof {
                lemma_leading_zeros_join(
                    self.lo.value(),
                    self.hi.value(),
                    H::BITS as nat,
                    (H::BITS + low) as nat,
                );
            }
            H::BITS + low
        } else {
            let high: u32 = self.hi.leading_zeros();
            proof {
                lemma_leading_zeros_join(
                    self.lo.value(),
                    self.hi.value(),
                    H::BITS as nat,
                    high as nat,
                );
            }
            high
        }
    }

    /// Calculates self + rhs
    ///
    /// Returns a tuple of the addition along with a boolean indicating whether an arithmetic
    /// overflow would occur. If an overflow would have occurred then the wrapped value is returned.
    pub fn overflowing_add(self, rhs: Self) -> (r: (Self, bool))
        ensures
            r.0.value() == (self.value() + rhs.value()) % pow2(Self::BITS as nat),
            r.1 == (self.value() + rhs.value() >= pow2(Self::BITS as nat)),
    {
        proof {
            lemma_wide_bits::<H>();
            self.lo.lemma_value_bound();
            self.hi.lemma_value_bound();
            rhs.lo.lemma_value_bound();
            rhs.hi.lemma_value_bound();
            lemma_add_digits(
                self.lo.value(),
                self.hi.value(),
                rhs.lo.value(),
                rhs.hi.value(),
                pow2(H::BITS as nat),
            );
        }
        let (lo, lo_carry) = self.lo.overflowing_add(rhs.lo);
        let (hi, hi_carry_1) = self.hi.overflowing_add(carry_digit(lo_carry));
        let (hi, hi_carry_2) = hi.overflowing_add(rhs.hi);
        (Wide { lo, hi }, hi_carry_1 || hi_carry_2)
    }

    /// Calculates self - rhs
    ///
    /// Returns a tuple of the subtraction along with a boolean indicating whether an arithmetic
    /// overflow would occur. If an overflow would have occurred then the wrapped value is returned.
    pub fn overflowing_sub(self, rhs: Self) -> (r: (Self, bool))
        ensures
            r.0.value() == wrap(self.value() - rhs.value(), Self::BITS as nat),
            r.1 == (self.value() < rhs.value()),
    {
        proof {
            lemma_wide_bits::<H>();
            self.lo.lemma_value_bound();
            self.hi.lemma_value_bound();
            rhs.lo.lemma_value_bound();
            rhs.hi.lemma_value_bound();
            lemma_sub_digits(
                self.lo.value(),
                self.hi.value(),
                rhs.lo.value(),
                rhs.hi.value(),
                pow2(H::BITS as nat),
            );
        }
        let (lo, lo_borrow) = self.lo.overflowing_sub(rhs.lo);
        let (hi, hi_borrow_1) = self.hi.overflowing_sub(carry_digit(lo_borrow));
        let (hi, hi_borrow_2) = hi.overflowing_sub(rhs.hi);
        (Wide { lo, hi }, hi_borrow_1 || hi_borrow_2)
    }

    /// Wrapping (modular) addition. Computes self + rhs, wrapping around at the boundary of the
    /// type.
    pub fn wrapping_add(self, rhs: Self) -> (r: Self)
        ensures
            r.value() == (self.value() + rhs.value()) % pow2(Self::BITS as nat),
    {
        proof {
            lemma_wide_bits::<H>();
            self.lo.lemma_value_bound();
            self.hi.lemma_value_bound();
            rhs.lo.lemma_value_bound();
            rhs.hi.lemma_value_bound();
            lemma_add_digits(
                self.lo.value(),
                self.hi.value(),
                rhs.lo.value(),
                rhs.hi.value(),
                pow2(H::BITS as nat),
            );
        }
        let (lo, carry) = self.lo.overflowing_add(rhs.lo);
        let hi = self.hi.wrapping_add(rhs.hi).wrapping_add(carry_digit(carry));
        Wide { lo, hi }
    }

    /// Wrapping (modular) subtraction. Computes self - rhs, wrapping around at the boundary of the
    /// type.
    pub fn wrapping_sub(self, rhs: Self) -> (r: Self)
        ensures
            r.value() == wrap(self.value() - rhs.value(), Self::BITS as nat),
    {
        proof {
            lemma_wide_bits::<H>();
            self.lo.lemma_value_bound();
            self.hi.lemma_value_bound();
            rhs.lo.lemma_value_bound();
            rhs.hi.lemma_value_bound();
            lemma_sub_digits(
                self.lo.value(),
                self.hi.value(),
                rhs.lo.value(),
                rhs.hi.value(),
                pow2(H::BITS as nat),
            );
        }
        let (lo, borrow) = self.lo.overflowing_sub(rhs.lo);
        let hi = self.hi.wrapping_sub(rhs.hi).wrapping_sub(carry_digit(borrow));
        Wide { lo, hi }
    }
}

impl<H: Half> Element for Wide<H> {
    const BITS: u32 = H::BITS * 2;

    open spec fn value(self) -> nat {
        self.lo.value() + pow2(H::BITS as nat) * self.hi.value()
    }

    proof fn lemma_bits() {
        lemma_wide_bits::<H>();
    }

    proof fn lemma_value_bound(self) {
        lemma_wide_bits::<H>();
        self.lo.lemma_value_bound();
        self.hi.lemma_value_bound();
        lemma_two_digits(self.lo.value(), self.hi.value(), pow2(H::BITS as nat));
    }

    proof fn lemma_value_unique(self, other: Self) {
        self.lo.lemma_value_bound();
        self.hi.lemma_value_bound();
        other.lo.lemma_value_bound();
        other.hi.lemma_value_bound();
        lemma_two_digits(self.lo.value(), self.hi.value(), pow2(H::BITS as nat));
        lemma_two_digits(other.lo.value(), other.hi.value(), pow2(H::BITS as nat));
        self.lo.lemma_value_unique(other.lo);
        self.hi.lemma_value_unique(other.hi);
    }

    fn zero() -> (r: Self) {
        proof {
            assert(pow2(H::BITS as nat) * 0 == 0) by (nonlinear_arith);
        }
        Wide { lo: H::zero(), hi: H::zero() }
    }

    fn one() -> (r: Self) {
        proof {
            assert(pow2(H::BITS as nat) * 0 == 0) by (nonlinear_arith);
        }
        Wide { lo: H::one(), hi: H::zero() }
    }

    fn min_value() -> (r: Self) {
        proof {
            assert(pow2(H::BITS as nat) * 0 == 0) by (nonlinear_arith);
        }
        Wide { lo: H::min_value(), hi: H::min_value() }
    }

    fn max_value() -> (r: Self) {
        proof {
            lemma_wide_bits::<H>();
            lemma_not_digits(0, 0, pow2(H::BITS as nat));
            assert(pow2(H::BITS as nat) * 0 == 0) by (nonlinear_arith);
        }
        Wide { lo: H::max_value(), hi: H::max_value() }
    }

    fn from_u128(x: u128) -> (r: Self) {
        proof {
            lemma_wide_bits::<H>();
            lemma_pow2_128();
            if H::BITS > 128 {
                lemma_pow2_strictly_increases(128, H::BITS as nat);
            }
            let b = pow2(H::BITS as nat);
            assert(b * b >= b) by (nonlinear_arith)
                requires
                    b >= 1,
            ;
            lemma_small_mod(x as nat, b);
            lemma_small_mod(x as nat, b * b);
            assert(b * 0 == 0) by (nonlinear_arith);
        }
        Wide { lo: H::from_u128(x), hi: H::zero() }
    }

    fn from_i128(x: i128) -> (r: Self) {
        let lo = H::from_i128(x);
        let hi = if x >= 0 {
            H::zero()
        } else {
            H::max_value()
        };
        proof {
            lemma_wide_bits::<H>();
            lemma_pow2_128();
            if H::BITS > 128 {
                lemma_pow2_strictly_increases(128, H::BITS as nat);
            }
            let b = pow2(H::BITS as nat);
            assert(b * b >= b) by (nonlinear_arith)
                requires
                    b >= 1,
            ;
            assert(b * 0 == 0) by (nonlinear_arith);
            if x >= 0 {
                lemma_small_mod(x as nat, b);
                lemma_small_mod(x as nat, b * b);
            } else {
                lemma_wrap_sub(0, (-x) as nat, b);
                lemma_wrap_sub(0, (-x) as nat, b * b);
                assert((b + x) + b * (b - 1) == b * b + x) by (nonlinear_arith);
            }
        }
        Wide { lo, hi }
    }

    fn vx(x: u64) -> (r: Self) {
        proof {
            lemma_wide_bits::<H>();
            assert(pow2(H::BITS as nat) * 0 == 0) by (nonlinear_arith);
            lemma2_to64_rest();
            lemma_pow2_strictly_increases(64, H::BITS as nat);
            let b = pow2(H::BITS as nat);
            let below = b - 0x1_0000_0000_0000_0000 + x;
            assert(below + b * (b - 1) == b * b - 0x1_0000_0000_0000_0000 + x) by (nonlinear_arith)
                requires
                    below == b - 0x1_0000_0000_0000_0000 + x,
            ;
        }
        Wide {
            lo: H::vx(x),
            hi: if x < 0x8000_0000_0000_0000 {
                H::zero()
            } else {
                H::max_value()
            },
        }
    }

    fn vi(i: i32) -> (r: Self) {
        let lo = H::vi(i);
        let hi = if i >= 0 {
            H::zero()
        } else {
            H::max_value()
        };
        proof {
            lemma_wide_bits::<H>();
            lo.lemma_value_bound();
            lemma_signed_digits(lo.value(), hi.value(), H::BITS as nat);
            assert(pow2(H::BITS as nat) * 0 == 0) by (nonlinear_arith);
            assert(pow2(H::BITS as nat) * (-1) == -pow2(H::BITS as nat)) by (nonlinear_arith);
        }
        Wide { lo, hi }
    }

    fn equal(self, rhs: Self) -> (r: bool) {
        proof {
            self.lo.lemma_value_bound();
            self.hi.lemma_value_bound();
            rhs.lo.lemma_value_bound();
            rhs.hi.lemma_value_bound();
            lemma_two_digits_order(
                self.lo.value(),
                self.hi.value(),
                rhs.lo.value(),
                rhs.hi.value(),
                pow2(H::BITS as nat),
            );
        }
        self.hi.equal(rhs.hi) && self.lo.equal(rhs.lo)
    }

    fn less_than(self, rhs: Self) -> (r: bool) {
        proof {
            self.lo.lemma_value_bound();
            self.hi.lemma_value_bound();
            rhs.lo.lemma_value_bound();
            rhs.hi.lemma_value_bound();
            lemma_two_digits_order(
                self.lo.value(),
                self.hi.value(),
                rhs.lo.value(),
                rhs.hi.value(),
                pow2(H::BITS as nat),
            );
        }
        self.hi.less_than(rhs.hi) || (self.hi.equal(rhs.hi) && self.lo.less_than(rhs.lo))
    }

    fn is_positive(self) -> (r: bool) {
        Wide::is_positive(self)
    }

    fn is_negative(self) -> (r: bool) {
        Wide::is_negative(self)
    }

    fn u32(self) -> (r: u32) {
        Wide::u32(self)
    }

    fn u64(self) -> (r: u64) {
        Wide::u64(self)
    }

    fn leading_zeros(self) -> (r: u32) {
        Wide::leading_zeros(self)
    }

    fn bit_and(self, rhs: Self) -> (r: Self) {
        let r = Wide { lo: self.lo.bit_and(rhs.lo), hi: self.hi.bit_and(rhs.hi) };
        proof {
            self.lo.lemma_value_bound();
            rhs.lo.lemma_value_bound();
            r.lo.lemma_value_bound();
            assert forall|i: nat| i < Self::BITS implies #[trigger] bit(r.value(), i) == (bit(
                self.value(),
                i,
            ) && bit(rhs.value(), i)) by {
                lemma_bit_digits(self.lo.value(), self.hi.value(), H::BITS as nat, i);
                lemma_bit_digits(rhs.lo.value(), rhs.hi.value(), H::BITS as nat, i);
                lemma_bit_digits(r.lo.value(), r.hi.value(), H::BITS as nat, i);
            }
        }
        r
    }

    fn bit_or(self, rhs: Self) -> (r: Self) {
        let r = Wide { lo: self.lo.bit_or(rhs.lo), hi: self.hi.bit_or(rhs.hi) };
        proof {
            self.lo.lemma_value_bound();
            rhs.lo.lemma_value_bound();
            r.lo.lemma_value_bound();
            assert forall|i: nat| i < Self::BITS implies #[trigger] bit(r.value(), i) == (bit(
                self.value(),
                i,
            ) || bit(rhs.value(), i)) by {
                lemma_bit_digits(self.lo.value(), self.hi.value(), H::BITS as nat, i);
                lemma_bit_digits(rhs.lo.value(), rhs.hi.value(), H::BITS as nat, i);
                lemma_bit_digits(r.lo.value(), r.hi.value(), H::BITS as nat, i);
            }
        }
        r
    }

    fn bit_xor(self, rhs: Self) -> (r: Self) {
        let r = Wide { lo: self.lo.bit_xor(rhs.lo), hi: self.hi.bit_xor(rhs.hi) };
        proof {
            self.lo.lemma_value_bound();
            rhs.lo.lemma_value_bound();
            r.lo.lemma_value_bound();
            assert forall|i: nat| i < Self::BITS implies #[trigger] bit(r.value(), i) == (bit(
                self.value(),
                i,
            ) != bit(rhs.value(), i)) by {
                lemma_bit_digits(self.lo.value(), self.hi.value(), H::BITS as nat, i);
                lemma_bit_digits(rhs.lo.value(), rhs.hi.value(), H::BITS as nat, i);
                lemma_bit_digits(r.lo.value(), r.hi.value(), H::BITS as nat, i);
            }
        }
        r
    }

    fn bit_not(self) -> (r: Self) {
        proof {
            lemma_wide_bits::<H>();
            self.lo.lemma_value_bound();
            self.hi.lemma_value_bound();
            lemma_not_digits(self.lo.value(), self.hi.value(), pow2(H::BITS as nat));
        }
        Wide { lo: self.lo.bit_not(), hi: self.hi.bit_not() }
    }

    fn wrapping_neg(self) -> (r: Self) {
        proof {
            lemma_wide_bits::<H>();
            self.lemma_value_bound();
            lemma_wrap_neg(self.value(), pow2(Self::BITS as nat));
            assert(pow2(H::BITS as nat) * pow2(H::BITS as nat) >= 4) by (nonlinear_arith)
                requires
                    pow2(H::BITS as nat) >= 2,
            ;
            lemma_wrap_add(
                (pow2(Self::BITS as nat) - 1 - self.value()) as nat,
                1,
                pow2(Self::BITS as nat),
            );
        }
        self.bit_not().wrapping_add(Self::one())
    }

    fn overflowing_add(self, rhs: Self) -> (r: (Self, bool)) {
        Wide::overflowing_add(self, rhs)
    }

    fn overflowing_sub(self, rhs: Self) -> (r: (Self, bool)) {
        Wide::overflowing_sub(self, rhs)
    }

    fn overflowing_mul(self, rhs: Self) -> (r: (Self, bool)) {
        Wide::overflowing_mul(self, rhs)
    }

    fn overflowing_div(self, rhs: Self) -> (r: (Self, bool)) {
        Wide::overflowing_div(self, rhs)
    }

    fn overflowing_rem(self, rhs: Self) -> (r: (Self, bool)) {
        Wide::overflowing_rem(self, rhs)
    }

    fn wrapping_add(self, rhs: Self) -> (r: Self) {
        Wide::wrapping_add(self, rhs)
    }

    fn wrapping_sub(self, rhs: Self) -> (r: Self) {
        Wide::wrapping_sub(self, rhs)
    }

    fn wrapping_mul(self, rhs: Self) -> (r: Self) {
        Wide::wrapping_mul(self, rhs)
    }

    fn wrapping_div(self, rhs: Self) -> (r: Self) {
        Wide::wrapping_div(self, rhs)
    }

    fn wrapping_rem(self, rhs: Self) -> (r: Self) {
        Wide::wrapping_rem(self, rhs)
    }

    fn wrapping_shl(self, rhs: u32) -> (r: Self) {
        Wide::wrapping_shl(self, rhs)
    }

    fn wrapping_shr(self, rhs: u32) -> (r: Self) {
        Wide::wrapping_shr(self, rhs)
    }

    fn wrapping_sra(self, rhs: u32) -> (r: Self) {
        Wide::wrapping_sra(self, rhs)
    }

    fn widening_mul(self, rhs: Self) -> (r: (Self, Self)) {
        Wide::widening_mul(self, rhs)
    }
}

impl Half for Wide<U128> {
    proof fn lemma_half_bits() {
        lemma_u128_bits();
    }
}

impl Half for Wide<Wide<U128>> {
    proof fn lemma_half_bits() {
        lemma_u128_bits();
        lemma_wide_bits::<Wide<U128>>();
    }
}

} // verus!
