//! 128-bit lanes, and the narrowest half of a wide integer.
use crate::bytes::{
    be_value, le_value, lemma_be_value_bound, lemma_be_value_front, lemma_le_value_bound,
    lemma_le_value_push,
};
use crate::element::{is_leading_zeros, sign_fill, to_signed, wrap, Element, Half};
use crate::halves::{lemma_digit_product, lemma_leading_zeros_join, lemma_schoolbook};
use crate::modular::{lemma_div_mod_unique, lemma_wrap_neg};
use crate::native::{
    lemma_bit_and, lemma_bit_or, lemma_bit_xor, lemma_pow2_128, lemma_sra_by_complement,
    lemma_sra_non_negative, lemma_u128_not, lemma_u128_shl, lemma_u128_shr, lemma_u64_leading_zeros,
};
use vstd::arithmetic::div_mod::lemma_small_mod;
use vstd::arithmetic::power2::{
    lemma2_to64, lemma2_to64_rest, lemma_pow2_adds, lemma_pow2_strictly_increases, pow2,
};
use vstd::prelude::*;
use vstd::prelude::*;
use vstd::std_specs::bits::u64_leading_zeros;

verus! {

/// A 128-bit lane value.
#[derive(Clone, Copy, Debug, Default, PartialEq, Eq, Ord, Structural)]
pub struct U128(pub u128);

impl U128 {
    /// Returns true if self is positive and false if the number is zero or negative.
    pub fn is_positive(self) -> (r: bool)
        ensures
            r == (to_signed(self.value(), 128) > 0),
    {
        proof {
            lemma_pow2_128();
        }
        self.0 != 0 && self.0 <= u128::MAX / 2
    }

    /// Returns true if self is negative and false if the number is zero or positive.
    pub fn is_negative(self) -> (r: bool)
        ensures
            r == (to_signed(self.value(), 128) < 0),
    {
        proof {
            lemma_pow2_128();
        }
        self.0 > u128::MAX / 2
    }

    /// Returns the lower 32 bits.
    pub fn u32(self) -> (r: u32)
        ensures
            r == self.value() % 0x1_0000_0000,
    {
        (self.0 % 0x1_0000_0000) as u32
    }

    /// Returns the lower 64 bits.
    pub fn u64(self) -> (r: u64)
        ensures
            r == self.value() % 0x1_0000_0000_0000_0000,
    {
        (self.0 % 0x1_0000_0000_0000_0000) as u64
    }

    /// Create a native endian integer value from its representation as a byte array in big endian.
    pub fn from_be_bytes(bytes: [u8; 16]) -> (r: Self)
        ensures
            r.value() == be_value(bytes@),
    {
        let mut acc: u128 = 0;
        let mut i: usize = 0;
        while i < 16
            invariant
                i <= 16,
                acc == be_value(bytes@.take(i as int)),
            decreases 16 - i,
        {
            proof {
                let next = bytes@.take(i + 1);
                assert(next.drop_last() =~= bytes@.take(i as int));
                lemma_be_value_bound(next);
                lemma_pow2_128();
                if i < 15 {
                    lemma_pow2_strictly_increases((8 * (i + 1)) as nat, 128);
                }
            }
            acc = acc * 256 + bytes[i] as u128;
            i += 1;
        }
        proof {
            assert(bytes@.take(16) =~= bytes@);
        }
        U128(acc)
    }

    /// Create a native endian integer value from its representation as a byte array in little
    /// endian.
    pub fn from_le_bytes(bytes: [u8; 16]) -> (r: Self)
        ensures
            r.value() == le_value(bytes@),
    {
        let mut acc: u128 = 0;
        let mut i: usize = 16;
        while i > 0
            invariant
                i <= 16,
                acc == le_value(bytes@.subrange(i as int, 16)),
            decreases i,
        {
            proof {
                let next = bytes@.subrange(i - 1, 16);
                assert(next.drop_first() =~= bytes@.subrange(i as int, 16));
                lemma_le_value_bound(next);
                lemma_pow2_128();
                if i > 1 {
                    lemma_pow2_strictly_increases((8 * (16 - (i - 1))) as nat, 128);
                }
            }
            i -= 1;
            acc = acc * 256 + bytes[i] as u128;
        }
        proof {
            assert(bytes@.subrange(0, 16) =~= bytes@);
        }
        U128(acc)
    }

    /// Return the memory representation of this integer as a byte array in big-endian (network)
    /// byte order.
    pub fn to_be_bytes(self) -> (r: [u8; 16])
        ensures
            be_value(r@) == self.value(),
    {
        let mut r = [0u8; 16];
        let mut rest: u128 = self.0;
        let mut i: usize = 16;
        proof {
            lemma2_to64();
            assert(rest * pow2(0) == rest) by (nonlinear_arith)
                requires
                    pow2(0) == 1,
            ;
        }
        while i > 0
            invariant
                i <= 16,
                self.0 == rest * pow2((8 * (16 - i)) as nat) + be_value(r@.subrange(i as int, 16)),
            decreases i,
        {
            let ghost before = r@.subrange(i as int, 16);
            i -= 1;
            let digit: u8 = (rest % 256) as u8;
            r[i] = digit;
            proof {
                assert(r@.subrange(i as int, 16) =~= seq![digit] + before);
                lemma_be_value_front(digit, before);
                lemma2_to64();
                lemma_pow2_adds(8, 8 * before.len());
                let shift = pow2(8 * before.len());
                assert(rest * shift == (rest / 256) * (256 * shift) + shift * digit)
                    by (nonlinear_arith)
                    requires
                        rest == 256 * (rest / 256) + digit,
                ;
            }
            rest = rest / 256;
        }
        proof {
            assert(r@.subrange(0, 16) =~= r@);
            lemma_pow2_128();
            if rest >= 1 {
                assert(rest * pow2(128) >= pow2(128)) by (nonlinear_arith)
                    requires
                        rest >= 1,
                ;
            } else {
                assert(rest * pow2(128) == 0) by (nonlinear_arith)
                    requires
                        rest == 0,
                ;
            }
        }
        r
    }

    /// Return the memory representation of this integer as a byte array in little-endian byte
    /// order.
    pub fn to_le_bytes(self) -> (r: [u8; 16])
        ensures
            le_value(r@) == self.value(),
    {
        let mut r = [0u8; 16];
        let mut rest: u128 = self.0;
        let mut i: usize = 0;
        proof {
            lemma2_to64();
            assert(pow2(0) * rest == rest) by (nonlinear_arith)
                requires
                    pow2(0) == 1,
            ;
        }
        while i < 16
            invariant
                i <= 16,
                self.0 == le_value(r@.take(i as int)) + pow2((8 * i) as nat) * rest,
            decreases 16 - i,
        {
            let ghost before = r@.take(i as int);
            let digit: u8 = (rest % 256) as u8;
            r[i] = digit;
            proof {
                assert(r@.take(i + 1) =~= before.push(digit));
                lemma_le_value_push(before, digit);
                lemma2_to64();
                lemma_pow2_adds(8 * before.len(), 8);
                let shift = pow2(8 * before.len());
                assert(shift * rest == shift * digit + (shift * 256) * (rest / 256))
                    by (nonlinear_arith)
                    requires
                        rest == 256 * (rest / 256) + digit,
                ;
            }
            rest = rest / 256;
            i += 1;
        }
        proof {
            assert(r@.take(16) =~= r@);
            lemma_pow2_128();
            if rest >= 1 {
                assert(pow2(128) * rest >= pow2(128)) by (nonlinear_arith)
                    requires
                        rest >= 1,
                ;
            } else {
                assert(pow2(128) * rest == 0) by (nonlinear_arith)
                    requires
                        rest == 0,
                ;
            }
        }
        r
    }

    /// Returns the number of leading zeros in the binary representation of self.
    pub fn leading_zeros(self) -> (r: u32)
        ensures
            is_leading_zeros(self.value(), 128, r as nat),
    {
        let hi: u64 = (self.0 / 0x1_0000_0000_0000_0000) as u64;
        let lo: u64 = (self.0 % 0x1_0000_0000_0000_0000) as u64;
        proof {
            lemma2_to64_rest();
            lemma_u64_leading_zeros(hi);
            lemma_u64_leading_zeros(lo);
            let r: nat = if hi == 0 {
                64 + u64_leading_zeros(lo) as nat
            } else {
                u64_leading_zeros(hi) as nat
            };
            lemma_leading_zeros_join(lo as nat, hi as nat, 64, r);
        }
        if hi == 0 {
            64 + lo.leading_zeros()
        } else {
            hi.leading_zeros()
        }
    }

    /// Calculates self + rhs
    ///
    /// Returns a tuple of the addition along with a boolean indicating whether an arithmetic
    /// overflow would occur. If an overflow would have occurred then the wrapped value is returned.
    pub fn overflowing_add(self, rhs: Self) -> (r: (Self, bool))
        ensures
            r.0.value() == (self.value() + rhs.value()) % pow2(128),
            r.1 == (self.value() + rhs.value() >= pow2(128)),
    {
        proof {
            lemma_pow2_128();
        }
        let sum: u128 = self.0.wrapping_add(rhs.0);
        (U128(sum), sum < self.0)
    }

    /// Calculates self - rhs
    ///
    /// Returns a tuple of the subtraction along with a boolean indicating whether an arithmetic
    /// overflow would occur. If an overflow would have occurred then the wrapped value is returned.
    pub fn overflowing_sub(self, rhs: Self) -> (r: (Self, bool))
        ensures
            r.0.value() == wrap(self.value() - rhs.value(), 128),
            r.1 == (self.value() < rhs.value()),
    {
        proof {
            lemma_pow2_128();
        }
        (U128(self.0.wrapping_sub(rhs.0)), self.0 < rhs.0)
    }

    /// Calculates the multiplication of self and rhs.
    ///
    /// Returns a tuple of the multiplication along with a boolean indicating whether an arithmetic
    /// overflow would occur. If an overflow would have occurred then the wrapped value is returned.
    pub fn overflowing_mul(self, rhs: Self) -> (r: (Self, bool))
        ensures
            r.0.value() == (self.value() * rhs.value()) % pow2(128),
            r.1 == (self.value() * rhs.value() >= pow2(128)),
    {
        let (lo, hi) = self.widening_mul(rhs);
        proof {
            lemma_pow2_128();
            let m: int = pow2(128) as int;
            assert(self.0 * rhs.0 == hi.0 * m + lo.0) by (nonlinear_arith)
                requires
                    lo.0 + m * hi.0 == self.0 * rhs.0,
            ;
            if hi.0 != 0 {
                assert(hi.0 * m >= m) by (nonlinear_arith)
                    requires
                        hi.0 >= 1,
                        m > 0,
                ;
            }
        }
        (lo, hi.0 != 0)
    }

    /// Calculates the quotient when self is divided by rhs.
    ///
    /// Returns a tuple of the quotient along with a boolean indicating whether an arithmetic
    /// overflow would occur. Note that for unsigned integers overflow never occurs, so the second
    /// value is always false.
    pub fn overflowing_div(self, rhs: Self) -> (r: (Self, bool))
        ensures
            r.0.value() == (if rhs.value() == 0 {
                pow2(128) - 1
            } else {
                self.value() as int / rhs.value() as int
            }),
            !r.1,
    {
        (self.wrapping_div(rhs), false)
    }

    /// Calculates the remainder when self is divided by rhs.
    ///
    /// Returns a tuple of the remainder along with a boolean indicating whether an arithmetic
    /// overflow would occur. Note that for unsigned integers overflow never occurs, so the second
    /// value is always false.
    pub fn overflowing_rem(self, rhs: Self) -> (r: (Self, bool))
        ensures
            r.0.value() == (if rhs.value() == 0 {
                self.value()
            } else {
                self.value() % rhs.value()
            }),
            !r.1,
    {
        (self.wrapping_rem(rhs), false)
    }

    /// Wrapping (modular) addition. Computes self + rhs, wrapping around at the boundary of the
    /// type.
    pub fn wrapping_add(self, rhs: Self) -> (r: Self)
        ensures
            r.value() == (self.value() + rhs.value()) % pow2(128),
    {
        proof {
            lemma_pow2_128();
        }
        U128(self.0.wrapping_add(rhs.0))
    }

    /// Wrapping (modular) subtraction. Computes self - rhs, wrapping around at the boundary of the
    /// type.
    pub fn wrapping_sub(self, rhs: Self) -> (r: Self)
        ensures
            r.value() == wrap(self.value() - rhs.value(), 128),
    {
        proof {
            lemma_pow2_128();
        }
        U128(self.0.wrapping_sub(rhs.0))
    }

    /// Wrapping (modular) multiplication. Computes self * rhs, wrapping around at the boundary of
    /// the type.
    pub fn wrapping_mul(self, rhs: Self) -> (r: Self)
        ensures
            r.value() == (self.value() * rhs.value()) % pow2(128),
    {
        proof {
            lemma_pow2_128();
            assert((self.0 as nat * rhs.0 as nat) % 0x1_0000_0000_0000_0000_0000_0000_0000_0000nat
                == (self.0 as nat * rhs.0 as nat) % pow2(128));
        }
        U128(self.0.wrapping_mul(rhs.0))
    }

    /// Division. Computes self / rhs; a zero divisor gives the all-ones value.
    pub fn wrapping_div(self, rhs: Self) -> (r: Self)
        ensures
            r.value() == (if rhs.value() == 0 {
                pow2(128) - 1
            } else {
                self.value() as int / rhs.value() as int
            }),
    {
        proof {
            lemma_pow2_128();
        }
        if rhs.0 == 0 {
            U128(u128::MAX)
        } else {
            U128(self.0 / rhs.0)
        }
    }

    /// Remainder. Computes self % rhs; a zero divisor gives self.
    pub fn wrapping_rem(self, rhs: Self) -> (r: Self)
        ensures
            r.value() == (if rhs.value() == 0 {
                self.value()
            } else {
                self.value() % rhs.value()
            }),
    {
        if rhs.0 == 0 {
            self
        } else {
            U128(self.0 % rhs.0)
        }
    }

    /// Panic-free bitwise shift-left; yields self << rhs, and zero once rhs reaches the bitwidth of
    /// the type.
    pub fn wrapping_shl(self, rhs: u32) -> (r: Self)
        ensures
            r.value() == (if rhs >= 128 {
                0
            } else {
                (self.value() * pow2(rhs as nat)) % pow2(128)
            }),
    {
        if rhs >= 128 {
            U128(0)
        } else {
            proof {
                lemma_pow2_128();
                lemma_u128_shl(self.0, rhs);
            }
            U128(self.0 << rhs)
        }
    }

    /// Panic-free bitwise shift-right; yields self >> rhs, and zero once rhs reaches the bitwidth
    /// of the type.
    pub fn wrapping_shr(self, rhs: u32) -> (r: Self)
        ensures
            r.value() == (if rhs >= 128 {
                0
            } else {
                self.value() / pow2(rhs as nat)
            }),
    {
        if rhs >= 128 {
            U128(0)
        } else {
            proof {
                lemma_u128_shr(self.0, rhs);
            }
            U128(self.0 >> rhs)
        }
    }

    /// Panic-free bitwise sign shift-right.
    pub fn wrapping_sra(self, rhs: u32) -> (r: Self)
        ensures
            to_signed(r.value(), 128) == to_signed(self.value(), 128) / (pow2(rhs as nat) as int),
            rhs >= 127 ==> r.value() == sign_fill(self.value(), 128),
    {
        proof {
            lemma_pow2_128();
            lemma_u128_not(self.0);
            lemma_u128_not((!self.0) >> rhs);
            if rhs < 128 {
                lemma_u128_shr(!self.0, rhs);
                lemma_u128_shr(self.0, rhs);
            }
            if self.0 > u128::MAX / 2 {
                lemma_sra_by_complement(self.0 as nat, 128, rhs as nat);
            } else {
                lemma_sra_non_negative(self.0 as nat, 128, rhs as nat);
            }
        }
        if self.0 > u128::MAX / 2 {
            if rhs >= 128 {
                U128(u128::MAX)
            } else {
                U128(!((!self.0) >> rhs))
            }
        } else {
            if rhs >= 128 {
                U128(0)
            } else {
                U128(self.0 >> rhs)
            }
        }
    }

    /// Returns the 256-bit product of self and rhs, with the product bits' lower half first and
    /// the upper half second.
    pub fn widening_mul(self, rhs: Self) -> (r: (Self, Self))
        ensures
            r.0.value() + pow2(128) * r.1.value() == self.value() * rhs.value(),
    {
        let x0: u128 = self.0 % 0x1_0000_0000_0000_0000;
        let x1: u128 = self.0 / 0x1_0000_0000_0000_0000;
        let y0: u128 = rhs.0 % 0x1_0000_0000_0000_0000;
        let y1: u128 = rhs.0 / 0x1_0000_0000_0000_0000;
        proof {
            lemma_pow2_128();
            let b: nat = 0x1_0000_0000_0000_0000;
            lemma_digit_product(x0 as nat, y0 as nat, b);
            lemma_digit_product(x1 as nat, y0 as nat, b);
            lemma_digit_product(x0 as nat, y1 as nat, b);
            let w0: nat = x0 as nat * y0 as nat;
            let t: nat = x1 as nat * y0 as nat + w0 / b;
            let w1: nat = t % b + x0 as nat * y1 as nat;
            let hi: nat = x1 as nat * y1 as nat + t / b + w1 / b;
            lemma_schoolbook(x0 as nat, x1 as nat, y0 as nat, y1 as nat, b, w0, t, w1, hi);
        }
        let w0: u128 = x0 * y0;
        let t: u128 = x1 * y0 + w0 / 0x1_0000_0000_0000_0000;
        let w1: u128 = t % 0x1_0000_0000_0000_0000 + x0 * y1;
        let hi: u128 = x1 * y1 + t / 0x1_0000_0000_0000_0000 + w1 / 0x1_0000_0000_0000_0000;
        let lo: u128 = self.0.wrapping_mul(rhs.0);
        proof {
            let b: nat = 0x1_0000_0000_0000_0000;
            let low: nat = (w0 as nat % b) + b * (w1 as nat % b);
            assert(self.0 as nat * rhs.0 as nat == hi as nat * pow2(128) + low) by (nonlinear_arith)
                requires
                    (x0 + b * x1) * (y0 + b * y1) == low + (b * b) * hi,
                    b * b == pow2(128),
                    self.0 == x0 + b * x1,
                    rhs.0 == y0 + b * y1,
            ;
            lemma_div_mod_unique(
                (self.0 as nat * rhs.0 as nat) as int,
                pow2(128) as int,
                hi as int,
                low as int,
            );
        }
        (U128(lo), U128(hi))
    }
}

/// The width of a `U128`, as a number.
pub proof fn lemma_u128_bits()
    ensures
        U128::BITS == 128,
{
}

impl Element for U128 {
    const BITS: u32 = 128;

    open spec fn value(self) -> nat {
        self.0 as nat
    }

    proof fn lemma_bits() {
    }

    proof fn lemma_value_bound(self) {
        lemma_pow2_128();
    }

    proof fn lemma_value_unique(self, other: Self) {
    }

    fn zero() -> (r: Self) {
        U128(0)
    }

    fn one() -> (r: Self) {
        U128(1)
    }

    fn min_value() -> (r: Self) {
        U128(0)
    }

    fn max_value() -> (r: Self) {
        proof {
            lemma_pow2_128();
        }
        U128(u128::MAX)
    }

    fn from_u128(x: u128) -> (r: Self) {
        proof {
            lemma_pow2_128();
            lemma_small_mod(x as nat, pow2(128));
        }
        U128(x)
    }

    fn from_i128(x: i128) -> (r: Self) {
        proof {
            lemma_pow2_128();
        }
        if x >= 0 {
            U128(x as u128)
        } else {
            U128(u128::MAX - ((-(x + 1)) as u128))
        }
    }

    fn vx(x: u64) -> (r: Self) {
        proof {
            lemma_pow2_128();
        }
        if x < 0x8000_0000_0000_0000 {
            U128(x as u128)
        } else {
            U128(u128::MAX - (u64::MAX - x) as u128)
        }
    }

    fn vi(i: i32) -> (r: Self) {
        proof {
            lemma_pow2_128();
        }
        if i >= 0 {
            U128(i as u128)
        } else {
            U128(u128::MAX - ((-(i + 1)) as u128))
        }
    }

    fn equal(self, rhs: Self) -> (r: bool) {
        self.0 == rhs.0
    }

    fn less_than(self, rhs: Self) -> (r: bool) {
        self.0 < rhs.0
    }

    fn is_positive(self) -> (r: bool) {
        U128::is_positive(self)
    }

    fn is_negative(self) -> (r: bool) {
        U128::is_negative(self)
    }

    fn u32(self) -> (r: u32) {
        U128::u32(self)
    }

    fn u64(self) -> (r: u64) {
        U128::u64(self)
    }

    fn leading_zeros(self) -> (r: u32) {
        U128::leading_zeros(self)
    }

    fn bit_and(self, rhs: Self) -> (r: Self) {
        proof {
            lemma_bit_and(self.0, rhs.0);
        }
        U128(self.0 & rhs.0)
    }

    fn bit_or(self, rhs: Self) -> (r: Self) {
        proof {
            lemma_bit_or(self.0, rhs.0);
        }
        U128(self.0 | rhs.0)
    }

    fn bit_xor(self, rhs: Self) -> (r: Self) {
        proof {
            lemma_bit_xor(self.0, rhs.0);
        }
        U128(self.0 ^ rhs.0)
    }

    fn bit_not(self) -> (r: Self) {
        proof {
            lemma_u128_not(self.0);
            lemma_pow2_128();
        }
        U128(!self.0)
    }

    fn wrapping_neg(self) -> (r: Self) {
        proof {
            lemma_u128_not(self.0);
            lemma_pow2_128();
            lemma_wrap_neg(self.0 as nat, pow2(128));
        }
        U128((!self.0).wrapping_add(1))
    }

    fn overflowing_add(self, rhs: Self) -> (r: (Self, bool)) {
        U128::overflowing_add(self, rhs)
    }

    fn overflowing_sub(self, rhs: Self) -> (r: (Self, bool)) {
        U128::overflowing_sub(self, rhs)
    }

    fn overflowing_mul(self, rhs: Self) -> (r: (Self, bool)) {
        U128::overflowing_mul(self, rhs)
    }

    fn overflowing_div(self, rhs: Self) -> (r: (Self, bool)) {
        U128::overflowing_div(self, rhs)
    }

    fn overflowing_rem(self, rhs: Self) -> (r: (Self, bool)) {
        U128::overflowing_rem(self, rhs)
    }

    fn wrapping_add(self, rhs: Self) -> (r: Self) {
        U128::wrapping_add(self, rhs)
    }

    fn wrapping_sub(self, rhs: Self) -> (r: Self) {
        U128::wrapping_sub(self, rhs)
    }

    fn wrapping_mul(self, rhs: Self) -> (r: Self) {
        U128::wrapping_mul(self, rhs)
    }

    fn wrapping_div(self, rhs: Self) -> (r: Self) {
        U128::wrapping_div(self, rhs)
    }

    fn wrapping_rem(self, rhs: Self) -> (r: Self) {
        U128::wrapping_rem(self, rhs)
    }

    fn wrapping_shl(self, rhs: u32) -> (r: Self) {
        U128::wrapping_shl(self, rhs)
    }

    fn wrapping_shr(self, rhs: u32) -> (r: Self) {
        U128::wrapping_shr(self, rhs)
    }

    fn wrapping_sra(self, rhs: u32) -> (r: Self) {
        U128::wrapping_sra(self, rhs)
    }

    fn widening_mul(self, rhs: Self) -> (r: (Self, Self)) {
        U128::widening_mul(self, rhs)
    }
}

impl Half for U128 {
    proof fn lemma_half_bits() {
    }
}

} // verus!
