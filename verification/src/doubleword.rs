//! 64-bit lanes.
use crate::element::Element;
use crate::modular::{lemma_wrap_add, lemma_wrap_neg, lemma_wrap_sub};
use crate::native::{
    lemma_bit_and, lemma_bit_or, lemma_bit_xor, lemma_sra_by_complement, lemma_sra_non_negative,
    lemma_u64_leading_zeros, lemma_u64_not, lemma_u64_shl,
};
use vstd::arithmetic::power2::{lemma2_to64_rest, pow2};
use vstd::bits::lemma_u64_shr_is_div;
use vstd::prelude::*;

verus! {

/// A 64-bit lane value.
#[derive(Clone, Copy, Debug, Default, PartialEq, Eq, Ord, Structural)]
pub struct U64(pub u64);

/// The width of a `U64`, as a number.
pub proof fn lemma_u64_bits()
    ensures
        U64::BITS == 64,
{
}

impl Element for U64 {
    const BITS: u32 = 64;

    open spec fn value(self) -> nat {
        self.0 as nat
    }

    proof fn lemma_bits() {
    }

    proof fn lemma_value_bound(self) {
        lemma2_to64_rest();
    }

    proof fn lemma_value_unique(self, other: Self) {
    }

    fn zero() -> (r: Self) {
        U64(0)
    }

    fn one() -> (r: Self) {
        U64(1)
    }

    fn min_value() -> (r: Self) {
        U64(0)
    }

    fn max_value() -> (r: Self) {
        proof {
            lemma2_to64_rest();
        }
        U64(u64::MAX)
    }

    fn from_u128(x: u128) -> (r: Self) {
        proof {
            lemma2_to64_rest();
        }
        U64((x % 0x1_0000_0000_0000_0000) as u64)
    }

    fn from_i128(x: i128) -> (r: Self) {
        proof {
            lemma2_to64_rest();
        }
        if x >= 0 {
            U64((x as u128 % 0x1_0000_0000_0000_0000) as u64)
        } else {
            let below: u128 = (-(x + 1)) as u128;
            U64(u64::MAX - (below % 0x1_0000_0000_0000_0000) as u64)
        }
    }

    fn vx(x: u64) -> (r: Self) {
        proof {
            lemma2_to64_rest();
        }
        U64(x)
    }

    fn vi(i: i32) -> (r: Self) {
        proof {
            lemma2_to64_rest();
        }
        if i >= 0 {
            U64(i as u64)
        } else {
            U64(u64::MAX - ((-(i + 1)) as u64))
        }
    }

    fn equal(self, rhs: Self) -> (r: bool) {
        self.0 == rhs.0
    }

    fn less_than(self, rhs: Self) -> (r: bool) {
        self.0 < rhs.0
    }

    fn is_positive(self) -> (r: bool) {
        proof {
            lemma2_to64_rest();
        }
        self.0 != 0 && self.0 <= u64::MAX / 2
    }

    fn is_negative(self) -> (r: bool) {
        proof {
            lemma2_to64_rest();
        }
        self.0 > u64::MAX / 2
    }

    fn u32(self) -> (r: u32) {
        (self.0 % 0x1_0000_0000) as u32
    }

    fn u64(self) -> (r: u64) {
        self.0
    }

    fn leading_zeros(self) -> (r: u32) {
        proof {
            lemma_u64_leading_zeros(self.0);
        }
        self.0.leading_zeros()
    }

    fn bit_and(self, rhs: Self) -> (r: Self) {
        proof {
            let a: u64 = self.0;
            let b: u64 = rhs.0;
            assert((a & b) as u128 == (a as u128) & (b as u128)) by (bit_vector);
            lemma_bit_and(a as u128, b as u128);
        }
        U64(self.0 & rhs.0)
    }

    fn bit_or(self, rhs: Self) -> (r: Self) {
        proof {
            let a: u64 = self.0;
            let b: u64 = rhs.0;
            assert((a | b) as u128 == (a as u128) | (b as u128)) by (bit_vector);
            lemma_bit_or(a as u128, b as u128);
        }
        U64(self.0 | rhs.0)
    }

    fn bit_xor(self, rhs: Self) -> (r: Self) {
        proof {
            let a: u64 = self.0;
            let b: u64 = rhs.0;
            assert((a ^ b) as u128 == (a as u128) ^ (b as u128)) by (bit_vector);
            lemma_bit_xor(a as u128, b as u128);
        }
        U64(self.0 ^ rhs.0)
    }

    fn bit_not(self) -> (r: Self) {
        proof {
            lemma_u64_not(self.0);
            lemma2_to64_rest();
        }
        U64(!self.0)
    }

    fn wrapping_neg(self) -> (r: Self) {
        proof {
            lemma_u64_not(self.0);
            lemma2_to64_rest();
            lemma_wrap_neg(self.0 as nat, pow2(64));
        }
        U64((!self.0).wrapping_add(1))
    }

    fn overflowing_add(self, rhs: Self) -> (r: (Self, bool)) {
        proof {
            lemma2_to64_rest();
        }
        let sum: u64 = self.0.wrapping_add(rhs.0);
        (U64(sum), sum < self.0)
    }

    fn overflowing_sub(self, rhs: Self) -> (r: (Self, bool)) {
        proof {
            lemma2_to64_rest();
        }
        (U64(self.0.wrapping_sub(rhs.0)), self.0 < rhs.0)
    }

    fn overflowing_mul(self, rhs: Self) -> (r: (Self, bool)) {
        proof {
            lemma2_to64_rest();
        }
        let (lo, hi) = self.widening_mul(rhs);
        proof {
            let m: int = pow2(64) as int;
            assert(self.0 * rhs.0 == hi.0 * m + lo.0) by (nonlinear_arith)
                requires
                    lo.0 + m * hi.0 == self.0 * rhs.0,
            ;
            if hi.0 != 0 {
                assert(hi.0 * m >= m) by (nonlinear_arith)
                    requires
                        hi.0 >= 1,
                        m > 0,
                ;
            }
        }
        (lo, hi.0 != 0)
    }

    fn overflowing_div(self, rhs: Self) -> (r: (Self, bool)) {
        (self.wrapping_div(rhs), false)
    }

    fn overflowing_rem(self, rhs: Self) -> (r: (Self, bool)) {
        (self.wrapping_rem(rhs), false)
    }

    fn wrapping_add(self, rhs: Self) -> (r: Self) {
        proof {
            lemma2_to64_rest();
            lemma_wrap_add(self.0 as nat, rhs.0 as nat, pow2(64));
        }
        U64(self.0.wrapping_add(rhs.0))
    }

    fn wrapping_sub(self, rhs: Self) -> (r: Self) {
        proof {
            lemma2_to64_rest();
            lemma_wrap_sub(self.0 as nat, rhs.0 as nat, pow2(64));
        }
        U64(self.0.wrapping_sub(rhs.0))
    }

    fn wrapping_mul(self, rhs: Self) -> (r: Self) {
        proof {
            lemma2_to64_rest();
            assert((self.0 as nat * rhs.0 as nat) % 0x1_0000_0000_0000_0000 == (self.0 as nat
                * rhs.0 as nat) % pow2(64));
        }
        U64(self.0.wrapping_mul(rhs.0))
    }

    fn wrapping_div(self, rhs: Self) -> (r: Self) {
        proof {
            lemma2_to64_rest();
        }
        if rhs.0 == 0 {
            U64(u64::MAX)
        } else {
            U64(self.0 / rhs.0)
        }
    }

    fn wrapping_rem(self, rhs: Self) -> (r: Self) {
        if rhs.0 == 0 {
            self
        } else {
            U64(self.0 % rhs.0)
        }
    }

    fn wrapping_shl(self, rhs: u32) -> (r: Self) {
        if rhs >= 64 {
            U64(0)
        } else {
            proof {
                lemma_u64_shl(self.0, rhs);
            }
            U64(self.0 << rhs)
        }
    }

    fn wrapping_shr(self, rhs: u32) -> (r: Self) {
        if rhs >= 64 {
            U64(0)
        } else {
            proof {
                lemma_u64_shr_is_div(self.0, rhs as u64);
            }
            U64(self.0 >> rhs)
        }
    }

    fn wrapping_sra(self, rhs: u32) -> (r: Self) {
        proof {
            lemma2_to64_rest();
            lemma_u64_not(self.0);
            lemma_u64_not((!self.0) >> rhs);
            if rhs < 64 {
                lemma_u64_shr_is_div(!self.0, rhs as u64);
                lemma_u64_shr_is_div(self.0, rhs as u64);
            }
            if self.0 > u64::MAX / 2 {
                lemma_sra_by_complement(self.0 as nat, 64, rhs as nat);
            } else {
                lemma_sra_non_negative(self.0 as nat, 64, rhs as nat);
            }
        }
        if self.0 > u64::MAX / 2 {
            if rhs >= 64 {
                U64(u64::MAX)
            } else {
                U64(!((!self.0) >> rhs))
            }
        } else {
            if rhs >= 64 {
                U64(0)
            } else {
                U64(self.0 >> rhs)
            }
        }
    }

    fn widening_mul(self, rhs: Self) -> (r: (Self, Self)) {
        proof {
            lemma2_to64_rest();
            assert(self.0 * rhs.0 <= 0xffff_ffff_ffff_ffff * 0xffff_ffff_ffff_ffff)
                by (nonlinear_arith)
                requires
                    self.0 <= 0xffff_ffff_ffff_ffff,
                    rhs.0 <= 0xffff_ffff_ffff_ffff,
            ;
        }
        let product: u128 = (self.0 as u128) * (rhs.0 as u128);
        (
            U64((product % 0x1_0000_0000_0000_0000) as u64),
            U64((product / 0x1_0000_0000_0000_0000) as u64),
        )
    }
}

} // verus!
