//! Shifts of wide integers.
use crate::element::{sign_fill, to_signed, Element, Half};
use crate::halves::{
    lemma_base, lemma_floor_negative, lemma_shl_digits, lemma_shl_digits_far, lemma_shr_digits_far,
    lemma_shr_low_digit, lemma_signed_digits,
};
use crate::modular::{lemma_div_bounds, lemma_div_mod_unique};
use crate::wide::{lemma_wide_bits, Wide};
use vstd::arithmetic::power2::{lemma_pow2_pos, lemma_pow2_strictly_increases, pow2};
use vstd::prelude::*;

verus! {

impl<H: Half> Wide<H> {
    /// Panic-free bitwise shift-left; yields self << rhs, and zero once rhs reaches the bitwidth of
    /// the type.
    pub fn wrapping_shl(self, rhs: u32) -> (r: Self)
        ensures
            r.value() == (if rhs >= Self::BITS {
                0
            } else {
                (self.value() * pow2(rhs as nat)) % pow2(Self::BITS as nat)
            }),
    {
        proof {
            lemma_wide_bits::<H>();
            self.lo.lemma_value_bound();
            assert(pow2(H::BITS as nat) * 0 == 0) by (nonlinear_arith);
        }
        if rhs < H::BITS {
            let lo = self.lo.wrapping_shl(rhs);
            let hi = self.hi.wrapping_shl(rhs).wrapping_add(self.lo.wrapping_shr(H::BITS - rhs));
            proof {
                lemma_shl_digits(self.lo.value(), self.hi.value(), H::BITS as nat, rhs as nat);
                if rhs == 0 {
                    lemma_div_bounds(self.lo.value() as int, pow2(H::BITS as nat) as int);
                }
            }
            Wide { lo, hi }
        } else if rhs < Self::BITS {
            proof {
                lemma_shl_digits_far(self.lo.value(), self.hi.value(), H::BITS as nat, rhs as nat);
            }
            Wide { lo: H::zero(), hi: self.lo.wrapping_shl(rhs - H::BITS) }
        } else {
            Self::zero()
        }
    }

    /// Panic-free bitwise shift-right; yields self >> rhs, and zero once rhs reaches the bitwidth
    /// of the type.
    pub fn wrapping_shr(self, rhs: u32) -> (r: Self)
        ensures
            r.value() == (if rhs >= Self::BITS {
                0
            } else {
                self.value() / pow2(rhs as nat)
            }),
    {
        proof {
            lemma_wide_bits::<H>();
            self.lo.lemma_value_bound();
            self.hi.lemma_value_bound();
            assert(pow2(H::BITS as nat) * 0 == 0) by (nonlinear_arith);
        }
        if rhs < H::BITS {
            let lo = self.lo.wrapping_shr(rhs).wrapping_add(self.hi.wrapping_shl(H::BITS - rhs));
            let hi = self.hi.wrapping_shr(rhs);
            proof {
                lemma_shr_low_digit(
                    self.lo.value(),
                    self.hi.value(),
                    self.hi.value() as int,
                    H::BITS as nat,
                    rhs as nat,
                );
            }
            Wide { lo, hi }
        } else if rhs < Self::BITS {
            proof {
                lemma_shr_digits_far(
                    self.lo.value(),
                    self.hi.value() as int,
                    H::BITS as nat,
                    rhs as nat,
                );
            }
            Wide { lo: self.hi.wrapping_shr(rhs - H::BITS), hi: H::zero() }
        } else {
            Self::zero()
        }
    }

    /// Panic-free bitwise sign shift-right.
    pub fn wrapping_sra(self, rhs: u32) -> (r: Self)
        ensures
            to_signed(r.value(), Self::BITS as nat) == to_signed(self.value(), Self::BITS as nat)
                / (pow2(rhs as nat) as int),
            rhs >= Self::BITS - 1 ==> r.value() == sign_fill(self.value(), Self::BITS as nat),
    {
        let ghost h = H::BITS as nat;
        let ghost b = pow2(h);
        let ghost a0 = self.lo.value();
        let ghost a1 = self.hi.value();
        let ghost s1 = to_signed(a1, h);
        proof {
            lemma_wide_bits::<H>();
            self.lo.lemma_value_bound();
            self.hi.lemma_value_bound();
            self.lemma_value_bound();
            lemma_signed_digits(a0, a1, h);
            lemma_pow2_pos(rhs as nat);
        }
        if self.is_negative() {
            if rhs < H::BITS {
                let lo = self.lo.wrapping_shr(rhs).wrapping_add(
                    self.hi.wrapping_shl(H::BITS - rhs),
                );
                let hi = self.hi.wrapping_sra(rhs);
                proof {
                    lemma_shr_low_digit(a0, a1, s1, h, rhs as nat);
                    hi.lemma_value_bound();
                    lemma_signed_digits(lo.value(), hi.value(), h);
                }
                Wide { lo, hi }
            } else if rhs < Self::BITS {
                let lo = self.hi.wrapping_sra(rhs - H::BITS);
                let hi = H::max_value();
                proof {
                    lemma_shr_digits_far(a0, s1, h, rhs as nat);
                    lo.lemma_value_bound();
                    lemma_signed_digits(lo.value(), hi.value(), h);
                    lemma_pow2_pos((rhs - H::BITS) as nat);
                    lemma_floor_negative(s1, pow2((rhs - H::BITS) as nat) as int);
                    assert(b * (-1) == -b) by (nonlinear_arith);
                }
                Wide { lo, hi }
            } else {
                proof {
                    lemma_pow2_strictly_increases((2 * h - 1) as nat, rhs as nat);
                    lemma_base(2 * h);
                    lemma_div_mod_unique(
                        to_signed(self.value(), 2 * h),
                        pow2(rhs as nat) as int,
                        -1,
                        to_signed(self.value(), 2 * h) + pow2(rhs as nat),
                    );
                }
                Self::max_value()
            }
        } else {
            proof {
                lemma_div_bounds(self.value() as int, pow2(rhs as nat) as int);
                lemma_base(2 * h);
                if rhs >= Self::BITS - 1 {
                    if rhs > Self::BITS - 1 {
                        lemma_pow2_strictly_increases((2 * h - 1) as nat, rhs as nat);
                    }
                }
            }
            self.wrapping_shr(rhs)
        }
    }
}

} // verus!
