//! Multiplication of wide integers.
use crate::element::{Element, Half};
use crate::halves::{
    lemma_digit_product, lemma_mul_digits, lemma_mul_overflow, lemma_schoolbook, lemma_two_digits,
};
use crate::modular::lemma_div_mod_unique;
use crate::wide::{lemma_wide_bits, Wide};
use vstd::arithmetic::div_mod::lemma_small_mod;
use vstd::arithmetic::power2::pow2;
use vstd::prelude::*;

verus! {

impl<H: Half> Wide<H> {
    /// Calculates the multiplication of self and rhs.
    ///
    /// Returns a tuple of the multiplication along with a boolean indicating whether an arithmetic
    /// overflow would occur. If an overflow would have occurred then the wrapped value is returned.
    pub fn overflowing_mul(self, rhs: Self) -> (r: (Self, bool))
        ensures
            r.0.value() == (self.value() * rhs.value()) % pow2(Self::BITS as nat),
            r.1 == (self.value() * rhs.value() >= pow2(Self::BITS as nat)),
    {
        let (hi, hi_overflow_mul) = if rhs.hi.equal(H::zero()) {
            self.hi.overflowing_mul(rhs.lo)
        } else if self.hi.equal(H::zero()) {
            rhs.hi.overflowing_mul(self.lo)
        } else {
            (self.hi.wrapping_mul(rhs.lo).wrapping_add(rhs.hi.wrapping_mul(self.lo)), true)
        };
        let (lo, carry) = self.lo.widening_mul(rhs.lo);
        let (hi, hi_overflow_add) = carry.overflowing_add(hi);
        proof {
            lemma_wide_bits::<H>();
            let b = pow2(H::BITS as nat);
            self.lo.lemma_value_bound();
            rhs.lo.lemma_value_bound();
            lo.lemma_value_bound();
            carry.lemma_value_bound();
            lemma_mul_digits(
                self.lo.value(),
                self.hi.value(),
                rhs.lo.value(),
                rhs.hi.value(),
                b,
                lo.value(),
                carry.value(),
            );
            lemma_mul_overflow(
                self.lo.value(),
                self.hi.value(),
                rhs.lo.value(),
                rhs.hi.value(),
                b,
                lo.value(),
                carry.value(),
            );
        }
        (Wide { lo, hi }, hi_overflow_mul || hi_overflow_add)
    }

    /// Wrapping (modular) multiplication. Computes self * rhs, wrapping around at the boundary of
    /// the type.
    pub fn wrapping_mul(self, rhs: Self) -> (r: Self)
        ensures
            r.value() == (self.value() * rhs.value()) % pow2(Self::BITS as nat),
    {
        let (lo, carry) = self.lo.widening_mul(rhs.lo);
        let hi = carry.wrapping_add(self.lo.wrapping_mul(rhs.hi)).wrapping_add(
            self.hi.wrapping_mul(rhs.lo),
        );
        proof {
            lemma_wide_bits::<H>();
            lo.lemma_value_bound();
            lemma_mul_digits(
                self.lo.value(),
                self.hi.value(),
                rhs.lo.value(),
                rhs.hi.value(),
                pow2(H::BITS as nat),
                lo.value(),
                carry.value(),
            );
        }
        Wide { lo, hi }
    }

    /// Calculates the complete product self * rhs without the possibility to overflow.
    ///
    /// This returns the low-order (wrapping) bits and the high-order (overflow) bits of the result
    /// as two separate values, in that order.
    pub fn widening_mul(self, rhs: Self) -> (r: (Self, Self))
        ensures
            r.0.value() + pow2(Self::BITS as nat) * r.1.value() == self.value() * rhs.value(),
    {
        let x0 = Self::from_half(self.lo);
        let x1 = Self::from_half(self.hi);
        let y0 = Self::from_half(rhs.lo);
        let y1 = Self::from_half(rhs.hi);
        proof {
            lemma_wide_bits::<H>();
            self.lo.lemma_value_bound();
            self.hi.lemma_value_bound();
            rhs.lo.lemma_value_bound();
            rhs.hi.lemma_value_bound();
        }
        let ghost b = pow2(H::BITS as nat);
        let ghost m = pow2(Self::BITS as nat);
        let w0 = x0.wrapping_mul(y0);
        proof {
            lemma_digit_product(x0.value(), y0.value(), b);
            lemma_small_mod(x0.value() * y0.value(), m);
            w0.lo.lemma_value_bound();
            w0.hi.lemma_value_bound();
            lemma_two_digits(w0.lo.value(), w0.hi.value(), b);
        }
        let x1y0 = x1.wrapping_mul(y0);
        let t = x1y0.wrapping_add(Self::from_half(w0.hi));
        proof {
            lemma_digit_product(x1.value(), y0.value(), b);
            lemma_small_mod(x1.value() * y0.value(), m);
            lemma_small_mod(x1y0.value() + w0.hi.value(), m);
            t.lo.lemma_value_bound();
            t.hi.lemma_value_bound();
            lemma_two_digits(t.lo.value(), t.hi.value(), b);
        }
        let x0y1 = x0.wrapping_mul(y1);
        let w1 = Self::from_half(t.lo).wrapping_add(x0y1);
        proof {
            lemma_digit_product(x0.value(), y1.value(), b);
            lemma_small_mod(x0.value() * y1.value(), m);
            lemma_small_mod(t.lo.value() + x0y1.value(), m);
            w1.lo.lemma_value_bound();
            w1.hi.lemma_value_bound();
            lemma_two_digits(w1.lo.value(), w1.hi.value(), b);
        }
        let x1y1 = x1.wrapping_mul(y1);
        let hi = x1y1.wrapping_add(Self::from_half(t.hi)).wrapping_add(Self::from_half(w1.hi));
        let lo = self.wrapping_mul(rhs);
        proof {
            lemma_digit_product(x1.value(), y1.value(), b);
            lemma_small_mod(x1.value() * y1.value(), m);
            lemma_schoolbook(
                x0.value(),
                x1.value(),
                y0.value(),
                y1.value(),
                b,
                w0.value(),
                t.value(),
                w1.value(),
                x1y1.value() + t.hi.value() + w1.hi.value(),
            );
            lemma_small_mod(x1y1.value() + t.hi.value(), m);
            lemma_small_mod(x1y1.value() + t.hi.value() + w1.hi.value(), m);
            let low = w0.lo.value() + b * w1.lo.value();
            assert(self.value() * rhs.value() == hi.value() * m + low) by (nonlinear_arith)
                requires
                    self.value() * rhs.value() == low + (b * b) * hi.value(),
                    m == b * b,
            ;
            lemma_div_mod_unique(
                (self.value() * rhs.value()) as int,
                m as int,
                hi.value() as int,
                low as int,
            );
            assert(m * hi.value() == hi.value() * m) by (nonlinear_arith);
        }
        (lo, hi)
    }
}

} // verus!
