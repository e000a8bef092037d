//! Signed integers: an unsigned element read in two's complement.
use crate::element::{signed, wrap, Element};
use crate::modular::{lemma_div_bounds, lemma_wrap_neg};
use crate::wide::{U1024, U256, U512};
use vstd::arithmetic::div_mod::{lemma_fundamental_div_mod, lemma_small_mod};
use vstd::arithmetic::power2::{lemma2_to64, lemma_pow2_adds, pow2};
use vstd::prelude::*;
use vstd::std_specs::convert::FromSpecImpl;

verus! {

/// A signed integer with the bit pattern `uint`.
#[derive(Copy, Debug, Default, PartialEq, Eq, Structural)]
pub struct Signed<U> {
    pub uint: U,
}

pub type I256 = Signed<U256>;

pub type I512 = Signed<U512>;

pub type I1024 = Signed<U1024>;

impl<U: Copy> Clone for Signed<U> {
    fn clone(&self) -> (r: Self)
        ensures
            r == *self,
    {
        *self
    }
}

impl<U: Element> From<U> for Signed<U> {
    fn from(uint: U) -> (r: Self) {
        Signed { uint }
    }
}

impl<U: Element> FromSpecImpl<U> for Signed<U> {
    open spec fn obeys_from_spec() -> bool {
        true
    }

    open spec fn from_spec(uint: U) -> Self {
        Signed { uint }
    }
}

/// The absolute value of an integer.
pub open spec fn magnitude(x: int) -> nat {
    if x < 0 {
        (-x) as nat
    } else {
        x as nat
    }
}

/// The quotient of `x` by a non-zero `y`, rounded toward zero: the
/// quotient of the magnitudes, negative when the signs differ.
pub open spec fn truncated_quotient(x: int, y: int) -> int {
    if (x < 0) != (y < 0) {
        -((magnitude(x) / magnitude(y)) as int)
    } else {
        (magnitude(x) / magnitude(y)) as int
    }
}

/// The remainder that goes with the quotient rounded toward zero: the
/// remainder of the magnitudes, with the sign of the dividend.
pub open spec fn truncated_remainder(x: int, y: int) -> int {
    if x < 0 {
        -((magnitude(x) % magnitude(y)) as int)
    } else {
        (magnitude(x) % magnitude(y)) as int
    }
}

/// The quotient rounded toward zero and its remainder recompose the
/// dividend, and the remainder is smaller in magnitude than the divisor.
pub proof fn lemma_truncated_division(x: int, y: int)
    requires
        y != 0,
    ensures
        truncated_quotient(x, y) * y + truncated_remainder(x, y) == x,
        magnitude(truncated_remainder(x, y)) < magnitude(y),
{
    let a = magnitude(x);
    let b = magnitude(y);
    lemma_fundamental_div_mod(a as int, b as int);
    let q = (a / b) as int;
    assert(q * b == b * q) by (nonlinear_arith);
    assert((-q) * b == -(q * b)) by (nonlinear_arith);
    assert(q * (-b) == -(q * b)) by (nonlinear_arith);
    assert((-q) * (-b) == q * b) by (nonlinear_arith);
}

impl<U: Element> Signed<U> {
    /// The integer that the bit pattern stands for in two's complement.
    pub open spec fn value(self) -> int {
        signed(self.uint)
    }

    /// The magnitude of the value, as an unsigned number, and whether the value is negative.
    fn sign_magnitude(self) -> (r: (U, bool))
        ensures
            r.0.value() == magnitude(self.value()),
            r.1 == (self.value() < 0),
            2 * r.0.value() <= pow2(U::BITS as nat),
    {
        proof {
            self.uint.lemma_value_bound();
            lemma_wrap_neg(self.uint.value(), pow2(U::BITS as nat));
        }
        let negative = self.uint.is_negative();
        if negative {
            (self.uint.wrapping_neg(), true)
        } else {
            (self.uint, false)
        }
    }

    /// `magnitude` with the sign `negative`, as a bit pattern.
    fn with_sign(magnitude: U, negative: bool) -> (r: Self)
        ensures
            r.uint.value() == wrap(
                if negative {
                    -(magnitude.value() as int)
                } else {
                    magnitude.value() as int
                },
                U::BITS as nat,
            ),
    {
        proof {
            magnitude.lemma_value_bound();
            lemma_small_mod(magnitude.value(), pow2(U::BITS as nat));
        }
        if negative {
            Signed { uint: magnitude.wrapping_neg() }
        } else {
            Signed { uint: magnitude }
        }
    }

    /// Whether the two values are the same.
    pub fn equal(self, rhs: Self) -> (r: bool)
        ensures
            r == (self.value() == rhs.value()),
    {
        proof {
            self.uint.lemma_value_bound();
            rhs.uint.lemma_value_bound();
        }
        self.uint.equal(rhs.uint)
    }

    /// Signed `<`: by the signs first, then by the bit patterns.
    pub fn less_than(self, rhs: Self) -> (r: bool)
        ensures
            r == (self.value() < rhs.value()),
    {
        proof {
            self.uint.lemma_value_bound();
            rhs.uint.lemma_value_bound();
        }
        let lhs_sign = self.uint.is_negative();
        let rhs_sign = rhs.uint.is_negative();
        if lhs_sign == rhs_sign {
            self.uint.less_than(rhs.uint)
        } else {
            lhs_sign
        }
    }

    /// Wrapping (modular) division. Computes self / rhs, rounding toward zero and wrapping around
    /// at the boundary of the type.
    ///
    /// A zero divisor gives -1. The only case where wrapping can occur is MIN / -1, the positive
    /// value that is too large to represent in the type; the result is then MIN itself.
    pub fn wrapping_div(self, rhs: Self) -> (r: Self)
        ensures
            rhs.value() == 0 ==> r.value() == -1,
            rhs.value() != 0 ==> r.uint.value() == wrap(
                truncated_quotient(self.value(), rhs.value()),
                U::BITS as nat,
            ),
            2 * self.value() == -pow2(U::BITS as nat) && rhs.value() == -1 ==> r.value()
                == self.value(),
    {
        let ghost bits = U::BITS as nat;
        let ghost m = pow2(bits);
        proof {
            U::lemma_bits();
            lemma_pow2_adds((bits - 1) as nat, 1);
            lemma2_to64();
            rhs.uint.lemma_value_bound();
        }
        let minus_min = U::one().wrapping_shl(U::BITS - 1);
        let minus_one = U::max_value();
        proof {
            assert(1 * pow2((bits - 1) as nat) == pow2((bits - 1) as nat)) by (nonlinear_arith);
            lemma_small_mod(pow2((bits - 1) as nat), m);
        }
        if rhs.uint.equal(U::min_value()) {
            Signed { uint: U::max_value() }
        } else if self.uint.equal(minus_min) && rhs.uint.equal(minus_one) {
            proof {
                lemma_div_bounds(pow2((bits - 1) as nat) as int, 1);
            }
            Signed { uint: minus_min }
        } else {
            let (x_abs, x_is_neg) = self.sign_magnitude();
            let (y_abs, y_is_neg) = rhs.sign_magnitude();
            let quo = x_abs.wrapping_div(y_abs);
            Self::with_sign(quo, x_is_neg != y_is_neg)
        }
    }

    /// Wrapping (modular) remainder. Computes self % rhs, with the sign of self.
    ///
    /// A zero divisor gives self, and MIN % -1 is 0.
    pub fn wrapping_rem(self, rhs: Self) -> (r: Self)
        ensures
            rhs.value() == 0 ==> r == self,
            rhs.value() != 0 ==> r.uint.value() == wrap(
                truncated_remainder(self.value(), rhs.value()),
                U::BITS as nat,
            ),
            2 * self.value() == -pow2(U::BITS as nat) && rhs.value() == -1 ==> r.value() == 0,
    {
        let ghost bits = U::BITS as nat;
        let ghost m = pow2(bits);
        proof {
            U::lemma_bits();
            rhs.uint.lemma_value_bound();
        }
        let minus_min = U::one().wrapping_shl(U::BITS - 1);
        let minus_one = U::max_value();
        proof {
            assert(1 * pow2((bits - 1) as nat) == pow2((bits - 1) as nat)) by (nonlinear_arith);
        }
        if rhs.uint.equal(U::min_value()) {
            self
        } else if self.uint.equal(minus_min) && rhs.uint.equal(minus_one) {
            proof {
                lemma_small_mod(0, m);
                lemma_fundamental_div_mod(pow2((bits - 1) as nat) as int, 1);
            }
            Signed { uint: U::min_value() }
        } else {
            let (x_abs, x_is_neg) = self.sign_magnitude();
            let (y_abs, _) = rhs.sign_magnitude();
            let rem = x_abs.wrapping_rem(y_abs);
            let r = Self::with_sign(rem, x_is_neg);
            proof {
                if self.value() == -(pow2((bits - 1) as nat) as int) && rhs.value() == -1 {
                    lemma_fundamental_div_mod(pow2((bits - 1) as nat) as int, 1);
                }
            }
            r
        }
    }

    /// Panic-free bitwise shift-left; yields self << rhs, and zero once rhs reaches the bitwidth of
    /// the type.
    pub fn wrapping_shl(self, rhs: u32) -> (r: Self)
        ensures
            r.uint.value() == (if rhs >= U::BITS {
                0
            } else {
                (self.uint.value() * pow2(rhs as nat)) % pow2(U::BITS as nat)
            }),
    {
        Signed { uint: self.uint.wrapping_shl(rhs) }
    }

    /// Panic-free bitwise sign shift-right: the value divided by `2^rhs`, rounded down.
    pub fn wrapping_shr(self, rhs: u32) -> (r: Self)
        ensures
            r.value() == self.value() / (pow2(rhs as nat) as int),
    {
        Signed { uint: self.uint.wrapping_sra(rhs) }
    }
}

} // verus!
