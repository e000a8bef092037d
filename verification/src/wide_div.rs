//! Division of wide integers: long division by the digits of the halves.
use crate::element::{Element, Half};
use crate::halves::{lemma_base, lemma_leading_zeros_join, lemma_shl_split, lemma_two_digits};
use crate::long_division::{
    lemma_digit_rounds, lemma_estimate, lemma_half_below, lemma_leading_digit, lemma_normalize,
    lemma_shift_fits, lemma_split_digits, lemma_step_remainder, lemma_trial_accept,
    lemma_trial_correct, lemma_trial_fits, lemma_trial_start, lemma_two_steps, step_input, trial,
};
use crate::modular::{lemma_div_bounds, lemma_div_mod_unique, lemma_wrap_add, lemma_wrap_sub};
use crate::wide::{lemma_wide_bits, Wide};
use vstd::arithmetic::div_mod::{lemma_fundamental_div_mod, lemma_mod_bound, lemma_small_mod};
use vstd::arithmetic::power2::{lemma2_to64, lemma_pow2_strictly_increases, pow2};
use vstd::prelude::*;

verus! {

/// The base of the digits that a half is split into for long division:
/// `2` to half the width of `H`.
pub open spec fn digit_base<H: Half>() -> nat {
    pow2((H::BITS / 2) as nat)
}

/// The square of the digit base is the base of the halves.
proof fn lemma_digit_base<H: Half>()
    ensures
        digit_base::<H>() * digit_base::<H>() == pow2(H::BITS as nat),
        2 <= digit_base::<H>(),
        H::BITS / 2 + H::BITS / 2 == H::BITS,
        0 < H::BITS / 2 < H::BITS,
        digit_base::<H>() % 2 == 0,
{
    lemma_wide_bits::<H>();
    lemma_base((H::BITS / 2) as nat);
}

/// The low digit of `x`: what is left of it below the digit base.
fn low_digit<H: Half>(x: H) -> (r: H)
    ensures
        r.value() == x.value() % digit_base::<H>(),
{
    let half: u32 = H::BITS / 2;
    proof {
        lemma_digit_base::<H>();
        x.lemma_value_bound();
        lemma_shl_split(x.value(), H::BITS as nat, half as nat);
        let c = digit_base::<H>();
        assert((c * (x.value() % c)) / c == x.value() % c) by {
            assert(c * (x.value() % c) == (x.value() % c) * c + 0) by (nonlinear_arith);
            lemma_div_mod_unique((c * (x.value() % c)) as int, c as int, (x.value() % c) as int, 0);
        }
    }
    x.wrapping_shl(half).wrapping_shr(half)
}

/// One step of long division: the quotient digit and the remainder of
/// `u * c + next` by the normalized divisor `y`, whose digits are `y1` and
/// `y0`, where `c` is the digit base and `u` is below `y`.
///
/// The trial quotient `u / y1` is corrected downward until it is the
/// digit, which takes at most two corrections.
fn div_digit<H: Half>(u: H, next: H, y: H, y1: H, y0: H, twos: H) -> (r: (H, H))
    requires
        twos.value() == digit_base::<H>(),
        step_input(u.value(), next.value(), y.value(), y1.value(), y0.value(), digit_base::<H>()),
    ensures
        r.0.value() == (u.value() * digit_base::<H>() + next.value()) / y.value(),
        r.1.value() == (u.value() * digit_base::<H>() + next.value()) % y.value(),
        r.0.value() < digit_base::<H>(),
{
    let ghost c = digit_base::<H>();
    let ghost m = pow2(H::BITS as nat);
    let ghost goal = (u.value() * c + next.value()) / y.value();
    proof {
        lemma_digit_base::<H>();
        lemma_trial_start(u.value(), next.value(), y.value(), y1.value(), y0.value(), c);
    }
    let mut q = u.wrapping_div(y1);
    let mut rhat = u.wrapping_rem(y1);
    let ghost mut corrections: nat = 0;
    loop
        invariant_except_break
            trial(u.value(), next.value(), y.value(), y1.value(), c, q.value(), rhat.value()),
            rhat.value() < c,
        invariant
            q.value() + corrections == u.value() / y1.value(),
            q.value() >= goal,
            u.value() / y1.value() <= goal + 2,
            corrections <= 2,
            c == digit_base::<H>(),
            m == pow2(H::BITS as nat),
            c * c == m,
            twos.value() == c,
            step_input(u.value(), next.value(), y.value(), y1.value(), y0.value(), c),
            goal == (u.value() * c + next.value()) / y.value(),
            goal < c,
        ensures
            q.value() == goal,
        decreases q.value(),
    {
        proof {
            lemma_trial_fits(
                u.value(),
                next.value(),
                y.value(),
                y1.value(),
                y0.value(),
                c,
                q.value(),
                rhat.value(),
            );
            lemma_small_mod(q.value() * y0.value(), m);
            lemma_small_mod(c * rhat.value(), m);
            lemma_small_mod(c * rhat.value() + next.value(), m);
            lemma_small_mod(rhat.value() + y1.value(), m);
        }
        let against = q.wrapping_mul(y0);
        let room = twos.wrapping_mul(rhat).wrapping_add(next);
        if q.less_than(twos) && !room.less_than(against) {
            proof {
                lemma_trial_accept(
                    u.value(),
                    next.value(),
                    y.value(),
                    y1.value(),
                    y0.value(),
                    c,
                    q.value(),
                    rhat.value(),
                );
            }
            break ;
        }
        proof {
            lemma_trial_correct(
                u.value(),
                next.value(),
                y.value(),
                y1.value(),
                y0.value(),
                c,
                q.value(),
                rhat.value(),
            );
            q.lemma_value_bound();
            lemma_wrap_sub(q.value(), 1, m);
            corrections = corrections + 1;
        }
        q = q.wrapping_sub(H::one());
        rhat = rhat.wrapping_add(y1);
        if !rhat.less_than(twos) {
            break ;
        }
    }
    proof {
        lemma_step_remainder(u.value(), c, next.value(), q.value(), y.value(), m);
    }
    let rem = u.wrapping_mul(twos).wrapping_add(next).wrapping_sub(q.wrapping_mul(y));
    (q, rem)
}

impl<H: Half> Wide<H> {
    /// Returns the quotient and remainder of self divided by `y`, for a `y` above the high half of
    /// self, so that the quotient fits one half.
    pub fn div_half_0(self, y: H) -> (r: (H, H))
        requires
            self.hi.value() < y.value(),
        ensures
            r.0.value() == self.value() / y.value(),
            r.1.value() == self.value() % y.value(),
    {
        let ghost h = H::BITS as nat;
        let ghost b = pow2(h);
        let ghost c = digit_base::<H>();
        let half: u32 = H::BITS / 2;
        proof {
            lemma_digit_base::<H>();
            self.lo.lemma_value_bound();
            lemma_pow2_strictly_increases(half as nat, h);
            lemma_small_mod(c, b);
            assert(1 * c == c) by (nonlinear_arith);
        }
        let twos = H::one().wrapping_shl(half);
        let s: u32 = y.leading_zeros();
        let ghost scale = pow2(s as nat);
        proof {
            lemma_normalize(self.lo.value(), self.hi.value(), y.value(), h, s as nat);
            if s == 0 {
                lemma_div_bounds(self.lo.value() as int, b as int);
            }
        }
        let yn = y.wrapping_shl(s);
        let yn1 = yn.wrapping_shr(half);
        let yn0 = low_digit(yn);
        let un32 = self.hi.wrapping_shl(s).wrapping_add(self.lo.wrapping_shr(H::BITS - s));
        let un10 = self.lo.wrapping_shl(s);
        let un1 = un10.wrapping_shr(half);
        let un0 = low_digit(un10);
        proof {
            lemma_split_digits(yn.value(), c, b);
            lemma_split_digits(un10.value(), c, b);
            assert(yn.value() == yn1.value() * c + yn0.value()) by (nonlinear_arith)
                requires
                    yn.value() == c * yn1.value() + yn0.value(),
            ;
            lemma_leading_digit(yn.value(), c);
        }
        let (q1, un21) = div_digit(un32, un1, yn, yn1, yn0, twos);
        proof {
            lemma_mod_bound((un32.value() * c + un1.value()) as int, yn.value() as int);
        }
        let (q0, rem) = div_digit(un21, un0, yn, yn1, yn0, twos);
        proof {
            assert(self.value() * scale == (un32.value() * c + un1.value()) * c + un0.value())
                by (nonlinear_arith)
                requires
                    self.value() * scale == un10.value() + b * un32.value(),
                    un10.value() == c * un1.value() + un0.value(),
                    b == c * c,
            ;
            lemma_two_steps(
                self.value(),
                y.value(),
                scale,
                c,
                un32.value(),
                un1.value(),
                un0.value(),
                q1.value(),
                un21.value(),
                q0.value(),
                rem.value(),
            );
            assert(q1.value() * c + q0.value() < b) by (nonlinear_arith)
                requires
                    q1.value() + 1 <= c,
                    q0.value() < c,
                    b == c * c,
            ;
            lemma_small_mod(q1.value() * c, b);
            lemma_small_mod(q1.value() * c + q0.value(), b);
        }
        (q1.wrapping_mul(twos).wrapping_add(q0), rem.wrapping_shr(s))
    }

    /// Returns the quotient and remainder of self divided by a non-zero half `y`.
    pub fn div_half_1(self, y: H) -> (r: (Self, H))
        requires
            y.value() != 0,
        ensures
            r.0.value() == self.value() / y.value(),
            r.1.value() == self.value() % y.value(),
    {
        if self.hi.less_than(y) {
            let (lo, r) = self.div_half_0(y);
            (Self::from_half(lo), r)
        } else {
            let (hi, r) = Self::from_half(self.hi).div_half_0(y);
            let (lo, r) = (Wide { lo: self.lo, hi: r }).div_half_0(y);
            proof {
                lemma_digit_rounds(
                    self.lo.value(),
                    self.hi.value(),
                    y.value(),
                    pow2(H::BITS as nat),
                    hi.value(),
                    self.hi.value() % y.value(),
                    lo.value(),
                    r.value(),
                );
            }
            (Wide { lo, hi }, r)
        }
    }

    /// Returns the quotient and the remainder of self divided by a non-zero rhs: the two numbers
    /// with `quotient * rhs + remainder == self` and `remainder < rhs`.
    pub fn div_rem(self, rhs: Self) -> (r: (Self, Self))
        requires
            rhs.value() != 0,
        ensures
            r.0.value() == self.value() / rhs.value(),
            r.1.value() == self.value() % rhs.value(),
            r.0.value() * rhs.value() + r.1.value() == self.value(),
            r.1.value() < rhs.value(),
    {
        let ghost h = H::BITS as nat;
        let ghost b = pow2(h);
        let ghost m = pow2(Self::BITS as nat);
        let ghost x = self.value();
        let ghost y = rhs.value();
        proof {
            lemma_wide_bits::<H>();
            self.lemma_value_bound();
            rhs.lo.lemma_value_bound();
            rhs.hi.lemma_value_bound();
            lemma_fundamental_div_mod(x as int, y as int);
            assert((x / y) * y == y * (x / y)) by (nonlinear_arith);
            assert(b * 0 == 0) by (nonlinear_arith);
        }
        if rhs.hi.equal(H::zero()) {
            let (q, r) = self.div_half_1(rhs.lo);
            return (q, Self::from_half(r));
        }
        let n: u32 = rhs.hi.leading_zeros();
        let u1 = self.wrapping_shr(1);
        let v1 = rhs.wrapping_shl(n);
        proof {
            lemma_leading_zeros_join(rhs.lo.value(), rhs.hi.value(), h, n as nat);
            lemma_shift_fits(y, 2 * h, n as nat);
            lemma2_to64();
            v1.lo.lemma_value_bound();
            v1.hi.lemma_value_bound();
            lemma_two_digits(v1.lo.value(), v1.hi.value(), b);
            u1.lo.lemma_value_bound();
            u1.hi.lemma_value_bound();
            lemma_two_digits(u1.lo.value(), u1.hi.value(), b);
            lemma_estimate(
                x,
                y,
                h,
                n as nat,
                v1.hi.value(),
                ((x / 2) / v1.hi.value()) / pow2((h - 1 - n) as nat),
            );
            lemma_half_below(x, b, u1.hi.value());
        }
        let (tq, _) = u1.div_half_0(v1.hi);
        let mut tq = tq.wrapping_shr(H::BITS - 1 - n);
        if !tq.equal(H::zero()) {
            proof {
                tq.lemma_value_bound();
                lemma_wrap_sub(tq.value(), 1, b);
            }
            tq = tq.wrapping_sub(H::one());
        }
        let mut q = Self::from_half(tq);
        proof {
            assert(q.value() * y <= x) by (nonlinear_arith)
                requires
                    q.value() <= x / y,
                    (x / y) * y <= x,
            ;
            assert(y * q.value() == q.value() * y) by (nonlinear_arith);
            lemma_small_mod(y * q.value(), m);
            lemma_wrap_sub(x, y * q.value(), m);
        }
        let mut r = self.wrapping_sub(rhs.wrapping_mul(q));
        proof {
            if q.value() == x / y {
            } else {
                assert(r.value() == x % y + y) by (nonlinear_arith)
                    requires
                        r.value() == x - y * q.value(),
                        x == y * (x / y) + x % y,
                        q.value() + 1 == x / y,
                ;
            }
        }
        if !r.less_than(rhs) {
            proof {
                lemma_wrap_add(q.value(), 1, m);
                lemma_wrap_sub(r.value(), y, m);
            }
            q = q.wrapping_add(Self::one());
            r = r.wrapping_sub(rhs);
        }
        (q, r)
    }

    /// Division. Computes self / rhs; a zero divisor gives the all-ones value.
    pub fn wrapping_div(self, rhs: Self) -> (r: Self)
        ensures
            r.value() == (if rhs.value() == 0 {
                pow2(Self::BITS as nat) - 1
            } else {
                self.value() as int / rhs.value() as int
            }),
    {
        if rhs.equal(Self::min_value()) {
            Self::max_value()
        } else {
            self.div_rem(rhs).0
        }
    }

    /// Remainder. Computes self % rhs; a zero divisor gives self.
    pub fn wrapping_rem(self, rhs: Self) -> (r: Self)
        ensures
            r.value() == (if rhs.value() == 0 {
                self.value()
            } else {
                self.value() % rhs.value()
            }),
    {
        if rhs.equal(Self::min_value()) {
            self
        } else {
            self.div_rem(rhs).1
        }
    }

    /// Calculates the quotient when self is divided by rhs.
    ///
    /// Returns a tuple of the quotient along with a boolean indicating whether an arithmetic
    /// overflow would occur. Note that for unsigned integers overflow never occurs, so the second
    /// value is always false.
    pub fn overflowing_div(self, rhs: Self) -> (r: (Self, bool))
        ensures
            r.0.value() == (if rhs.value() == 0 {
                pow2(Self::BITS as nat) - 1
            } else {
                self.value() as int / rhs.value() as int
            }),
            !r.1,
    {
        (self.wrapping_div(rhs), false)
    }

    /// Calculates the remainder when self is divided by rhs.
    ///
    /// Returns a tuple of the remainder along with a boolean indicating whether an arithmetic
    /// overflow would occur. Note that for unsigned integers overflow never occurs, so the second
    /// value is always false.
    pub fn overflowing_rem(self, rhs: Self) -> (r: (Self, bool))
        ensures
            r.0.value() == (if rhs.value() == 0 {
                self.value()
            } else {
                self.value() % rhs.value()
            }),
            !r.1,
    {
        (self.wrapping_rem(rhs), false)
    }
}

} // verus!
