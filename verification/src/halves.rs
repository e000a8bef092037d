//! Numbers written as two digits, `lo + b * hi`, with both digits below
//! the base `b`: how the operations on the whole number read on the
//! digits.
use crate::element::{bit, is_leading_zeros, to_signed, Element};
use crate::modular::{
    lemma_div_bounds, lemma_div_mod_unique, lemma_mod_congruent, lemma_wrap_add, lemma_wrap_sub,
};
use vstd::arithmetic::div_mod::{
    lemma_add_mod_noop, lemma_add_mod_noop_right, lemma_fundamental_div_mod, lemma_mod_bound,
    lemma_small_mod, lemma_sub_mod_noop,
};
use vstd::arithmetic::power2::{
    lemma2_to64, lemma_pow2_adds, lemma_pow2_pos, lemma_pow2_strictly_increases, pow2,
};
use vstd::prelude::*;
use vstd::prelude::*;

verus! {

/// The square of the base `2^h` is `2^(2h)`, and the base is at least 2.
pub proof fn lemma_base(h: nat)
    requires
        0 < h,
    ensures
        pow2(2 * h) == pow2(h) * pow2(h),
        2 * pow2((h - 1) as nat) == pow2(h),
        2 <= pow2(h),
{
    lemma_pow2_adds(h, h);
    lemma_pow2_adds((h - 1) as nat, 1);
    lemma_pow2_pos((h - 1) as nat);
    lemma2_to64();
}

/// Two digits below the base make a number below its square, and the
/// number determines both digits.
pub proof fn lemma_two_digits(lo: nat, hi: nat, b: nat)
    requires
        lo < b,
        hi < b,
    ensures
        lo + b * hi < b * b,
        (lo + b * hi) / b == hi,
        (lo + b * hi) % b == lo,
{
    assert(lo + b * hi < b * b) by (nonlinear_arith)
        requires
            lo < b,
            hi + 1 <= b,
    ;
    assert(lo + b * hi == hi * b + lo) by (nonlinear_arith);
    lemma_div_mod_unique((lo + b * hi) as int, b as int, hi as int, lo as int);
}

/// Two-digit numbers compare by the high digit first.
pub proof fn lemma_two_digits_order(a0: nat, a1: nat, b0: nat, b1: nat, b: nat)
    requires
        a0 < b,
        a1 < b,
        b0 < b,
        b1 < b,
    ensures
        a0 + b * a1 < b0 + b * b1 <==> a1 < b1 || (a1 == b1 && a0 < b0),
        a0 + b * a1 == b0 + b * b1 <==> a1 == b1 && a0 == b0,
{
    lemma_two_digits(b0, b1, b);
    if a1 < b1 {
        assert(b * a1 + b <= b * b1) by (nonlinear_arith)
            requires
                a1 + 1 <= b1,
        ;
    }
    if b1 < a1 {
        assert(b * b1 + b <= b * a1) by (nonlinear_arith)
            requires
                b1 + 1 <= a1,
        ;
    }
}

/// Addition digit by digit: the low digits are added, their carry goes
/// into the sum of the high digits, and the carry out of those is the
/// overflow of the whole.
pub proof fn lemma_add_digits(a0: nat, a1: nat, b0: nat, b1: nat, b: nat)
    requires
        a0 < b,
        a1 < b,
        b0 < b,
        b1 < b,
    ensures
        ({
            let carry: nat = if a0 + b0 >= b { 1 } else { 0 };
            &&& (a0 + b0) % b + b * ((a1 + b1 + carry) % b) == ((a0 + b * a1) + (b0 + b * b1)) % (b
                * b)
            &&& (a1 + b1 + carry >= b) == ((a0 + b * a1) + (b0 + b * b1) >= b * b)
            &&& (a1 + carry) % b + b1 >= b || a1 + carry >= b <==> a1 + b1 + carry >= b
            &&& ((a1 + carry) % b + b1) % b == (a1 + b1 + carry) % b
            &&& ((a1 + b1) % b + carry) % b == (a1 + b1 + carry) % b
        }),
{
    let carry: nat = if a0 + b0 >= b { 1 } else { 0 };
    let lo: nat = (a0 + b0) % b;
    let high: nat = a1 + b1 + carry;
    let hi: nat = high % b;
    let out: nat = if high >= b { 1 } else { 0 };
    lemma_wrap_add(a0, b0, b);
    assert(lo == a0 + b0 - carry * b) by (nonlinear_arith)
        requires
            lo == (if a0 + b0 >= b { a0 + b0 - b } else { (a0 + b0) as int }),
            carry == (if a0 + b0 >= b { 1nat } else { 0nat }),
    ;
    assert(hi == high - out * b && hi < b) by {
        if high >= b {
            lemma_div_mod_unique(high as int, b as int, 1, high - b);
        } else {
            lemma_small_mod(high, b);
        }
    }
    lemma_two_digits(lo, hi, b);
    let total: nat = (a0 + b * a1) + (b0 + b * b1);
    assert(total == (lo + b * hi) + out * (b * b)) by (nonlinear_arith)
        requires
            total == (a0 + b * a1) + (b0 + b * b1),
            lo == a0 + b0 - carry * b,
            hi == a1 + b1 + carry - out * b,
    ;
    lemma_div_mod_unique(total as int, (b * b) as int, out as int, (lo + b * hi) as int);
    assert(out * (b * b) >= b * b || out == 0) by (nonlinear_arith)
        requires
            out == 0 || out == 1,
    ;
    lemma_add_mod_noop((a1 + carry) as int, b1 as int, b as int);
    lemma_small_mod(b1, b);
    lemma_add_mod_noop((a1 + b1) as int, carry as int, b as int);
    lemma_small_mod(carry, b);
    lemma_wrap_add(a1, carry, b);
}

/// Subtraction digit by digit: the low digits are subtracted, their
/// borrow is taken from the difference of the high digits, and the
/// borrow out of those is the underflow of the whole.
pub proof fn lemma_sub_digits(a0: nat, a1: nat, b0: nat, b1: nat, b: nat)
    requires
        a0 < b,
        a1 < b,
        b0 < b,
        b1 < b,
    ensures
        ({
            let borrow: int = if a0 < b0 { 1 } else { 0 };
            let m: int = b as int;
            &&& (a0 - b0) % m + m * ((a1 - b1 - borrow) % m) == ((a0 + b * a1) - (b0 + b * b1)) % (m
                * m)
            &&& (a1 - b1 - borrow < 0) == (a0 + b * a1 < b0 + b * b1)
            &&& (a1 - borrow < 0 || (a1 - borrow) % m < b1) <==> a1 - b1 - borrow < 0
            &&& ((a1 - borrow) % m - b1) % m == (a1 - b1 - borrow) % m
            &&& ((a1 - b1) % m - borrow) % m == (a1 - b1 - borrow) % m
        }),
{
    let borrow: int = if a0 < b0 { 1 } else { 0 };
    let m: int = b as int;
    let lo: int = (a0 - b0) % m;
    let high: int = a1 - b1 - borrow;
    let hi: int = high % m;
    let out: int = if high < 0 { 1 } else { 0 };
    lemma_wrap_sub(a0, b0, b);
    assert(lo == a0 - b0 + borrow * m) by (nonlinear_arith)
        requires
            lo == (if a0 < b0 { a0 - b0 + m } else { a0 - b0 }),
            borrow == (if a0 < b0 { 1int } else { 0int }),
    ;
    assert(hi == high + out * m && 0 <= hi < m) by {
        if high < 0 {
            lemma_div_mod_unique(high, m, -1, high + m);
        } else {
            lemma_small_mod(high as nat, b);
        }
    }
    lemma_two_digits(lo as nat, hi as nat, b);
    let total: int = (a0 + b * a1) - (b0 + b * b1);
    assert(total == (-out) * (m * m) + (lo + m * hi)) by (nonlinear_arith)
        requires
            total == (a0 + m * a1) - (b0 + m * b1),
            lo == a0 - b0 + borrow * m,
            hi == a1 - b1 - borrow + out * m,
    ;
    lemma_div_mod_unique(total, m * m, -out, lo + m * hi);
    assert((-out) * (m * m) <= -(m * m) || out == 0) by (nonlinear_arith)
        requires
            out == 0 || out == 1,
    ;
    lemma_sub_mod_noop(a1 - borrow, b1 as int, m);
    lemma_small_mod(b1, b);
    lemma_sub_mod_noop(a1 - b1, borrow, m);
    lemma_small_mod(borrow as nat, b);
    if a1 - borrow < 0 {
    } else {
        lemma_small_mod((a1 - borrow) as nat, b);
    }
}

/// Complementing both digits complements the number.
pub proof fn lemma_not_digits(lo: nat, hi: nat, b: nat)
    requires
        lo < b,
        hi < b,
    ensures
        (b - 1 - lo) + b * (b - 1 - hi) == b * b - 1 - (lo + b * hi),
{
    assert((b - 1 - lo) + b * (b - 1 - hi) == b * b - 1 - (lo + b * hi)) by (nonlinear_arith);
}

/// The two's-complement reading of a two-digit number reads the high
/// digit as signed and the low digit as it is.
pub proof fn lemma_signed_digits(lo: nat, hi: nat, h: nat)
    requires
        0 < h,
        lo < pow2(h),
        hi < pow2(h),
    ensures
        to_signed(lo + pow2(h) * hi, 2 * h) == lo + pow2(h) * to_signed(hi, h),
        2 * (lo + pow2(h) * hi) >= pow2(2 * h) <==> 2 * hi >= pow2(h),
{
    let b = pow2(h);
    lemma_base(h);
    lemma_two_digits(lo, hi, b);
    let half = pow2((h - 1) as nat);
    if hi >= half {
        assert(b * hi >= b * half) by (nonlinear_arith)
            requires
                hi >= half,
        ;
        assert(b * (hi - b) == b * hi - b * b) by (nonlinear_arith);
    } else {
        assert(b * hi + b <= b * half) by (nonlinear_arith)
            requires
                hi + 1 <= half,
        ;
    }
    assert(2 * (b * half) == b * b) by (nonlinear_arith)
        requires
            2 * half == b,
    ;
}

/// Leading zeros of a two-digit number, from those of the digit that
/// decides: the high digit, or the low one under a zero high digit.
pub proof fn lemma_leading_zeros_join(lo: nat, hi: nat, h: nat, r: nat)
    requires
        0 < h,
        lo < pow2(h),
        hi < pow2(h),
        hi == 0 ==> r >= h && is_leading_zeros(lo, h, (r - h) as nat),
        hi != 0 ==> is_leading_zeros(hi, h, r),
    ensures
        is_leading_zeros(lo + pow2(h) * hi, 2 * h, r),
{
    let b = pow2(h);
    if hi == 0 {
        assert(b * hi == 0) by (nonlinear_arith)
            requires
                hi == 0,
        ;
    } else {
        let low_exp = (h - 1 - r) as nat;
        let high_exp = (h - r) as nat;
        lemma_pow2_adds(h, low_exp);
        lemma_pow2_adds(h, high_exp);
        assert(b * hi >= b * pow2(low_exp)) by (nonlinear_arith)
            requires
                hi >= pow2(low_exp),
        ;
        assert(b * hi + b <= b * pow2(high_exp)) by (nonlinear_arith)
            requires
                hi + 1 <= pow2(high_exp),
        ;
        lemma_pow2_pos(h + low_exp);
    }
}

/// The product of two two-digit numbers, by the products of the digits.
pub proof fn lemma_product_digits(a0: nat, a1: nat, b0: nat, b1: nat, b: nat)
    ensures
        (a0 + b * a1) * (b0 + b * b1) == a0 * b0 + b * (a0 * b1) + b * (a1 * b0) + (b * b) * (a1
            * b1),
{
    assert((a0 + b * a1) * (b0 + b * b1) == a0 * b0 + b * (a0 * b1) + b * (a1 * b0) + (b * b) * (a1
        * b1)) by (nonlinear_arith);
}

/// A number and its low digit agree modulo anything that divides the
/// base: here `2^k` under the base `2^h`.
pub proof fn lemma_low_bits(lo: nat, hi: nat, h: nat, k: nat)
    requires
        k <= h,
    ensures
        (lo + pow2(h) * hi) % pow2(k) == lo % pow2(k),
{
    lemma_pow2_adds(k, (h - k) as nat);
    lemma_pow2_pos(k);
    let c = pow2((h - k) as nat);
    assert(lo + pow2(h) * hi == lo + (c * hi) * pow2(k)) by (nonlinear_arith)
        requires
            pow2(h) == pow2(k) * c,
    ;
    lemma_mod_congruent((lo + pow2(h) * hi) as int, lo as int, (c * hi) as int, pow2(k) as int);
}

/// Multiplication modulo the square of the base: the product of the low
/// digits, with the two cross products added into its high digit.
pub proof fn lemma_mul_digits(a0: nat, a1: nat, b0: nat, b1: nat, b: nat, lo: nat, carry: nat)
    requires
        0 < b,
        lo < b,
        lo + b * carry == a0 * b0,
    ensures
        lo + b * ((carry + a0 * b1 + a1 * b0) % b) == ((a0 + b * a1) * (b0 + b * b1)) % (b * b),
        ((carry + (a0 * b1) % b) % b + (a1 * b0) % b) % b == (carry + a0 * b1 + a1 * b0) % b,
        (carry + (a1 * b0 + b1 * a0) % b) % b == (carry + a0 * b1 + a1 * b0) % b,
        ((a1 * b0) % b + (b1 * a0) % b) % b == (a1 * b0 + b1 * a0) % b,
{
    assert(b1 * a0 == a0 * b1) by (nonlinear_arith);
    let cross = carry + a0 * b1 + a1 * b0;
    let s = cross % b;
    let q = cross / b;
    lemma_fundamental_div_mod(cross as int, b as int);
    lemma_mod_bound(cross as int, b as int);
    lemma_two_digits(lo, s, b);
    let bb = b * b;
    lemma_product_digits(a0, a1, b0, b1, b);
    assert(b * cross == b * carry + b * (a0 * b1) + b * (a1 * b0)) by (nonlinear_arith)
        requires
            cross == carry + a0 * b1 + a1 * b0,
    ;
    assert(b * cross == bb * q + b * s) by (nonlinear_arith)
        requires
            cross == b * q + s,
            bb == b * b,
    ;
    assert(bb * (q + a1 * b1) == bb * q + bb * (a1 * b1)) by (nonlinear_arith);
    assert((a0 + b * a1) * (b0 + b * b1) == (q + a1 * b1) * bb + (lo + b * s)) by (nonlinear_arith)
        requires
            (a0 + b * a1) * (b0 + b * b1) == bb * (q + a1 * b1) + (lo + b * s),
    ;
    lemma_div_mod_unique(
        ((a0 + b * a1) * (b0 + b * b1)) as int,
        bb as int,
        (q + a1 * b1) as int,
        (lo + b * s) as int,
    );
    lemma_add_mod_noop((carry + (a0 * b1) % b) as int, (a1 * b0) as int, b as int);
    lemma_add_mod_noop_right((carry + a1 * b0) as int, (a0 * b1) as int, b as int);
    lemma_add_mod_noop((a1 * b0) as int, (b1 * a0) as int, b as int);
    lemma_add_mod_noop_right(carry as int, (a1 * b0 + b1 * a0) as int, b as int);
}

/// When a product of two two-digit numbers leaves two digits: with both
/// high digits set always; with one of them zero, when the other's
/// cross product, or its sum with the carry of the low product, leaves
/// one digit.
pub proof fn lemma_mul_overflow(a0: nat, a1: nat, b0: nat, b1: nat, b: nat, lo: nat, carry: nat)
    requires
        0 < b,
        lo < b,
        carry < b,
        a0 < b,
        b0 < b,
        lo + b * carry == a0 * b0,
    ensures
        a1 != 0 && b1 != 0 ==> (a0 + b * a1) * (b0 + b * b1) >= b * b,
        b1 == 0 ==> ((a0 + b * a1) * (b0 + b * b1) >= b * b <==> a1 * b0 >= b || carry + (a1 * b0)
            % b >= b),
        a1 == 0 ==> ((a0 + b * a1) * (b0 + b * b1) >= b * b <==> b1 * a0 >= b || carry + (b1 * a0)
            % b >= b),
        b1 == 0 ==> (a1 * b0) % b == (a1 * b0 + b1 * a0) % b,
        a1 == 0 ==> (b1 * a0) % b == (a1 * b0 + b1 * a0) % b,
{
    let bb = b * b;
    lemma_product_digits(a0, a1, b0, b1, b);
    if a1 != 0 && b1 != 0 {
        assert(bb * (a1 * b1) >= bb) by (nonlinear_arith)
            requires
                a1 >= 1,
                b1 >= 1,
                bb >= 0,
        ;
    }
    if b1 == 0 {
        let cross = a1 * b0;
        assert(a0 * b1 == 0 && a1 * b1 == 0 && b1 * a0 == 0) by (nonlinear_arith)
            requires
                b1 == 0,
        ;
        assert(bb * 0 == 0 && b * 0 == 0) by (nonlinear_arith);
        lemma_one_cross(lo, carry, cross, b);
    }
    if a1 == 0 {
        let cross = b1 * a0;
        assert(a1 * b0 == 0 && a1 * b1 == 0 && a0 * b1 == b1 * a0) by (nonlinear_arith)
            requires
                a1 == 0,
        ;
        assert(bb * 0 == 0 && b * 0 == 0) by (nonlinear_arith);
        lemma_one_cross(lo, carry, cross, b);
    }
}

/// `lo + b * (carry + cross)` leaves two digits exactly when `cross`
/// leaves one, or its low digit added to `carry` does.
proof fn lemma_one_cross(lo: nat, carry: nat, cross: nat, b: nat)
    requires
        0 < b,
        lo < b,
        carry < b,
    ensures
        lo + b * carry + b * cross >= b * b <==> cross >= b || carry + cross % b >= b,
{
    lemma_fundamental_div_mod(cross as int, b as int);
    lemma_mod_bound(cross as int, b as int);
    lemma_div_bounds(cross as int, b as int);
    let s = carry + cross;
    assert(b * carry + b * cross == b * s) by (nonlinear_arith)
        requires
            s == carry + cross,
    ;
    if s >= b {
        assert(b * s >= b * b) by (nonlinear_arith)
            requires
                s >= b,
        ;
    } else {
        assert(lo + b * s < b * b) by (nonlinear_arith)
            requires
                s + 1 <= b,
                lo < b,
        ;
    }
    if cross < b {
        lemma_small_mod(cross, b);
    }
}

/// Reducing a two-digit expression modulo the square of the base
/// reduces its high part modulo the base.
pub proof fn lemma_mod_high_digit(lo: nat, x: nat, b: nat)
    requires
        lo < b,
    ensures
        (lo + b * x) % (b * b) == lo + b * (x % b),
{
    let q = x / b;
    let s = x % b;
    lemma_fundamental_div_mod(x as int, b as int);
    lemma_mod_bound(x as int, b as int);
    lemma_two_digits(lo, s, b);
    assert(lo + b * x == q * (b * b) + (lo + b * s)) by (nonlinear_arith)
        requires
            x == b * q + s,
    ;
    lemma_div_mod_unique((lo + b * x) as int, (b * b) as int, q as int, (lo + b * s) as int);
}

/// A digit times `2^n`, split at the base `2^h`: what stays in the digit
/// and what is carried out of it.
pub proof fn lemma_shl_split(a: nat, h: nat, n: nat)
    requires
        n <= h,
        a < pow2(h),
    ensures
        a * pow2(n) == (a * pow2(n)) % pow2(h) + pow2(h) * (a / pow2((h - n) as nat)),
        (a * pow2(n)) % pow2(h) == pow2(n) * (a % pow2((h - n) as nat)),
        a / pow2((h - n) as nat) < pow2(n),
{
    let d = pow2(n);
    let e = pow2((h - n) as nat);
    let b = pow2(h);
    lemma_pow2_adds((h - n) as nat, n);
    lemma_pow2_pos(n);
    let q = a / e;
    let r = a % e;
    lemma_fundamental_div_mod(a as int, e as int);
    assert(a * d == q * b + d * r) by (nonlinear_arith)
        requires
            a == e * q + r,
            b == e * d,
    ;
    assert(d * r < b) by (nonlinear_arith)
        requires
            r + 1 <= e,
            b == e * d,
            0 < d,
    ;
    lemma_div_mod_unique((a * d) as int, b as int, q as int, (d * r) as int);
    assert(q * b == b * q) by (nonlinear_arith);
    if q >= d {
        assert(e * q >= e * d) by (nonlinear_arith)
            requires
                q >= d,
        ;
    }
}

/// Shifting a two-digit number left by less than a digit: each digit is
/// shifted, and what leaves the low digit enters the high one.
pub proof fn lemma_shl_digits(a0: nat, a1: nat, h: nat, n: nat)
    requires
        0 < h,
        n <= h,
        a0 < pow2(h),
    ensures
        ((a0 + pow2(h) * a1) * pow2(n)) % pow2(2 * h) == (a0 * pow2(n)) % pow2(h) + pow2(h) * (((a1
            * pow2(n)) % pow2(h) + a0 / pow2((h - n) as nat)) % pow2(h)),
{
    let b = pow2(h);
    let d = pow2(n);
    let carry = a0 / pow2((h - n) as nat);
    let lo = (a0 * d) % b;
    lemma_base(h);
    lemma_shl_split(a0, h, n);
    assert((a0 + b * a1) * d == lo + b * (a1 * d + carry)) by (nonlinear_arith)
        requires
            a0 * d == lo + b * carry,
    ;
    lemma_mod_high_digit(lo, a1 * d + carry, b);
    lemma_add_mod_noop((a1 * d) as int, carry as int, b as int);
    if n < h {
        lemma_pow2_strictly_increases(n, h);
    }
    lemma_small_mod(carry, b);
}

/// Shifting a two-digit number left by a digit or more: the low digit,
/// shifted by the rest, becomes the high digit.
pub proof fn lemma_shl_digits_far(a0: nat, a1: nat, h: nat, n: nat)
    requires
        0 < h,
        h <= n,
    ensures
        ((a0 + pow2(h) * a1) * pow2(n)) % pow2(2 * h) == pow2(h) * ((a0 * pow2((n - h) as nat))
            % pow2(h)),
{
    let b = pow2(h);
    let f = pow2((n - h) as nat);
    lemma_base(h);
    lemma_pow2_adds(h, (n - h) as nat);
    let x = a0 * f + (a1 * f) * b;
    assert((a0 + b * a1) * pow2(n) == 0 + b * x) by (nonlinear_arith)
        requires
            pow2(n) == b * f,
            x == a0 * f + (a1 * f) * b,
    ;
    lemma_mod_high_digit(0, x, b);
    lemma_mod_congruent(x as int, (a0 * f) as int, (a1 * f) as int, b as int);
}

/// Dividing `a0 + 2^h * x` by `2^n`, for a digit `a0` and any integer
/// `x`, rounding down: the quotient of `x` stays in the high part, and
/// its remainder comes down above the quotient of `a0`.
pub proof fn lemma_shr_digits(a0: nat, x: int, h: nat, n: nat)
    requires
        n <= h,
        a0 < pow2(h),
    ensures
        (a0 + pow2(h) * x) / (pow2(n) as int) == a0 / pow2(n) + pow2((h - n) as nat) * (x % (pow2(
            n,
        ) as int)) + pow2(h) * (x / (pow2(n) as int)),
        0 <= a0 / pow2(n) + pow2((h - n) as nat) * (x % (pow2(n) as int)) < pow2(h),
{
    let d = pow2(n) as int;
    let e = pow2((h - n) as nat) as int;
    let b = pow2(h) as int;
    lemma_pow2_adds((h - n) as nat, n);
    let qx = x / d;
    let rx = x % d;
    lemma_fundamental_div_mod(x, d);
    let qa = a0 as int / d;
    let ra = a0 as int % d;
    lemma_fundamental_div_mod(a0 as int, d);
    assert(a0 + b * x == (qa + e * rx + b * qx) * d + ra) by (nonlinear_arith)
        requires
            a0 == d * qa + ra,
            x == d * qx + rx,
            b == e * d,
    ;
    lemma_div_mod_unique(a0 + b * x, d, qa + e * rx + b * qx, ra);
    if qa >= e {
        assert(d * qa >= d * e) by (nonlinear_arith)
            requires
                qa >= e,
                d > 0,
        ;
    }
    assert(e * rx <= e * (d - 1) && 0 <= e * rx) by (nonlinear_arith)
        requires
            0 <= rx <= d - 1,
            e > 0,
    ;
    assert(e * (d - 1) == b - e) by (nonlinear_arith)
        requires
            b == e * d,
    ;
}

/// Dividing a two-digit number by `2^n` for `n` of a digit or more:
/// only the high part counts, divided by the rest.
pub proof fn lemma_shr_digits_far(a0: nat, x: int, h: nat, n: nat)
    requires
        h <= n,
        a0 < pow2(h),
    ensures
        (a0 + pow2(h) * x) / (pow2(n) as int) == x / (pow2((n - h) as nat) as int),
{
    let b = pow2(h) as int;
    let f = pow2((n - h) as nat) as int;
    lemma_pow2_adds(h, (n - h) as nat);
    lemma_pow2_pos((n - h) as nat);
    let q = x / f;
    let r = x % f;
    lemma_fundamental_div_mod(x, f);
    assert(a0 + b * x == q * (b * f) + (a0 + b * r)) by (nonlinear_arith)
        requires
            x == f * q + r,
    ;
    assert(0 <= a0 + b * r < b * f) by (nonlinear_arith)
        requires
            0 <= a0 < b,
            0 <= r,
            r + 1 <= f,
    ;
    lemma_div_mod_unique(a0 + b * x, b * f, q, a0 + b * r);
}

/// The bits of a two-digit number are those of its low digit, then
/// those of its high digit.
pub proof fn lemma_bit_digits(lo: nat, hi: nat, h: nat, i: nat)
    requires
        lo < pow2(h),
    ensures
        bit(lo + pow2(h) * hi, i) == (if i < h {
            bit(lo, i)
        } else {
            bit(hi, (i - h) as nat)
        }),
{
    if i < h {
        lemma_shr_digits(lo, hi as int, h, i);
        let e = pow2((h - i) as nat);
        let b = pow2(h);
        let d = pow2(i) as int;
        lemma_pow2_adds((h - i - 1) as nat, 1);
        lemma_pow2_adds((h - 1) as nat, 1);
        lemma2_to64();
        let k = pow2((h - i - 1) as nat) * (hi as int % d) + pow2((h - 1) as nat) * (hi as int / d);
        assert(e * (hi as int % d) + b * (hi as int / d) == k * 2) by (nonlinear_arith)
            requires
                e == pow2((h - i - 1) as nat) * 2,
                b == pow2((h - 1) as nat) * 2,
                k == pow2((h - i - 1) as nat) * (hi as int % d) + pow2((h - 1) as nat) * (hi as int
                    / d),
        ;
        lemma_mod_congruent(((lo + b * hi) / pow2(i)) as int, (lo / pow2(i)) as int, k, 2);
    } else {
        lemma_shr_digits_far(lo, hi as int, h, i);
    }
}

/// Schoolbook multiplication of two two-digit numbers: the four digit
/// products, summed with their carries as the code sums them, give the
/// low and the high half of the product.
pub proof fn lemma_schoolbook(
    x0: nat,
    x1: nat,
    y0: nat,
    y1: nat,
    b: nat,
    w0: nat,
    t: nat,
    w1: nat,
    hi: nat,
)
    requires
        0 < b,
        x0 < b,
        x1 < b,
        y0 < b,
        y1 < b,
        w0 == x0 * y0,
        t == x1 * y0 + w0 / b,
        w1 == t % b + x0 * y1,
        hi == x1 * y1 + t / b + w1 / b,
    ensures
        (x0 + b * x1) * (y0 + b * y1) == (w0 % b + b * (w1 % b)) + (b * b) * hi,
        w0 % b + b * (w1 % b) < b * b,
        hi < b * b,
{
    let w0l = w0 % b;
    let w0h = w0 / b;
    let tl = t % b;
    let th = t / b;
    let w1l = w1 % b;
    let w1h = w1 / b;
    lemma_fundamental_div_mod(w0 as int, b as int);
    lemma_fundamental_div_mod(t as int, b as int);
    lemma_fundamental_div_mod(w1 as int, b as int);
    let bb = b * b;
    lemma_product_digits(x0, x1, y0, y1, b);
    assert(b * t == b * (x1 * y0) + b * w0h) by (nonlinear_arith)
        requires
            t == x1 * y0 + w0h,
    ;
    assert(b * t == bb * th + b * tl) by (nonlinear_arith)
        requires
            t == b * th + tl,
            bb == b * b,
    ;
    assert(b * w1 == b * tl + b * (x0 * y1)) by (nonlinear_arith)
        requires
            w1 == tl + x0 * y1,
    ;
    assert(b * w1 == bb * w1h + b * w1l) by (nonlinear_arith)
        requires
            w1 == b * w1h + w1l,
            bb == b * b,
    ;
    assert(bb * hi == bb * (x1 * y1) + bb * th + bb * w1h) by (nonlinear_arith)
        requires
            hi == x1 * y1 + th + w1h,
    ;
    assert(w0l + b * w1l < b * b) by (nonlinear_arith)
        requires
            w0l < b,
            w1l < b,
            0 <= w1l,
    ;
    assert(x0 + b * x1 < b * b) by (nonlinear_arith)
        requires
            x0 < b,
            x1 + 1 <= b,
    ;
    assert(y0 + b * y1 < b * b) by (nonlinear_arith)
        requires
            y0 < b,
            y1 + 1 <= b,
    ;
    assert((x0 + b * x1) * (y0 + b * y1) < (b * b) * (b * b)) by (nonlinear_arith)
        requires
            x0 + b * x1 < b * b,
            y0 + b * y1 < b * b,
            0 <= x0 + b * x1,
            0 <= y0 + b * y1,
    ;
    assert(hi < b * b) by (nonlinear_arith)
        requires
            (b * b) * hi <= (x0 + b * x1) * (y0 + b * y1),
            (x0 + b * x1) * (y0 + b * y1) < (b * b) * (b * b),
            0 < b,
    ;
}

/// The low digit of a right shift by less than a digit: the quotient of
/// the low digit, with the bits that leave the high digit above it. The
/// high part may be read as signed (`x`) or unsigned (`a1`) alike.
pub proof fn lemma_shr_low_digit(a0: nat, a1: nat, x: int, h: nat, n: nat)
    requires
        0 < h,
        n < h,
        a0 < pow2(h),
        a1 < pow2(h),
        x == a1 || x == a1 - pow2(h),
    ensures
        (a0 / pow2(n) + (if n == 0 {
            0
        } else {
            (a1 * pow2((h - n) as nat)) % pow2(h)
        })) % pow2(h) + pow2(h) * (x / (pow2(n) as int)) == (a0 + pow2(h) * x) / (pow2(n) as int),
{
    let b = pow2(h);
    let d = pow2(n);
    let e = pow2((h - n) as nat);
    lemma_shr_digits(a0, x, h, n);
    lemma_pow2_adds((h - n) as nat, n);
    if x != a1 {
        lemma_mod_congruent(a1 as int, x, e as int, d as int);
        assert(e * d == b) by (nonlinear_arith)
            requires
                b == e * d,
        ;
    }
    if n == 0 {
        lemma2_to64();
        assert(e * (x % 1) == 0) by (nonlinear_arith)
            requires
                x % 1 == 0,
        ;
    } else {
        lemma_shl_split(a1, h, (h - n) as nat);
    }
    lemma_small_mod((a0 / d + e * (x % (d as int))) as nat, b);
}

/// A negative number divided by a positive one, rounding down, stays
/// negative.
pub proof fn lemma_floor_negative(x: int, d: int)
    requires
        x < 0,
        0 < d,
    ensures
        x / d < 0,
{
    lemma_fundamental_div_mod(x, d);
    if x / d >= 0 {
        assert(d * (x / d) >= 0) by (nonlinear_arith)
            requires
                x / d >= 0,
                d > 0,
        ;
    }
}

/// The product of two digits stays below the square of the base, with
/// room for one more digit.
pub proof fn lemma_digit_product(x: nat, y: nat, b: nat)
    requires
        x < b,
        y < b,
    ensures
        x * y + b <= b * b,
{
    assert(x * y + b <= b * b) by (nonlinear_arith)
        requires
            x + 1 <= b,
            y + 1 <= b,
    ;
}

} // verus!
