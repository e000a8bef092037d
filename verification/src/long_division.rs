//! The arithmetic behind long division by digits: the trial quotient of
//! one step and its correction, the two steps put together, and the
//! estimate of a quotient from the leading digit of the divisor.
use crate::element::{is_leading_zeros, Element};
use crate::halves::lemma_shl_split;
use crate::modular::{lemma_div_bounds, lemma_div_mod_unique, lemma_mod_congruent};
use vstd::arithmetic::div_mod::{
    lemma_div_denominator, lemma_div_is_ordered_by_denominator, lemma_fundamental_div_mod,
    lemma_small_mod,
};
use vstd::arithmetic::power2::{lemma2_to64, lemma_pow2_adds, lemma_pow2_pos, pow2};
use vstd::prelude::*;
use vstd::prelude::*;

verus! {

/// What one division step is given: a divisor `y` of two digits to the
/// base `c`, `y1` and `y0`, with its leading digit at least half the
/// base; and a dividend of a part `u` below the divisor, followed by one
/// more digit `next`.
pub open spec fn step_input(u: nat, next: nat, y: nat, y1: nat, y0: nat, c: nat) -> bool {
    &&& 2 <= c
    &&& y == y1 * c + y0
    &&& y0 < c
    &&& y1 < c
    &&& 2 * y1 >= c
    &&& u < y
    &&& next < c
}

/// What holds of a trial quotient `q` and its remainder `rhat` against
/// the leading digit: `q` is not below the true digit, and at most two
/// above the base's last digit.
pub open spec fn trial(u: nat, next: nat, y: nat, y1: nat, c: nat, q: nat, rhat: nat) -> bool {
    &&& q * y1 + rhat == u
    &&& q <= c + 1
    &&& q >= (u * c + next) / y
}

/// The first trial quotient, the dividend's leading part by the
/// divisor's leading digit, is a trial quotient, and at most two above
/// the true digit; and the true digit is below the base.
pub proof fn lemma_trial_start(u: nat, next: nat, y: nat, y1: nat, y0: nat, c: nat)
    requires
        step_input(u, next, y, y1, y0, c),
    ensures
        0 < y1,
        trial(u, next, y, y1, c, u / y1, u % y1),
        u / y1 <= (u * c + next) / y + 2,
        u % y1 < c,
        (u * c + next) / y < c,
        u * c + next < y * c,
        y < c * c,
{
    let d = u * c + next;
    let qs = d / y;
    let q = u / y1;
    lemma_fundamental_div_mod(u as int, y1 as int);
    lemma_div_bounds(d as int, y as int);
    assert(q * y1 == y1 * q) by (nonlinear_arith);
    assert(y < c * c) by (nonlinear_arith)
        requires
            y == y1 * c + y0,
            y0 < c,
            y1 + 1 <= c,
    ;
    assert(d < y * c) by (nonlinear_arith)
        requires
            d == u * c + next,
            u + 1 <= y,
            next < c,
    ;
    if qs >= c {
        assert(qs * y >= c * y) by (nonlinear_arith)
            requires
                qs >= c,
        ;
        assert(c * y == y * c) by (nonlinear_arith);
    }
    if q >= c + 2 {
        assert(q * y1 >= y1 * c + c) by (nonlinear_arith)
            requires
                q >= c + 2,
                2 * y1 >= c,
        ;
    }
    if q >= 2 {
        let p = (q - 2) as nat;
        assert(q * y0 < c * c) by (nonlinear_arith)
            requires
                q <= c + 1,
                y0 + 1 <= c,
        ;
        assert(2 * y >= c * c) by (nonlinear_arith)
            requires
                y >= y1 * c,
                2 * y1 >= c,
        ;
        assert(p * y <= d) by (nonlinear_arith)
            requires
                p == q - 2,
                y == y1 * c + y0,
                q * y1 <= u,
                q * y0 < 2 * y,
                d == u * c + next,
        ;
        lemma_quotient_at_least(d, y, p);
    }
    if qs > q {
        assert(qs * y >= (q + 1) * y1 * c) by (nonlinear_arith)
            requires
                qs >= q + 1,
                y >= y1 * c,
        ;
        assert((q + 1) * y1 == q * y1 + y1) by (nonlinear_arith);
        assert((q + 1) * y1 * c >= (u + 1) * c) by (nonlinear_arith)
            requires
                (q + 1) * y1 >= u + 1,
        ;
        assert((u + 1) * c == u * c + c) by (nonlinear_arith);
    }
}

/// No product or sum of the correction test leaves two digits.
pub proof fn lemma_trial_fits(
    u: nat,
    next: nat,
    y: nat,
    y1: nat,
    y0: nat,
    c: nat,
    q: nat,
    rhat: nat,
)
    requires
        step_input(u, next, y, y1, y0, c),
        q <= c + 1,
        rhat < c,
    ensures
        q * y0 < c * c,
        c * rhat + next < c * c,
        rhat + y1 < c * c,
{
    assert(q * y0 < c * c) by (nonlinear_arith)
        requires
            q <= c + 1,
            y0 + 1 <= c,
    ;
    assert(c * rhat + next < c * c) by (nonlinear_arith)
        requires
            rhat + 1 <= c,
            next < c,
    ;
    assert(2 * c <= c * c) by (nonlinear_arith)
        requires
            2 <= c,
    ;
}

/// A trial quotient below the base that passes the test against the
/// second digit is the true digit.
pub proof fn lemma_trial_accept(
    u: nat,
    next: nat,
    y: nat,
    y1: nat,
    y0: nat,
    c: nat,
    q: nat,
    rhat: nat,
)
    requires
        step_input(u, next, y, y1, y0, c),
        trial(u, next, y, y1, c, q, rhat),
        q < c,
        q * y0 <= c * rhat + next,
    ensures
        q == (u * c + next) / y,
{
    let d = u * c + next;
    assert(q * y <= d) by (nonlinear_arith)
        requires
            y == y1 * c + y0,
            q * y1 + rhat == u,
            q * y0 <= c * rhat + next,
            d == u * c + next,
    ;
    lemma_quotient_at_least(d, y, q);
}

/// Whatever times the divisor stays within the dividend is at most the
/// quotient.
pub proof fn lemma_quotient_at_least(x: nat, y: nat, q: nat)
    requires
        0 < y,
        q * y <= x,
    ensures
        q <= x / y,
{
    lemma_div_bounds(x as int, y as int);
    if q > x / y {
        assert(q * y >= (x / y + 1) * y) by (nonlinear_arith)
            requires
                q >= x / y + 1,
        ;
    }
}

/// A trial quotient that fails the test is above the true digit: one
/// less is a trial quotient still, with the leading digit added to its
/// remainder. Once that remainder reaches the base, the trial quotient
/// is the true digit.
pub proof fn lemma_trial_correct(
    u: nat,
    next: nat,
    y: nat,
    y1: nat,
    y0: nat,
    c: nat,
    q: nat,
    rhat: nat,
)
    requires
        step_input(u, next, y, y1, y0, c),
        trial(u, next, y, y1, c, q, rhat),
        rhat < c,
        q >= c || q * y0 > c * rhat + next,
        (u * c + next) / y < c,
    ensures
        q >= 1,
        trial(u, next, y, y1, c, (q - 1) as nat, rhat + y1),
        q - 1 <= c,
        rhat + y1 >= c ==> q - 1 == (u * c + next) / y,
{
    let d = u * c + next;
    let qs = d / y;
    lemma_div_bounds(d as int, y as int);
    if q < c {
        assert(q >= 1) by (nonlinear_arith)
            requires
                q * y0 > c * rhat + next,
        ;
        assert(q * y > d) by (nonlinear_arith)
            requires
                y == y1 * c + y0,
                q * y1 + rhat == u,
                q * y0 > c * rhat + next,
                d == u * c + next,
        ;
        if qs >= q {
            assert(qs * y >= q * y) by (nonlinear_arith)
                requires
                    qs >= q,
            ;
        }
    }
    assert((q - 1) * y1 + (rhat + y1) == u) by (nonlinear_arith)
        requires
            q * y1 + rhat == u,
    ;
    if rhat + y1 >= c {
        let p = (q - 1) as nat;
        assert(p * y0 < c * c) by (nonlinear_arith)
            requires
                p <= c,
                y0 + 1 <= c,
        ;
        assert(p * y <= d) by (nonlinear_arith)
            requires
                y == y1 * c + y0,
                p * y1 + (rhat + y1) == u,
                rhat + y1 >= c,
                p * y0 < c * c,
                d == u * c + next,
        ;
        lemma_quotient_at_least(d, y, p);
    }
}

/// The remainder of a step, computed with each operation reduced modulo
/// `m`, is the true remainder, which is below `m`.
pub proof fn lemma_step_remainder(u: nat, c: nat, next: nat, q: nat, y: nat, m: nat)
    requires
        0 < y <= m,
        q == (u * c + next) / y,
    ensures
        ((((u * c) % m + next) % m) as int - ((q * y) % m) as int) % (m as int) == (u * c + next)
            % y,
{
    let d = u * c + next;
    let mi = m as int;
    lemma_fundamental_div_mod(d as int, y as int);
    assert(q * y == y * q) by (nonlinear_arith);
    let t1 = (u * c) % m;
    lemma_fundamental_div_mod((u * c) as int, mi);
    let k1 = (u * c) as int / mi;
    let t2 = (t1 + next) % m;
    lemma_fundamental_div_mod((t1 + next) as int, mi);
    let k2 = (t1 + next) as int / mi;
    let t3 = (q * y) % m;
    lemma_fundamental_div_mod((q * y) as int, mi);
    let k3 = (q * y) as int / mi;
    assert(t2 - t3 == (d - q * y) + (k3 - k1 - k2) * mi) by (nonlinear_arith)
        requires
            u * c == mi * k1 + t1,
            t1 + next == mi * k2 + t2,
            q * y == mi * k3 + t3,
            d == u * c + next,
    ;
    lemma_mod_congruent(t2 - t3, d - q * y, k3 - k1 - k2, mi);
    lemma_small_mod((d - q * y) as nat, m);
}

/// Two division steps make the division of three digits by the divisor,
/// and dividing a dividend and a divisor that were both multiplied by
/// `scale` gives the quotient of the two as they were, and their remainder
/// times `scale`.
pub proof fn lemma_two_steps(
    x: nat,
    y: nat,
    scale: nat,
    c: nat,
    u: nat,
    d1: nat,
    d0: nat,
    q1: nat,
    r1: nat,
    q0: nat,
    r0: nat,
)
    requires
        0 < y,
        0 < scale,
        0 < c,
        x * scale == (u * c + d1) * c + d0,
        q1 == (u * c + d1) / (y * scale),
        r1 == (u * c + d1) % (y * scale),
        q0 == (r1 * c + d0) / (y * scale),
        r0 == (r1 * c + d0) % (y * scale),
    ensures
        q1 * c + q0 == x / y,
        r0 / scale == x % y,
{
    let yn = y * scale;
    assert(0 < yn) by (nonlinear_arith)
        requires
            yn == y * scale,
            0 < y,
            0 < scale,
    ;
    lemma_fundamental_div_mod((u * c + d1) as int, yn as int);
    lemma_fundamental_div_mod((r1 * c + d0) as int, yn as int);
    let q = q1 * c + q0;
    assert(x * scale == q * yn + r0) by (nonlinear_arith)
        requires
            x * scale == (u * c + d1) * c + d0,
            u * c + d1 == yn * q1 + r1,
            r1 * c + d0 == yn * q0 + r0,
            q == q1 * c + q0,
    ;
    let rest = x as int - q * y;
    assert(r0 == rest * scale) by (nonlinear_arith)
        requires
            x * scale == q * yn + r0,
            yn == y * scale,
            rest == x - q * y,
    ;
    if rest < 0 {
        assert(rest * scale < 0) by (nonlinear_arith)
            requires
                rest < 0,
                0 < scale,
        ;
    }
    if rest >= y {
        assert(rest * scale >= y * scale) by (nonlinear_arith)
            requires
                rest >= y,
                0 < scale,
        ;
    }
    lemma_div_mod_unique(x as int, y as int, q as int, rest);
    lemma_div_mod_unique(r0 as int, scale as int, rest, 0);
}

/// Dividing a two-digit number by one digit in two rounds: the high
/// digit first, then its remainder with the low digit.
pub proof fn lemma_digit_rounds(
    lo: nat,
    hi: nat,
    y: nat,
    b: nat,
    q_hi: nat,
    r_hi: nat,
    q_lo: nat,
    r: nat,
)
    requires
        0 < y,
        q_hi == hi / y,
        r_hi == hi % y,
        q_lo == (lo + b * r_hi) / y,
        r == (lo + b * r_hi) % y,
    ensures
        q_lo + b * q_hi == (lo + b * hi) / y,
        r == (lo + b * hi) % y,
{
    lemma_fundamental_div_mod(hi as int, y as int);
    lemma_fundamental_div_mod((lo + b * r_hi) as int, y as int);
    assert(lo + b * hi == (q_lo + b * q_hi) * y + r) by (nonlinear_arith)
        requires
            hi == y * q_hi + r_hi,
            lo + b * r_hi == y * q_lo + r,
    ;
    lemma_div_mod_unique((lo + b * hi) as int, y as int, (q_lo + b * q_hi) as int, r as int);
}

/// The quotient estimated from the leading digit of the normalized
/// divisor is the quotient or one more.
///
/// Here `x` is the dividend and `y` the divisor, both below `b * b` for
/// the base `b = 2^h`, with `y` of two digits and `n` leading zeros in
/// its high digit; `v` is the high digit of `y * 2^n`.
pub proof fn lemma_estimate(x: nat, y: nat, h: nat, n: nat, v: nat, tq: nat)
    requires
        0 < h,
        n < h,
        x < pow2(h) * pow2(h),
        pow2((2 * h - 1 - n) as nat) <= y < pow2((2 * h - n) as nat),
        v == (y * pow2(n)) / pow2(h),
        tq == ((x / 2) / v) / pow2((h - 1 - n) as nat),
    ensures
        2 * v >= pow2(h),
        x / y <= tq <= x / y + 1,
{
    let b = pow2(h);
    let k = (h - 1 - n) as nat;
    let d = pow2((h - n) as nat);
    let s = pow2(n);
    lemma_pow2_adds(k, 1);
    lemma2_to64();
    lemma_pow2_adds(n, (h - n) as nat);
    lemma_pow2_adds(h, k);
    lemma_pow2_adds((h - 1) as nat, 1);
    lemma_pow2_adds(n, k);
    lemma_pow2_pos(n);
    let half = pow2((h - 1) as nat);
    // The leading digit of the normalized divisor.
    lemma_fundamental_div_mod((y * s) as int, b as int);
    assert(y * s >= b * half) by (nonlinear_arith)
        requires
            y >= b * pow2(k),
            half == s * pow2(k),
    ;
    if v < half {
        assert(b * v + b <= b * half) by (nonlinear_arith)
            requires
                v + 1 <= half,
        ;
    }
    let w = v * d;
    assert(0 < w) by (nonlinear_arith)
        requires
            w == v * d,
            0 < v,
            0 < d,
    ;
    // The divisor lies within `d` above `w`.
    assert(w * s == b * v) by (nonlinear_arith)
        requires
            w == v * d,
            b == s * d,
    ;
    assert(w <= y < w + d) by (nonlinear_arith)
        requires
            w * s == b * v,
            b * v <= y * s,
            y * s < b * v + b,
            b == s * d,
            0 < s,
    ;
    // The estimate is the quotient by `w`.
    lemma_div_denominator(x as int, 2, v as int);
    lemma_div_denominator(x as int, (2 * v) as int, pow2(k) as int);
    assert((2 * v) * pow2(k) == w) by (nonlinear_arith)
        requires
            w == v * d,
            d == pow2(k) * 2,
    ;
    lemma_div_bounds(x as int, w as int);
    lemma_div_is_ordered_by_denominator(x as int, w as int, y as int);
    if tq >= 1 {
        let p = (tq - 1) as nat;
        // tq * d < 2 * b
        assert(tq * d < 2 * b) by (nonlinear_arith)
            requires
                tq * w <= x,
                x < b * b,
                w == v * d,
                2 * v >= b,
                0 < b,
                0 < d,
        ;
        assert(p * (d - 1) <= w) by (nonlinear_arith)
            requires
                p == tq - 1,
                tq * d < 2 * b,
                w == v * d,
                2 * v >= b,
                d >= 2,
                tq >= 1,
        ;
        assert(p * y <= x) by (nonlinear_arith)
            requires
                p == tq - 1,
                tq * w <= x,
                y <= w + d - 1,
                p * (d - 1) <= w,
                w <= y,
        ;
        lemma_quotient_at_least(x, y, p);
    }
}

/// A number below `2^h` with `s` leading zeros, shifted left by `s`,
/// loses no bit and has its top bit set; and a two-digit dividend whose
/// high digit is below it, shifted alike, keeps its high part below the
/// shifted divisor.
pub proof fn lemma_normalize(lo: nat, hi: nat, y: nat, h: nat, s: nat)
    requires
        0 < h,
        0 < y,
        is_leading_zeros(y, h, s),
        lo < pow2(h),
        hi < y,
    ensures
        s < h,
        (y * pow2(s)) % pow2(h) == y * pow2(s),
        2 * (y * pow2(s)) >= pow2(h),
        y * pow2(s) < pow2(h),
        (hi * pow2(s)) % pow2(h) == hi * pow2(s),
        hi * pow2(s) + lo / pow2((h - s) as nat) < y * pow2(s),
        (hi * pow2(s) + lo / pow2((h - s) as nat)) % pow2(h) == hi * pow2(s) + lo / pow2(
            (h - s) as nat,
        ),
        (lo + pow2(h) * hi) * pow2(s) == (lo * pow2(s)) % pow2(h) + pow2(h) * (hi * pow2(s) + lo
            / pow2((h - s) as nat)),
        0 < pow2(s),
{
    let b = pow2(h);
    let d = pow2(s);
    let carry = lo / pow2((h - s) as nat);
    lemma_pow2_adds((h - 1 - s) as nat, s);
    lemma_pow2_adds((h - s) as nat, s);
    lemma_pow2_adds((h - 1) as nat, 1);
    lemma_pow2_pos(s);
    lemma2_to64();
    assert(y * d >= pow2((h - 1) as nat)) by (nonlinear_arith)
        requires
            y >= pow2((h - 1 - s) as nat),
            pow2((h - 1) as nat) == pow2((h - 1 - s) as nat) * d,
    ;
    assert(y * d < b) by (nonlinear_arith)
        requires
            y < pow2((h - s) as nat),
            b == pow2((h - s) as nat) * d,
            0 < d,
    ;
    assert(hi * d + d <= y * d) by (nonlinear_arith)
        requires
            hi + 1 <= y,
    ;
    lemma_shl_split(lo, h, s);
    lemma_small_mod(y * d, b);
    lemma_small_mod(hi * d, b);
    lemma_small_mod(hi * d + carry, b);
    assert((lo + b * hi) * d == (lo * d) % b + b * (hi * d + carry)) by (nonlinear_arith)
        requires
            lo * d == (lo * d) % b + b * carry,
    ;
}

/// A number with its top bit set, below the square of an even base, has
/// its leading digit at least half the base.
pub proof fn lemma_leading_digit(y: nat, c: nat)
    requires
        0 < c,
        c % 2 == 0,
        2 * y >= c * c,
    ensures
        2 * (y / c) >= c,
{
    lemma_div_bounds(y as int, c as int);
    let k = c / 2;
    if y / c < k {
        assert((y / c + 1) * c <= k * c) by (nonlinear_arith)
            requires
                y / c + 1 <= k,
        ;
        assert(2 * (k * c) == c * c) by (nonlinear_arith)
            requires
                2 * k == c,
        ;
    }
}

/// A number below the square of the digit base, as its two digits.
pub proof fn lemma_split_digits(x: nat, c: nat, b: nat)
    requires
        0 < c,
        b == c * c,
        x < b,
    ensures
        x == c * (x / c) + x % c,
        x / c < c,
        x % c < c,
{
    lemma_fundamental_div_mod(x as int, c as int);
    if x / c >= c {
        assert(c * (x / c) >= c * c) by (nonlinear_arith)
            requires
                x / c >= c,
        ;
    }
}

/// A number with `n` leading zeros in `bits` bits loses no bit when it
/// is shifted left by `n`.
pub proof fn lemma_shift_fits(y: nat, bits: nat, n: nat)
    requires
        0 < y,
        is_leading_zeros(y, bits, n),
    ensures
        (y * pow2(n)) % pow2(bits) == y * pow2(n),
{
    lemma_pow2_adds((bits - n) as nat, n);
    lemma_pow2_pos(n);
    assert(y * pow2(n) < pow2(bits)) by (nonlinear_arith)
        requires
            y < pow2((bits - n) as nat),
            pow2(bits) == pow2((bits - n) as nat) * pow2(n),
            0 < pow2(n),
    ;
    lemma_small_mod(y * pow2(n), pow2(bits));
}

/// Half of a number below `b * b` has its high digit below half of `b`.
pub proof fn lemma_half_below(x: nat, b: nat, high: nat)
    requires
        0 < b,
        x < b * b,
        high == (x / 2) / b,
    ensures
        2 * high < b,
{
    lemma_div_bounds((x / 2) as int, b as int);
    if 2 * high >= b {
        assert(high * b * 2 >= b * b) by (nonlinear_arith)
            requires
                2 * high >= b,
                0 < b,
        ;
    }
}

} // verus!
