//! Arithmetic modulo a positive number, in the forms that the element
//! operations need.
use vstd::arithmetic::div_mod::{
    lemma_fundamental_div_mod, lemma_fundamental_div_mod_converse, lemma_mod_multiples_vanish,
    lemma_small_mod,
};
use vstd::prelude::*;
use vstd::prelude::*;

verus! {

/// A sum of two residues wraps at most once.
pub proof fn lemma_wrap_add(a: nat, b: nat, m: nat)
    requires
        a < m,
        b < m,
    ensures
        (a + b) % m == (if a + b >= m {
            a + b - m
        } else {
            (a + b) as int
        }),
{
    if a + b >= m {
        lemma_fundamental_div_mod_converse((a + b) as int, m as int, 1, a + b - m);
    } else {
        lemma_small_mod(a + b, m);
    }
}

/// A difference of two residues wraps at most once.
pub proof fn lemma_wrap_sub(a: nat, b: nat, m: nat)
    requires
        a < m,
        b < m,
    ensures
        (a - b) % (m as int) == (if a < b {
            a - b + m
        } else {
            a - b
        }),
{
    if a < b {
        lemma_fundamental_div_mod_converse(a - b, m as int, -1, a - b + m);
    } else {
        lemma_small_mod((a - b) as nat, m);
    }
}

/// The negation of a residue.
pub proof fn lemma_wrap_neg(a: nat, m: nat)
    requires
        a < m,
    ensures
        (-(a as int)) % (m as int) == (if a == 0 {
            0
        } else {
            m - a
        }),
{
    if a == 0 {
        lemma_small_mod(0, m);
    } else {
        lemma_fundamental_div_mod_converse(-(a as int), m as int, -1, m - a);
    }
}

/// Quotient and remainder are the only pair that recomposes the
/// dividend with a remainder below the divisor.
pub proof fn lemma_div_mod_unique(x: int, d: int, q: int, r: int)
    requires
        0 < d,
        0 <= r < d,
        x == q * d + r,
    ensures
        x / d == q,
        x % d == r,
{
    lemma_fundamental_div_mod_converse(x, d, q, r);
}

/// Adding a multiple of the modulus changes nothing.
pub proof fn lemma_mod_add_multiple(x: int, k: int, m: int)
    requires
        0 < m,
    ensures
        (x + k * m) % m == x % m,
{
    lemma_mod_multiples_vanish(k, x, m);
    assert(m * k + x == x + k * m) by (nonlinear_arith);
}

/// Two numbers that differ by a multiple of the modulus have the same
/// residue.
pub proof fn lemma_mod_congruent(x: int, y: int, k: int, m: int)
    requires
        0 < m,
        x == y + k * m,
    ensures
        x % m == y % m,
{
    lemma_mod_add_multiple(y, k, m);
}

/// A quotient is zero only below the divisor, and at least one only from
/// the divisor on.
pub proof fn lemma_div_bounds(x: int, d: int)
    requires
        0 <= x,
        0 < d,
    ensures
        x / d == 0 <==> x < d,
        0 <= x / d <= x,
        x / d * d <= x < (x / d + 1) * d,
{
    lemma_fundamental_div_mod(x, d);
    assert(x / d * d == d * (x / d)) by (nonlinear_arith);
    assert((x / d + 1) * d == d * (x / d) + d) by (nonlinear_arith);
    if x / d < 0 {
        assert(d * (x / d) <= -d) by (nonlinear_arith)
            requires
                x / d <= -1,
                d > 0,
        ;
    }
    if x / d > x {
        assert(d * (x / d) >= x / d) by (nonlinear_arith)
            requires
                x / d >= 0,
                d >= 1,
        ;
    }
    if x / d == 0 {
        assert(d * (x / d) == 0) by (nonlinear_arith)
            requires
                x / d == 0,
        ;
    }
    if x / d >= 1 {
        assert(d * (x / d) >= d) by (nonlinear_arith)
            requires
                x / d >= 1,
                d > 0,
        ;
    }
}

/// The residue of the negative number `-(below + 1)`: the complement of
/// the residue of `below`.
pub proof fn lemma_negative_residue(below: nat, m: nat)
    requires
        0 < m,
    ensures
        (-(below + 1)) % (m as int) == m - 1 - below % m,
{
    lemma_fundamental_div_mod(below as int, m as int);
    let q = below as int / m as int;
    let r = below as int % m as int;
    assert(-(below + 1) == (-q - 1) * m + (m - 1 - r)) by (nonlinear_arith)
        requires
            below == m * q + r,
    ;
    lemma_fundamental_div_mod_converse(-(below + 1), m as int, -q - 1, m - 1 - r);
}

} // verus!
