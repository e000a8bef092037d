//! Facts about the machine integers that the narrow element types wrap:
//! how shifts, masks and `leading_zeros` read as arithmetic on numbers.
use crate::element::{bit, is_leading_zeros, to_signed};
use crate::modular::lemma_div_bounds;
use vstd::arithmetic::div_mod::{lemma_fundamental_div_mod_converse, lemma_mul_mod_noop_left};
use vstd::arithmetic::mul::lemma_mul_is_associative;
use vstd::arithmetic::power2::{
    lemma2_to64, lemma2_to64_rest, lemma_pow2_adds, lemma_pow2_pos, lemma_pow2_strictly_increases,
    pow2,
};
use vstd::bits::{lemma_u128_shr_is_div, lemma_u64_shr_is_div};
use vstd::prelude::*;
use vstd::std_specs::bits::{axiom_u64_leading_zeros, u64_leading_zeros};

verus! {

/// `2^128` as a literal.
pub proof fn lemma_pow2_128()
    ensures
        pow2(128) == 0x1_0000_0000_0000_0000_0000_0000_0000_0000int,
        pow2(127) == 0x8000_0000_0000_0000_0000_0000_0000_0000,
{
    lemma2_to64_rest();
    lemma_pow2_adds(64, 64);
    lemma_pow2_adds(64, 63);
}

/// `leading_zeros` of a `u64`, read as bounds by powers of two.
pub proof fn lemma_u64_leading_zeros(x: u64)
    ensures
        is_leading_zeros(x as nat, 64, u64_leading_zeros(x) as nat),
{
    axiom_u64_leading_zeros(x);
    lemma2_to64_rest();
    let lz = u64_leading_zeros(x);
    if x != 0 {
        let top: u64 = (63 - lz) as u64;
        let y: u64 = x >> top;
        assert(y & 1u64 != 0u64 ==> y != 0u64) by (bit_vector);
        lemma_u64_shr_is_div(x, top);
        lemma_pow2_pos(top as nat);
        lemma_div_bounds(x as int, pow2(top as nat) as int);
        if lz > 0 {
            let above: u64 = (64 - lz) as u64;
            lemma_u64_shr_is_div(x, above);
            lemma_pow2_pos(above as nat);
            lemma_div_bounds(x as int, pow2(above as nat) as int);
        }
    }
}

/// Leading zeros counted in 64 bits, recounted in a narrower field that
/// the value fits.
pub proof fn lemma_leading_zeros_narrow(v: nat, bits: nat, r: nat)
    requires
        is_leading_zeros(v, 64, r),
        0 < bits <= 64,
        v < pow2(bits),
    ensures
        r >= 64 - bits,
        is_leading_zeros(v, bits, (r - (64 - bits)) as nat),
{
    if v != 0 {
        if r < 64 - bits {
            if bits < 63 - r {
                lemma_pow2_strictly_increases(bits, (63 - r) as nat);
            }
        }
    }
}

/// Shifting a `u128` left by `n` multiplies by `2^n` modulo `2^128`.
pub proof fn lemma_u128_shl(x: u128, n: u32)
    requires
        n < 128,
    ensures
        (x << n) == (x * pow2(n as nat)) % 0x1_0000_0000_0000_0000_0000_0000_0000_0000int,
    decreases n,
{
    let m: int = 0x1_0000_0000_0000_0000_0000_0000_0000_0000int;
    lemma2_to64();
    if n == 0 {
        assert(x << 0u32 == x) by (bit_vector);
        assert(x * pow2(0) == x) by (nonlinear_arith)
            requires
                pow2(0) == 1,
        ;
    } else {
        let k: u32 = (n - 1) as u32;
        let y: u128 = x << k;
        assert(x << n == (x << k) << 1u32) by (bit_vector)
            requires
                0 < n < 128,
                k == n - 1,
        ;
        assert(y << 1u32 == (y % 0x8000_0000_0000_0000_0000_0000_0000_0000) * 2) by (bit_vector);
        lemma_u128_shl(x, k);
        lemma_mul_mod_noop_left(x * pow2(k as nat), 2, m);
        lemma_pow2_adds(k as nat, 1);
        lemma_mul_is_associative(x as int, pow2(k as nat) as int, 2);
    }
}

/// Shifting a `u128` right by `n` divides by `2^n`.
pub proof fn lemma_u128_shr(x: u128, n: u32)
    requires
        n < 128,
    ensures
        (x >> n) == x as nat / pow2(n as nat),
{
    lemma_u128_shr_is_div(x, n as u128);
    assert(x >> n == x >> (n as u128)) by (bit_vector);
}

/// Shifting a `u64` left by `n` multiplies by `2^n` modulo `2^64`.
pub proof fn lemma_u64_shl(x: u64, n: u32)
    requires
        n < 64,
    ensures
        (x << n) == (x as nat * pow2(n as nat)) % pow2(64),
{
    lemma2_to64();
    let wide: u128 = x as u128;
    assert((x << n) as u128 == (wide << n) % 0x1_0000_0000_0000_0000u128) by (bit_vector)
        requires
            n < 64,
            wide == x as u128,
    ;
    lemma_shl_through_u128(x as u128, n, 64);
}

/// Shifting a `u32` left by `n` multiplies by `2^n` modulo `2^32`.
pub proof fn lemma_u32_shl(x: u32, n: u32)
    requires
        n < 32,
    ensures
        (x << n) == (x as nat * pow2(n as nat)) % pow2(32),
{
    lemma2_to64();
    let wide: u128 = x as u128;
    assert((x << n) as u128 == (wide << n) % 0x1_0000_0000u128) by (bit_vector)
        requires
            n < 32,
            wide == x as u128,
    ;
    lemma_shl_through_u128(x as u128, n, 32);
}

/// Shifting a `u16` left by `n` multiplies by `2^n` modulo `2^16`.
pub proof fn lemma_u16_shl(x: u16, n: u32)
    requires
        n < 16,
    ensures
        (x << n) == (x as nat * pow2(n as nat)) % pow2(16),
{
    lemma2_to64();
    let wide: u128 = x as u128;
    assert((x << n) as u128 == (wide << n) % 0x1_0000u128) by (bit_vector)
        requires
            n < 16,
            wide == x as u128,
    ;
    lemma_shl_through_u128(x as u128, n, 16);
}

/// Shifting a `u8` left by `n` multiplies by `2^n` modulo `2^8`.
pub proof fn lemma_u8_shl(x: u8, n: u32)
    requires
        n < 8,
    ensures
        (x << n) == (x as nat * pow2(n as nat)) % pow2(8),
{
    lemma2_to64();
    let wide: u128 = x as u128;
    assert((x << n) as u128 == (wide << n) % 0x100u128) by (bit_vector)
        requires
            n < 8,
            wide == x as u128,
    ;
    lemma_shl_through_u128(x as u128, n, 8);
}

/// A value of at most 64 bits, shifted left inside a `u128` by less than
/// 64, is the exact product with `2^n`.
proof fn lemma_shl_through_u128(x: u128, n: u32, bits: nat)
    requires
        bits <= 64,
        n < bits,
        x < pow2(bits),
    ensures
        (x << n) == x as nat * pow2(n as nat),
        pow2(bits) <= 0x1_0000_0000_0000_0000,
{
    lemma2_to64_rest();
    if bits < 64 {
        lemma_pow2_strictly_increases(bits, 64);
    }
    lemma_pow2_strictly_increases(n as nat, 64);
    assert(x * pow2(n as nat) < 0x1_0000_0000_0000_0000 * 0x1_0000_0000_0000_0000)
        by (nonlinear_arith)
        requires
            x < 0x1_0000_0000_0000_0000,
            pow2(n as nat) < 0x1_0000_0000_0000_0000,
    ;
    lemma_u128_shl(x, n);
}

/// The arithmetic shift of a negative pattern, computed on the
/// complement: the two's-complement reading is divided by `2^n`, rounding
/// down.
pub proof fn lemma_sra_by_complement(v: nat, bits: nat, n: nat)
    requires
        0 < bits,
        v < pow2(bits),
        2 * v >= pow2(bits),
    ensures
        (pow2(bits) - 1 - v) / (pow2(n) as int) <= pow2(bits) - 1 - v,
        to_signed((pow2(bits) - 1 - (pow2(bits) - 1 - v) / (pow2(n) as int)) as nat, bits)
            == to_signed(v, bits) / (pow2(n) as int),
        n >= bits - 1 ==> (pow2(bits) - 1 - v) / (pow2(n) as int) == 0,
{
    let m: int = pow2(bits) as int;
    let d: int = pow2(n) as int;
    let t: int = m - v;
    lemma_pow2_pos(n);
    lemma_div_bounds(t - 1, d);
    let q: int = (t - 1) / d;
    let r: int = (t - 1) % d;
    assert(-t == (-q - 1) * d + (d - r - 1)) by (nonlinear_arith)
        requires
            t - 1 == d * q + r,
    ;
    lemma_fundamental_div_mod_converse(-t, d, -q - 1, d - r - 1);
    lemma_pow2_adds((bits - 1) as nat, 1);
    lemma2_to64();
    if n >= bits - 1 {
        if n > bits - 1 {
            lemma_pow2_strictly_increases((bits - 1) as nat, n);
        }
    }
}

/// The logical shift of a non-negative pattern divides its
/// two's-complement reading too.
pub proof fn lemma_sra_non_negative(v: nat, bits: nat, n: nat)
    requires
        0 < bits,
        2 * v < pow2(bits),
    ensures
        to_signed(v / pow2(n), bits) == to_signed(v, bits) / (pow2(n) as int),
        n >= bits - 1 ==> v / pow2(n) == 0,
{
    lemma_pow2_pos(n);
    lemma_div_bounds(v as int, pow2(n) as int);
    lemma_pow2_adds((bits - 1) as nat, 1);
    lemma2_to64();
    if n >= bits - 1 {
        if n > bits - 1 {
            lemma_pow2_strictly_increases((bits - 1) as nat, n);
        }
    }
}

/// `!` on a `u64` is subtraction from the all-ones pattern.
pub proof fn lemma_u64_not(x: u64)
    ensures
        !x == u64::MAX - x,
{
    assert(!x == 0xffff_ffff_ffff_ffffu64 - x) by (bit_vector);
}

/// `!` on a `u32` is subtraction from the all-ones pattern.
pub proof fn lemma_u32_not(x: u32)
    ensures
        !x == u32::MAX - x,
{
    assert(!x == 0xffff_ffffu32 - x) by (bit_vector);
}

/// `!` on a `u16` is subtraction from the all-ones pattern.
pub proof fn lemma_u16_not(x: u16)
    ensures
        !x == u16::MAX - x,
{
    assert(!x == 0xffffu16 - x) by (bit_vector);
}

/// `!` on a `u8` is subtraction from the all-ones pattern.
pub proof fn lemma_u8_not(x: u8)
    ensures
        !x == u8::MAX - x,
{
    assert(!x == 0xffu8 - x) by (bit_vector);
}

/// `!` on a `u128` is subtraction from the all-ones pattern.
pub proof fn lemma_u128_not(x: u128)
    ensures
        !x == u128::MAX - x,
{
    assert(!x == 0xffff_ffff_ffff_ffff_ffff_ffff_ffff_ffffu128 - x) by (bit_vector);
}

/// Bit `i` of a `u128`, read off by a shift.
proof fn lemma_u128_bit(x: u128, i: u32)
    requires
        i < 128,
    ensures
        bit(x as nat, i as nat) == ((x >> i) % 2 == 1),
{
    lemma_u128_shr(x, i);
}

/// `&` on machine integers is the conjunction of the bits.
pub proof fn lemma_bit_and(a: u128, b: u128)
    ensures
        forall|i: nat|
            i < 128 ==> #[trigger] bit((a & b) as nat, i) == (bit(a as nat, i) && bit(b as nat, i)),
{
    assert forall|i: nat| i < 128 implies #[trigger] bit((a & b) as nat, i) == (bit(a as nat, i)
        && bit(b as nat, i)) by {
        let s: u32 = i as u32;
        assert((((a & b) >> s) % 2 == 1) == (((a >> s) % 2 == 1) && ((b >> s) % 2 == 1)))
            by (bit_vector)
            requires
                s < 128,
        ;
        lemma_u128_bit(a & b, s);
        lemma_u128_bit(a, s);
        lemma_u128_bit(b, s);
    }
}

/// `|` on machine integers is the disjunction of the bits.
pub proof fn lemma_bit_or(a: u128, b: u128)
    ensures
        forall|i: nat|
            i < 128 ==> #[trigger] bit((a | b) as nat, i) == (bit(a as nat, i) || bit(b as nat, i)),
{
    assert forall|i: nat| i < 128 implies #[trigger] bit((a | b) as nat, i) == (bit(a as nat, i)
        || bit(b as nat, i)) by {
        let s: u32 = i as u32;
        assert((((a | b) >> s) % 2 == 1) == (((a >> s) % 2 == 1) || ((b >> s) % 2 == 1)))
            by (bit_vector)
            requires
                s < 128,
        ;
        lemma_u128_bit(a | b, s);
        lemma_u128_bit(a, s);
        lemma_u128_bit(b, s);
    }
}

/// `^` on machine integers is the exclusive disjunction of the bits.
pub proof fn lemma_bit_xor(a: u128, b: u128)
    ensures
        forall|i: nat|
            i < 128 ==> #[trigger] bit((a ^ b) as nat, i) == (bit(a as nat, i) != bit(b as nat, i)),
{
    assert forall|i: nat| i < 128 implies #[trigger] bit((a ^ b) as nat, i) == (bit(a as nat, i)
        != bit(b as nat, i)) by {
        let s: u32 = i as u32;
        assert((((a ^ b) >> s) % 2 == 1) == (((a >> s) % 2 == 1) != ((b >> s) % 2 == 1)))
            by (bit_vector)
            requires
                s < 128,
        ;
        lemma_u128_bit(a ^ b, s);
        lemma_u128_bit(a, s);
        lemma_u128_bit(b, s);
    }
}

} // verus!
