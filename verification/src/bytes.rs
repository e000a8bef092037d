//! Byte strings as numbers, in little-endian and big-endian order.
use vstd::arithmetic::power2::{lemma2_to64, lemma_pow2_adds, pow2};
use vstd::prelude::*;

verus! {

/// The number that a byte string stands for with its first byte least
/// significant.
pub open spec fn le_value(bytes: Seq<u8>) -> nat
    decreases bytes.len(),
{
    if bytes.len() == 0 {
        0
    } else {
        bytes[0] as nat + 256 * le_value(bytes.drop_first())
    }
}

/// The number that a byte string stands for with its first byte most
/// significant.
pub open spec fn be_value(bytes: Seq<u8>) -> nat
    decreases bytes.len(),
{
    if bytes.len() == 0 {
        0
    } else {
        be_value(bytes.drop_last()) * 256 + bytes.last() as nat
    }
}

/// A little-endian number is below `2^(8 * length)`.
pub proof fn lemma_le_value_bound(bytes: Seq<u8>)
    ensures
        le_value(bytes) < pow2(8 * bytes.len()),
    decreases bytes.len(),
{
    lemma2_to64();
    if bytes.len() > 0 {
        let rest = bytes.drop_first();
        lemma_le_value_bound(rest);
        lemma_pow2_adds(8, 8 * rest.len());
        assert((bytes[0] as nat) + 256 * le_value(rest) < 256 * pow2(8 * rest.len()))
            by (nonlinear_arith)
            requires
                bytes[0] < 256,
                le_value(rest) + 1 <= pow2(8 * rest.len()),
        ;
    }
}

/// A big-endian number is below `2^(8 * length)`.
pub proof fn lemma_be_value_bound(bytes: Seq<u8>)
    ensures
        be_value(bytes) < pow2(8 * bytes.len()),
    decreases bytes.len(),
{
    lemma2_to64();
    if bytes.len() > 0 {
        let rest = bytes.drop_last();
        lemma_be_value_bound(rest);
        lemma_pow2_adds(8 * rest.len(), 8);
        assert(be_value(rest) * 256 + (bytes.last() as nat) < pow2(8 * rest.len()) * 256)
            by (nonlinear_arith)
            requires
                bytes.last() < 256,
                be_value(rest) + 1 <= pow2(8 * rest.len()),
        ;
    }
}

/// One more byte at the end of a little-endian string counts
/// `2^(8 * length)` times.
pub proof fn lemma_le_value_push(bytes: Seq<u8>, last: u8)
    ensures
        le_value(bytes.push(last)) == le_value(bytes) + pow2(8 * bytes.len()) * last as nat,
    decreases bytes.len(),
{
    lemma2_to64();
    if bytes.len() == 0 {
        assert(bytes.push(last).drop_first() =~= bytes);
        assert(pow2(0) * last as nat == last as nat) by (nonlinear_arith)
            requires
                pow2(0) == 1,
        ;
    } else {
        let rest = bytes.drop_first();
        assert(bytes.push(last).drop_first() =~= rest.push(last));
        lemma_le_value_push(rest, last);
        lemma_pow2_adds(8, 8 * rest.len());
        assert(256 * (pow2(8 * rest.len()) * last as nat) == pow2(8 * bytes.len()) * last as nat)
            by (nonlinear_arith)
            requires
                pow2(8 * bytes.len()) == 256 * pow2(8 * rest.len()),
        ;
    }
}

/// In a little-endian string the bytes after the first `low.len()` count
/// `2^(8 * low.len())` times.
pub proof fn lemma_le_value_concat(low: Seq<u8>, high: Seq<u8>)
    ensures
        le_value(low + high) == le_value(low) + pow2(8 * low.len()) * le_value(high),
    decreases high.len(),
{
    if high.len() == 0 {
        assert(pow2(8 * low.len()) * 0 == 0) by (nonlinear_arith);
    } else {
        let front = high.drop_last();
        let last = high.last();
        assert(high =~= front.push(last));
        lemma_le_value_concat(low, front);
        lemma_le_value_push(low + front, last);
        lemma_le_value_push(front, last);
        lemma_pow2_adds(8 * low.len(), 8 * front.len());
        let b = pow2(8 * low.len());
        let c = pow2(8 * front.len());
        let digit = last as nat;
        assert(b * (le_value(front) + c * digit) == b * le_value(front) + (b * c) * digit)
            by (nonlinear_arith);
    }
}

/// One more byte at the front of a big-endian string counts
/// `2^(8 * length)` times.
pub proof fn lemma_be_value_front(first: u8, bytes: Seq<u8>)
    ensures
        be_value(seq![first] + bytes) == pow2(8 * bytes.len()) * first as nat + be_value(bytes),
    decreases bytes.len(),
{
    lemma2_to64();
    if bytes.len() == 0 {
        assert(be_value(seq![first].drop_last()) == 0);
        assert(pow2(0) * first as nat == first as nat) by (nonlinear_arith)
            requires
                pow2(0) == 1,
        ;
    } else {
        let front = bytes.drop_last();
        assert((seq![first] + bytes).drop_last() =~= seq![first] + front);
        lemma_be_value_front(first, front);
        lemma_pow2_adds(8 * front.len(), 8);
        assert((pow2(8 * front.len()) * first as nat) * 256 == pow2(8 * bytes.len()) * first as nat)
            by (nonlinear_arith)
            requires
                pow2(8 * bytes.len()) == pow2(8 * front.len()) * 256,
        ;
    }
}

/// In a big-endian string the bytes before the last `low.len()` count
/// `2^(8 * low.len())` times.
pub proof fn lemma_be_value_concat(high: Seq<u8>, low: Seq<u8>)
    ensures
        be_value(high + low) == pow2(8 * low.len()) * be_value(high) + be_value(low),
    decreases low.len(),
{
    if low.len() == 0 {
        lemma2_to64();
        assert(pow2(0) * be_value(high) == be_value(high)) by (nonlinear_arith)
            requires
                pow2(0) == 1,
        ;
    } else {
        let front = low.drop_last();
        assert((high + low).drop_last() =~= high + front);
        lemma_be_value_concat(high, front);
        lemma_pow2_adds(8 * front.len(), 8);
        lemma2_to64();
        assert((pow2(8 * front.len()) * be_value(high) + be_value(front)) * 256 == pow2(
            8 * low.len(),
        ) * be_value(high) + be_value(front) * 256) by (nonlinear_arith)
            requires
                pow2(8 * low.len()) == pow2(8 * front.len()) * 256,
        ;
    }
}

} // verus!
