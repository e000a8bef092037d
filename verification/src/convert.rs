//! Conversions from the machine integers and from narrower elements.
//! An unsigned source keeps its value; a signed source is sign-extended.
use crate::element::{to_signed, wrap, Element, Half};
use crate::modular::lemma_mod_congruent;
use crate::native::lemma_pow2_128;
use crate::ops::{from_value, lemma_from_value};
use crate::quadword::{lemma_u128_bits, U128};
use crate::wide::{lemma_wide_bits, U1024, U256, U512, Wide};
use vstd::arithmetic::div_mod::lemma_small_mod;
use vstd::arithmetic::power2::{lemma_pow2_strictly_increases, pow2};
use vstd::prelude::*;
use vstd::std_specs::convert::FromSpecImpl;

verus! {

/// In a type of at least 128 bits, a `u128` keeps its value and an
/// `i128` is the two's-complement reading of its pattern.
proof fn lemma_fits(bits: nat, u: u128, i: i128)
    requires
        128 <= bits,
    ensures
        u as nat % pow2(bits) == u,
        to_signed(wrap(i as int, bits), bits) == i,
{
    lemma_pow2_128();
    if bits > 128 {
        lemma_pow2_strictly_increases(128, bits);
    }
    let m = pow2(bits);
    lemma_small_mod(u as nat, m);
    if i >= 0 {
        lemma_small_mod(i as nat, m);
    } else {
        lemma_mod_congruent(i as int, i + m, -1, m as int);
        lemma_small_mod((i + m) as nat, m);
    }
}

impl From<bool> for U128 {
    /// The element with the value of `small`.
    fn from(small: bool) -> (r: U128)
        ensures
            r.value() == (if small {
                1nat
            } else {
                0nat
            }),
    {
        let x: u128 = if small {
            1
        } else {
            0
        };
        let r = Self::from_u128(x);
        proof {
            lemma_u128_bits();
            lemma_fits(Self::BITS as nat, x, 0);
        }
        r
    }
}

impl FromSpecImpl<bool> for U128 {
    open spec fn obeys_from_spec() -> bool {
        true
    }

    open spec fn from_spec(small: bool) -> U128 {
        from_value(if small {
            1
        } else {
            0
        })
    }
}

impl From<u8> for U128 {
    /// The element with the value of `small`.
    fn from(small: u8) -> (r: U128)
        ensures
            r.value() == small as nat,
    {
        let x: u128 = small as u128;
        let r = Self::from_u128(x);
        proof {
            lemma_u128_bits();
            lemma_fits(Self::BITS as nat, x, 0);
        }
        r
    }
}

impl FromSpecImpl<u8> for U128 {
    open spec fn obeys_from_spec() -> bool {
        true
    }

    open spec fn from_spec(small: u8) -> U128 {
        from_value(small as nat)
    }
}

impl From<u16> for U128 {
    /// The element with the value of `small`.
    fn from(small: u16) -> (r: U128)
        ensures
            r.value() == small as nat,
    {
        let x: u128 = small as u128;
        let r = Self::from_u128(x);
        proof {
            lemma_u128_bits();
            lemma_fits(Self::BITS as nat, x, 0);
        }
        r
    }
}

impl FromSpecImpl<u16> for U128 {
    open spec fn obeys_from_spec() -> bool {
        true
    }

    open spec fn from_spec(small: u16) -> U128 {
        from_value(small as nat)
    }
}

impl From<u32> for U128 {
    /// The element with the value of `small`.
    fn from(small: u32) -> (r: U128)
        ensures
            r.value() == small as nat,
    {
        let x: u128 = small as u128;
        let r = Self::from_u128(x);
        proof {
            lemma_u128_bits();
            lemma_fits(Self::BITS as nat, x, 0);
        }
        r
    }
}

impl FromSpecImpl<u32> for U128 {
    open spec fn obeys_from_spec() -> bool {
        true
    }

    open spec fn from_spec(small: u32) -> U128 {
        from_value(small as nat)
    }
}

impl From<u64> for U128 {
    /// The element with the value of `small`.
    fn from(small: u64) -> (r: U128)
        ensures
            r.value() == small as nat,
    {
        let x: u128 = small as u128;
        let r = Self::from_u128(x);
        proof {
            lemma_u128_bits();
            lemma_fits(Self::BITS as nat, x, 0);
        }
        r
    }
}

impl FromSpecImpl<u64> for U128 {
    open spec fn obeys_from_spec() -> bool {
        true
    }

    open spec fn from_spec(small: u64) -> U128 {
        from_value(small as nat)
    }
}

impl From<u128> for U128 {
    /// The element with the value of `small`.
    fn from(small: u128) -> (r: U128)
        ensures
            r.value() == small as nat,
    {
        let x: u128 = small as u128;
        let r = Self::from_u128(x);
        proof {
            lemma_u128_bits();
            lemma_fits(Self::BITS as nat, x, 0);
        }
        r
    }
}

impl FromSpecImpl<u128> for U128 {
    open spec fn obeys_from_spec() -> bool {
        true
    }

    open spec fn from_spec(small: u128) -> U128 {
        from_value(small as nat)
    }
}

impl From<i8> for U128 {
    /// The element that reads as `small` in two's complement: `small`, sign-extended.
    fn from(small: i8) -> (r: U128)
        ensures
            to_signed(r.value(), Self::BITS as nat) == small,
    {
        let r = Self::from_i128(small as i128);
        proof {
            lemma_u128_bits();
            lemma_fits(Self::BITS as nat, 0, small as i128);
        }
        r
    }
}

impl FromSpecImpl<i8> for U128 {
    open spec fn obeys_from_spec() -> bool {
        true
    }

    open spec fn from_spec(small: i8) -> U128 {
        from_value(wrap(small as int, Self::BITS as nat))
    }
}

impl From<i16> for U128 {
    /// The element that reads as `small` in two's complement: `small`, sign-extended.
    fn from(small: i16) -> (r: U128)
        ensures
            to_signed(r.value(), Self::BITS as nat) == small,
    {
        let r = Self::from_i128(small as i128);
        proof {
            lemma_u128_bits();
            lemma_fits(Self::BITS as nat, 0, small as i128);
        }
        r
    }
}

impl FromSpecImpl<i16> for U128 {
    open spec fn obeys_from_spec() -> bool {
        true
    }

    open spec fn from_spec(small: i16) -> U128 {
        from_value(wrap(small as int, Self::BITS as nat))
    }
}

impl From<i32> for U128 {
    /// The element that reads as `small` in two's complement: `small`, sign-extended.
    fn from(small: i32) -> (r: U128)
        ensures
            to_signed(r.value(), Self::BITS as nat) == small,
    {
        let r = Self::from_i128(small as i128);
        proof {
            lemma_u128_bits();
            lemma_fits(Self::BITS as nat, 0, small as i128);
        }
        r
    }
}

impl FromSpecImpl<i32> for U128 {
    open spec fn obeys_from_spec() -> bool {
        true
    }

    open spec fn from_spec(small: i32) -> U128 {
        from_value(wrap(small as int, Self::BITS as nat))
    }
}

impl From<i64> for U128 {
    /// The element that reads as `small` in two's complement: `small`, sign-extended.
    fn from(small: i64) -> (r: U128)
        ensures
            to_signed(r.value(), Self::BITS as nat) == small,
    {
        let r = Self::from_i128(small as i128);
        proof {
            lemma_u128_bits();
            lemma_fits(Self::BITS as nat, 0, small as i128);
        }
        r
    }
}

impl FromSpecImpl<i64> for U128 {
    open spec fn obeys_from_spec() -> bool {
        true
    }

    open spec fn from_spec(small: i64) -> U128 {
        from_value(wrap(small as int, Self::BITS as nat))
    }
}

impl From<i128> for U128 {
    /// The element that reads as `small` in two's complement: `small`, sign-extended.
    fn from(small: i128) -> (r: U128)
        ensures
            to_signed(r.value(), Self::BITS as nat) == small,
    {
        let r = Self::from_i128(small as i128);
        proof {
            lemma_u128_bits();
            lemma_fits(Self::BITS as nat, 0, small as i128);
        }
        r
    }
}

impl FromSpecImpl<i128> for U128 {
    open spec fn obeys_from_spec() -> bool {
        true
    }

    open spec fn from_spec(small: i128) -> U128 {
        from_value(wrap(small as int, Self::BITS as nat))
    }
}

impl<H: Half> From<bool> for Wide<H> {
    /// The element with the value of `small`.
    fn from(small: bool) -> (r: Wide<H>)
        ensures
            r.value() == (if small {
                1nat
            } else {
                0nat
            }),
    {
        let x: u128 = if small {
            1
        } else {
            0
        };
        let r = Self::from_u128(x);
        proof {
            lemma_wide_bits::<H>();
            lemma_fits(Self::BITS as nat, x, 0);
            lemma_from_value(r);
        }
        r
    }
}

impl<H: Half> FromSpecImpl<bool> for Wide<H> {
    open spec fn obeys_from_spec() -> bool {
        true
    }

    open spec fn from_spec(small: bool) -> Wide<H> {
        from_value(if small {
            1
        } else {
            0
        })
    }
}

impl<H: Half> From<u8> for Wide<H> {
    /// The element with the value of `small`.
    fn from(small: u8) -> (r: Wide<H>)
        ensures
            r.value() == small as nat,
    {
        let x: u128 = small as u128;
        let r = Self::from_u128(x);
        proof {
            lemma_wide_bits::<H>();
            lemma_fits(Self::BITS as nat, x, 0);
            lemma_from_value(r);
        }
        r
    }
}

impl<H: Half> FromSpecImpl<u8> for Wide<H> {
    open spec fn obeys_from_spec() -> bool {
        true
    }

    open spec fn from_spec(small: u8) -> Wide<H> {
        from_value(small as nat)
    }
}

impl<H: Half> From<u16> for Wide<H> {
    /// The element with the value of `small`.
    fn from(small: u16) -> (r: Wide<H>)
        ensures
            r.value() == small as nat,
    {
        let x: u128 = small as u128;
        let r = Self::from_u128(x);
        proof {
            lemma_wide_bits::<H>();
            lemma_fits(Self::BITS as nat, x, 0);
            lemma_from_value(r);
        }
        r
    }
}

impl<H: Half> FromSpecImpl<u16> for Wide<H> {
    open spec fn obeys_from_spec() -> bool {
        true
    }

    open spec fn from_spec(small: u16) -> Wide<H> {
        from_value(small as nat)
    }
}

impl<H: Half> From<u32> for Wide<H> {
    /// The element with the value of `small`.
    fn from(small: u32) -> (r: Wide<H>)
        ensures
            r.value() == small as nat,
    {
        let x: u128 = small as u128;
        let r = Self::from_u128(x);
        proof {
            lemma_wide_bits::<H>();
            lemma_fits(Self::BITS as nat, x, 0);
            lemma_from_value(r);
        }
        r
    }
}

impl<H: Half> FromSpecImpl<u32> for Wide<H> {
    open spec fn obeys_from_spec() -> bool {
        true
    }

    open spec fn from_spec(small: u32) -> Wide<H> {
        from_value(small as nat)
    }
}

impl<H: Half> From<u64> for Wide<H> {
    /// The element with the value of `small`.
    fn from(small: u64) -> (r: Wide<H>)
        ensures
            r.value() == small as nat,
    {
        let x: u128 = small as u128;
        let r = Self::from_u128(x);
        proof {
            lemma_wide_bits::<H>();
            lemma_fits(Self::BITS as nat, x, 0);
            lemma_from_value(r);
        }
        r
    }
}

impl<H: Half> FromSpecImpl<u64> for Wide<H> {
    open spec fn obeys_from_spec() -> bool {
        true
    }

    open spec fn from_spec(small: u64) -> Wide<H> {
        from_value(small as nat)
    }
}

impl<H: Half> From<u128> for Wide<H> {
    /// The element with the value of `small`.
    fn from(small: u128) -> (r: Wide<H>)
        ensures
            r.value() == small as nat,
    {
        let x: u128 = small as u128;
        let r = Self::from_u128(x);
        proof {
            lemma_wide_bits::<H>();
            lemma_fits(Self::BITS as nat, x, 0);
            lemma_from_value(r);
        }
        r
    }
}

impl<H: Half> FromSpecImpl<u128> for Wide<H> {
    open spec fn obeys_from_spec() -> bool {
        true
    }

    open spec fn from_spec(small: u128) -> Wide<H> {
        from_value(small as nat)
    }
}

impl<H: Half> From<i8> for Wide<H> {
    /// The element that reads as `small` in two's complement: `small`, sign-extended.
    fn from(small: i8) -> (r: Wide<H>)
        ensures
            to_signed(r.value(), Self::BITS as nat) == small,
    {
        let r = Self::from_i128(small as i128);
        proof {
            lemma_wide_bits::<H>();
            lemma_fits(Self::BITS as nat, 0, small as i128);
            lemma_from_value(r);
        }
        r
    }
}

impl<H: Half> FromSpecImpl<i8> for Wide<H> {
    open spec fn obeys_from_spec() -> bool {
        true
    }

    open spec fn from_spec(small: i8) -> Wide<H> {
        from_value(wrap(small as int, Self::BITS as nat))
    }
}

impl<H: Half> From<i16> for Wide<H> {
    /// The element that reads as `small` in two's complement: `small`, sign-extended.
    fn from(small: i16) -> (r: Wide<H>)
        ensures
            to_signed(r.value(), Self::BITS as nat) == small,
    {
        let r = Self::from_i128(small as i128);
        proof {
            lemma_wide_bits::<H>();
            lemma_fits(Self::BITS as nat, 0, small as i128);
            lemma_from_value(r);
        }
        r
    }
}

impl<H: Half> FromSpecImpl<i16> for Wide<H> {
    open spec fn obeys_from_spec() -> bool {
        true
    }

    open spec fn from_spec(small: i16) -> Wide<H> {
        from_value(wrap(small as int, Self::BITS as nat))
    }
}

impl<H: Half> From<i32> for Wide<H> {
    /// The element that reads as `small` in two's complement: `small`, sign-extended.
    fn from(small: i32) -> (r: Wide<H>)
        ensures
            to_signed(r.value(), Self::BITS as nat) == small,
    {
        let r = Self::from_i128(small as i128);
        proof {
            lemma_wide_bits::<H>();
            lemma_fits(Self::BITS as nat, 0, small as i128);
            lemma_from_value(r);
        }
        r
    }
}

impl<H: Half> FromSpecImpl<i32> for Wide<H> {
    open spec fn obeys_from_spec() -> bool {
        true
    }

    open spec fn from_spec(small: i32) -> Wide<H> {
        from_value(wrap(small as int, Self::BITS as nat))
    }
}

impl<H: Half> From<i64> for Wide<H> {
    /// The element that reads as `small` in two's complement: `small`, sign-extended.
    fn from(small: i64) -> (r: Wide<H>)
        ensures
            to_signed(r.value(), Self::BITS as nat) == small,
    {
        let r = Self::from_i128(small as i128);
        proof {
            lemma_wide_bits::<H>();
            lemma_fits(Self::BITS as nat, 0, small as i128);
            lemma_from_value(r);
        }
        r
    }
}

impl<H: Half> FromSpecImpl<i64> for Wide<H> {
    open spec fn obeys_from_spec() -> bool {
        true
    }

    open spec fn from_spec(small: i64) -> Wide<H> {
        from_value(wrap(small as int, Self::BITS as nat))
    }
}

impl<H: Half> From<i128> for Wide<H> {
    /// The element that reads as `small` in two's complement: `small`, sign-extended.
    fn from(small: i128) -> (r: Wide<H>)
        ensures
            to_signed(r.value(), Self::BITS as nat) == small,
    {
        let r = Self::from_i128(small as i128);
        proof {
            lemma_wide_bits::<H>();
            lemma_fits(Self::BITS as nat, 0, small as i128);
            lemma_from_value(r);
        }
        r
    }
}

impl<H: Half> FromSpecImpl<i128> for Wide<H> {
    open spec fn obeys_from_spec() -> bool {
        true
    }

    open spec fn from_spec(small: i128) -> Wide<H> {
        from_value(wrap(small as int, Self::BITS as nat))
    }
}

impl<H: Half> From<H> for Wide<H> {
    /// The wide integer with the value of `small`.
    fn from(small: H) -> (r: Wide<H>)
        ensures
            r.value() == small.value(),
    {
        let r = Wide::from_half(small);
        proof {
            lemma_from_value(r.hi);
        }
        r
    }
}

impl<H: Half> FromSpecImpl<H> for Wide<H> {
    open spec fn obeys_from_spec() -> bool {
        true
    }

    open spec fn from_spec(small: H) -> Wide<H> {
        Wide { lo: small, hi: from_value(0) }
    }
}

impl From<U128> for U512 {
    /// The wide integer with the value of `small`.
    fn from(small: U128) -> (r: U512)
        ensures
            r.value() == small.value(),
    {
        let r = Wide::from_half(U256::from_half(small));
        proof {
            lemma_from_value(r);
        }
        r
    }
}

impl FromSpecImpl<U128> for U512 {
    open spec fn obeys_from_spec() -> bool {
        true
    }

    open spec fn from_spec(small: U128) -> U512 {
        from_value(small.value())
    }
}

impl From<U256> for U1024 {
    /// The wide integer with the value of `small`.
    fn from(small: U256) -> (r: U1024)
        ensures
            r.value() == small.value(),
    {
        let r = Wide::from_half(U512::from_half(small));
        proof {
            lemma_from_value(r);
        }
        r
    }
}

impl FromSpecImpl<U256> for U1024 {
    open spec fn obeys_from_spec() -> bool {
        true
    }

    open spec fn from_spec(small: U256) -> U1024 {
        from_value(small.value())
    }
}

impl From<U128> for U1024 {
    /// The wide integer with the value of `small`.
    fn from(small: U128) -> (r: U1024)
        ensures
            r.value() == small.value(),
    {
        let r = Wide::from_half(U512::from_half(U256::from_half(small)));
        proof {
            lemma_from_value(r);
        }
        r
    }
}

impl FromSpecImpl<U128> for U1024 {
    open spec fn obeys_from_spec() -> bool {
        true
    }

    open spec fn from_spec(small: U128) -> U1024 {
        from_value(small.value())
    }
}

} // verus!
