//! The operators on wide integers.
use crate::element::{wrap, Element, Half};
use crate::ops::{
    complement, conjunction, difference, disjunction, exclusive, is_and, is_or, is_xor,
    lemma_and_value, lemma_from_value, lemma_or_value, lemma_xor_value, negation, product, quotient,
    remainder, shifted_left, shifted_right, sum,
};
use crate::wide::Wide;
use vstd::arithmetic::power2::pow2;
use vstd::prelude::*;
use vstd::std_specs::ops::{
    AddSpecImpl, BitAndSpecImpl, BitOrSpecImpl, BitXorSpecImpl, DivSpecImpl, MulSpecImpl,
    NegSpecImpl, NotSpecImpl, RemSpecImpl, ShlSpecImpl, ShrSpecImpl, SubSpecImpl,
};

verus! {

impl<H: Half> core::ops::Add for Wide<H> {
    type Output = Wide<H>;

    /// `self + rhs`, wrapping around at the boundary of the type.
    fn add(self, rhs: Wide<H>) -> (r: Wide<H>)
        ensures
            r.value() == (self.value() + rhs.value()) % pow2(Self::BITS as nat),
    {
        let r = self.wrapping_add(rhs);
        proof {
            lemma_from_value(r);
        }
        r
    }
}

impl<H: Half> AddSpecImpl for Wide<H> {
    open spec fn obeys_add_spec() -> bool {
        true
    }

    open spec fn add_req(self, rhs: Wide<H>) -> bool {
        true
    }

    open spec fn add_spec(self, rhs: Wide<H>) -> Wide<H> {
        sum(self, rhs)
    }
}

impl<H: Half> core::ops::Sub for Wide<H> {
    type Output = Wide<H>;

    /// `self - rhs`, wrapping around at the boundary of the type.
    fn sub(self, rhs: Wide<H>) -> (r: Wide<H>)
        ensures
            r.value() == wrap(self.value() - rhs.value(), Self::BITS as nat),
    {
        let r = self.wrapping_sub(rhs);
        proof {
            lemma_from_value(r);
        }
        r
    }
}

impl<H: Half> SubSpecImpl for Wide<H> {
    open spec fn obeys_sub_spec() -> bool {
        true
    }

    open spec fn sub_req(self, rhs: Wide<H>) -> bool {
        true
    }

    open spec fn sub_spec(self, rhs: Wide<H>) -> Wide<H> {
        difference(self, rhs)
    }
}

impl<H: Half> core::ops::Mul for Wide<H> {
    type Output = Wide<H>;

    /// `self * rhs`, wrapping around at the boundary of the type.
    fn mul(self, rhs: Wide<H>) -> (r: Wide<H>)
        ensures
            r.value() == (self.value() * rhs.value()) % pow2(Self::BITS as nat),
    {
        let r = self.wrapping_mul(rhs);
        proof {
            lemma_from_value(r);
        }
        r
    }
}

impl<H: Half> MulSpecImpl for Wide<H> {
    open spec fn obeys_mul_spec() -> bool {
        true
    }

    open spec fn mul_req(self, rhs: Wide<H>) -> bool {
        true
    }

    open spec fn mul_spec(self, rhs: Wide<H>) -> Wide<H> {
        product(self, rhs)
    }
}

impl<H: Half> core::ops::Div for Wide<H> {
    type Output = Wide<H>;

    /// `self / rhs`; all bits set when `rhs` is zero.
    fn div(self, rhs: Wide<H>) -> (r: Wide<H>)
        ensures
            r.value() == (if rhs.value() == 0 {
                pow2(Self::BITS as nat) - 1
            } else {
                self.value() as int / rhs.value() as int
            }),
    {
        let r = self.wrapping_div(rhs);
        proof {
            lemma_from_value(r);
        }
        r
    }
}

impl<H: Half> DivSpecImpl for Wide<H> {
    open spec fn obeys_div_spec() -> bool {
        true
    }

    open spec fn div_req(self, rhs: Wide<H>) -> bool {
        true
    }

    open spec fn div_spec(self, rhs: Wide<H>) -> Wide<H> {
        quotient(self, rhs)
    }
}

impl<H: Half> core::ops::Rem for Wide<H> {
    type Output = Wide<H>;

    /// `self % rhs`; `self` when `rhs` is zero.
    fn rem(self, rhs: Wide<H>) -> (r: Wide<H>)
        ensures
            r.value() == (if rhs.value() == 0 {
                self.value()
            } else {
                self.value() % rhs.value()
            }),
    {
        let r = self.wrapping_rem(rhs);
        proof {
            lemma_from_value(r);
        }
        r
    }
}

impl<H: Half> RemSpecImpl for Wide<H> {
    open spec fn obeys_rem_spec() -> bool {
        true
    }

    open spec fn rem_req(self, rhs: Wide<H>) -> bool {
        true
    }

    open spec fn rem_spec(self, rhs: Wide<H>) -> Wide<H> {
        remainder(self, rhs)
    }
}

impl<H: Half> core::ops::BitAnd for Wide<H> {
    type Output = Wide<H>;

    /// The bits that `self` and `rhs` both have.
    fn bitand(self, rhs: Wide<H>) -> (r: Wide<H>)
        ensures
            is_and(r.value(), self.value(), rhs.value(), Self::BITS as nat),
    {
        let r = self.bit_and(rhs);
        proof {
            r.lemma_value_bound();
            lemma_and_value(self.value(), rhs.value(), Self::BITS as nat, r.value());
            lemma_from_value(r);
        }
        r
    }
}

impl<H: Half> BitAndSpecImpl for Wide<H> {
    open spec fn obeys_bitand_spec() -> bool {
        true
    }

    open spec fn bitand_req(self, rhs: Wide<H>) -> bool {
        true
    }

    open spec fn bitand_spec(self, rhs: Wide<H>) -> Wide<H> {
        conjunction(self, rhs)
    }
}

impl<H: Half> core::ops::BitOr for Wide<H> {
    type Output = Wide<H>;

    /// The bits that `self` or `rhs` has.
    fn bitor(self, rhs: Wide<H>) -> (r: Wide<H>)
        ensures
            is_or(r.value(), self.value(), rhs.value(), Self::BITS as nat),
    {
        let r = self.bit_or(rhs);
        proof {
            r.lemma_value_bound();
            lemma_or_value(self.value(), rhs.value(), Self::BITS as nat, r.value());
            lemma_from_value(r);
        }
        r
    }
}

impl<H: Half> BitOrSpecImpl for Wide<H> {
    open spec fn obeys_bitor_spec() -> bool {
        true
    }

    open spec fn bitor_req(self, rhs: Wide<H>) -> bool {
        true
    }

    open spec fn bitor_spec(self, rhs: Wide<H>) -> Wide<H> {
        disjunction(self, rhs)
    }
}

impl<H: Half> core::ops::BitXor for Wide<H> {
    type Output = Wide<H>;

    /// The bits that one of `self` and `rhs` has and the other has not.
    fn bitxor(self, rhs: Wide<H>) -> (r: Wide<H>)
        ensures
            is_xor(r.value(), self.value(), rhs.value(), Self::BITS as nat),
    {
        let r = self.bit_xor(rhs);
        proof {
            r.lemma_value_bound();
            lemma_xor_value(self.value(), rhs.value(), Self::BITS as nat, r.value());
            lemma_from_value(r);
        }
        r
    }
}

impl<H: Half> BitXorSpecImpl for Wide<H> {
    open spec fn obeys_bitxor_spec() -> bool {
        true
    }

    open spec fn bitxor_req(self, rhs: Wide<H>) -> bool {
        true
    }

    open spec fn bitxor_spec(self, rhs: Wide<H>) -> Wide<H> {
        exclusive(self, rhs)
    }
}

impl<H: Half> core::ops::Shl<u32> for Wide<H> {
    type Output = Wide<H>;

    /// `self << rhs`: the logical shift left, zero once `rhs` reaches the width.
    fn shl(self, rhs: u32) -> (r: Wide<H>)
        ensures
            r.value() == (if rhs >= Self::BITS {
                0
            } else {
                (self.value() * pow2(rhs as nat)) % pow2(Self::BITS as nat)
            }),
    {
        let r = self.wrapping_shl(rhs);
        proof {
            lemma_from_value(r);
        }
        r
    }
}

impl<H: Half> ShlSpecImpl<u32> for Wide<H> {
    open spec fn obeys_shl_spec() -> bool {
        true
    }

    open spec fn shl_req(self, rhs: u32) -> bool {
        true
    }

    open spec fn shl_spec(self, rhs: u32) -> Wide<H> {
        shifted_left(self, rhs)
    }
}

impl<H: Half> core::ops::Shr<u32> for Wide<H> {
    type Output = Wide<H>;

    /// `self >> rhs`: the logical shift right, zero once `rhs` reaches the width.
    fn shr(self, rhs: u32) -> (r: Wide<H>)
        ensures
            r.value() == (if rhs >= Self::BITS {
                0
            } else {
                self.value() / pow2(rhs as nat)
            }),
    {
        let r = self.wrapping_shr(rhs);
        proof {
            lemma_from_value(r);
        }
        r
    }
}

impl<H: Half> ShrSpecImpl<u32> for Wide<H> {
    open spec fn obeys_shr_spec() -> bool {
        true
    }

    open spec fn shr_req(self, rhs: u32) -> bool {
        true
    }

    open spec fn shr_spec(self, rhs: u32) -> Wide<H> {
        shifted_right(self, rhs)
    }
}

impl<H: Half> core::ops::Neg for Wide<H> {
    type Output = Wide<H>;

    /// `-self`: the two's-complement negation.
    fn neg(self) -> (r: Wide<H>)
        ensures
            r.value() == wrap(-(self.value() as int), Self::BITS as nat),
    {
        let r = self.wrapping_neg();
        proof {
            lemma_from_value(r);
        }
        r
    }
}

impl<H: Half> NegSpecImpl for Wide<H> {
    open spec fn obeys_neg_spec() -> bool {
        true
    }

    open spec fn neg_req(self) -> bool {
        true
    }

    open spec fn neg_spec(self) -> Wide<H> {
        negation(self)
    }
}

impl<H: Half> core::ops::Not for Wide<H> {
    type Output = Wide<H>;

    /// `!self`: every bit flipped.
    fn not(self) -> (r: Wide<H>)
        ensures
            r.value() == pow2(Self::BITS as nat) - 1 - self.value(),
    {
        let r = self.bit_not();
        proof {
            lemma_from_value(r);
        }
        r
    }
}

impl<H: Half> NotSpecImpl for Wide<H> {
    open spec fn obeys_not_spec() -> bool {
        true
    }

    open spec fn not_req(self) -> bool {
        true
    }

    open spec fn not_spec(self) -> Wide<H> {
        complement(self)
    }
}

impl<H: Half> core::ops::AddAssign for Wide<H> {
    /// `*self += rhs`, wrapping around at the boundary of the type.
    fn add_assign(&mut self, rhs: Wide<H>)
        ensures
            final(self).value() == (old(self).value() + rhs.value()) % pow2(Self::BITS as nat),
    {
        *self = (*self).wrapping_add(rhs);
    }
}

impl<H: Half> core::ops::SubAssign for Wide<H> {
    /// `*self -= rhs`, wrapping around at the boundary of the type.
    fn sub_assign(&mut self, rhs: Wide<H>)
        ensures
            final(self).value() == wrap(old(self).value() - rhs.value(), Self::BITS as nat),
    {
        *self = (*self).wrapping_sub(rhs);
    }
}

impl<H: Half> core::ops::MulAssign for Wide<H> {
    /// `*self *= rhs`, wrapping around at the boundary of the type.
    fn mul_assign(&mut self, rhs: Wide<H>)
        ensures
            final(self).value() == (old(self).value() * rhs.value()) % pow2(Self::BITS as nat),
    {
        *self = (*self).wrapping_mul(rhs);
    }
}

impl<H: Half> core::ops::DivAssign for Wide<H> {
    /// `*self /= rhs`; all bits set when `rhs` is zero.
    fn div_assign(&mut self, rhs: Wide<H>)
        ensures
            final(self).value() == (if rhs.value() == 0 {
                pow2(Self::BITS as nat) - 1
            } else {
                old(self).value() as int / rhs.value() as int
            }),
    {
        *self = (*self).wrapping_div(rhs);
    }
}

impl<H: Half> core::ops::RemAssign for Wide<H> {
    /// `*self %= rhs`; unchanged when `rhs` is zero.
    fn rem_assign(&mut self, rhs: Wide<H>)
        ensures
            final(self).value() == (if rhs.value() == 0 {
                old(self).value()
            } else {
                old(self).value() % rhs.value()
            }),
    {
        *self = (*self).wrapping_rem(rhs);
    }
}

impl<H: Half> core::ops::BitAndAssign for Wide<H> {
    /// `*self &= rhs`.
    fn bitand_assign(&mut self, rhs: Wide<H>)
        ensures
            is_and(final(self).value(), old(self).value(), rhs.value(), Self::BITS as nat),
    {
        let r = (*self).bit_and(rhs);
        proof {
            r.lemma_value_bound();
        }
        *self = r;
    }
}

impl<H: Half> core::ops::BitOrAssign for Wide<H> {
    /// `*self |= rhs`.
    fn bitor_assign(&mut self, rhs: Wide<H>)
        ensures
            is_or(final(self).value(), old(self).value(), rhs.value(), Self::BITS as nat),
    {
        let r = (*self).bit_or(rhs);
        proof {
            r.lemma_value_bound();
        }
        *self = r;
    }
}

impl<H: Half> core::ops::BitXorAssign for Wide<H> {
    /// `*self ^= rhs`.
    fn bitxor_assign(&mut self, rhs: Wide<H>)
        ensures
            is_xor(final(self).value(), old(self).value(), rhs.value(), Self::BITS as nat),
    {
        let r = (*self).bit_xor(rhs);
        proof {
            r.lemma_value_bound();
        }
        *self = r;
    }
}

} // verus!
