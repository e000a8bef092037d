//! The operators on 16-bit lanes.
use crate::element::{wrap, Element};
use crate::halfword::U16;
use crate::ops::{
    complement, conjunction, difference, disjunction, exclusive, is_and, is_or, is_xor,
    lemma_and_value, lemma_from_value, lemma_or_value, lemma_xor_value, negation, product, quotient,
    remainder, shifted_left, shifted_right, sum,
};
use vstd::arithmetic::power2::pow2;
use vstd::prelude::*;
use vstd::std_specs::ops::{
    AddSpecImpl, BitAndSpecImpl, BitOrSpecImpl, BitXorSpecImpl, DivSpecImpl, MulSpecImpl,
    NegSpecImpl, NotSpecImpl, RemSpecImpl, ShlSpecImpl, ShrSpecImpl, SubSpecImpl,
};

verus! {

impl core::ops::Add for U16 {
    type Output = U16;

    /// `self + rhs`, wrapping around at the boundary of the type.
    fn add(self, rhs: U16) -> (r: U16)
        ensures
            r.value() == (self.value() + rhs.value()) % pow2(Self::BITS as nat),
    {
        let r = self.wrapping_add(rhs);
        proof {
            lemma_from_value(r);
        }
        r
    }
}

impl AddSpecImpl for U16 {
    open spec fn obeys_add_spec() -> bool {
        true
    }

    open spec fn add_req(self, rhs: U16) -> bool {
        true
    }

    open spec fn add_spec(self, rhs: U16) -> U16 {
        sum(self, rhs)
    }
}

impl core::ops::Sub for U16 {
    type Output = U16;

    /// `self - rhs`, wrapping around at the boundary of the type.
    fn sub(self, rhs: U16) -> (r: U16)
        ensures
            r.value() == wrap(self.value() - rhs.value(), Self::BITS as nat),
    {
        let r = self.wrapping_sub(rhs);
        proof {
            lemma_from_value(r);
        }
        r
    }
}

impl SubSpecImpl for U16 {
    open spec fn obeys_sub_spec() -> bool {
        true
    }

    open spec fn sub_req(self, rhs: U16) -> bool {
        true
    }

    open spec fn sub_spec(self, rhs: U16) -> U16 {
        difference(self, rhs)
    }
}

impl core::ops::Mul for U16 {
    type Output = U16;

    /// `self * rhs`, wrapping around at the boundary of the type.
    fn mul(self, rhs: U16) -> (r: U16)
        ensures
            r.value() == (self.value() * rhs.value()) % pow2(Self::BITS as nat),
    {
        let r = self.wrapping_mul(rhs);
        proof {
            lemma_from_value(r);
        }
        r
    }
}

impl MulSpecImpl for U16 {
    open spec fn obeys_mul_spec() -> bool {
        true
    }

    open spec fn mul_req(self, rhs: U16) -> bool {
        true
    }

    open spec fn mul_spec(self, rhs: U16) -> U16 {
        product(self, rhs)
    }
}

impl core::ops::Div for U16 {
    type Output = U16;

    /// `self / rhs`; all bits set when `rhs` is zero.
    fn div(self, rhs: U16) -> (r: U16)
        ensures
            r.value() == (if rhs.value() == 0 {
                pow2(Self::BITS as nat) - 1
            } else {
                self.value() as int / rhs.value() as int
            }),
    {
        let r = self.wrapping_div(rhs);
        proof {
            lemma_from_value(r);
        }
        r
    }
}

impl DivSpecImpl for U16 {
    open spec fn obeys_div_spec() -> bool {
        true
    }

    open spec fn div_req(self, rhs: U16) -> bool {
        true
    }

    open spec fn div_spec(self, rhs: U16) -> U16 {
        quotient(self, rhs)
    }
}

impl core::ops::Rem for U16 {
    type Output = U16;

    /// `self % rhs`; `self` when `rhs` is zero.
    fn rem(self, rhs: U16) -> (r: U16)
        ensures
            r.value() == (if rhs.value() == 0 {
                self.value()
            } else {
                self.value() % rhs.value()
            }),
    {
        let r = self.wrapping_rem(rhs);
        proof {
            lemma_from_value(r);
        }
        r
    }
}

impl RemSpecImpl for U16 {
    open spec fn obeys_rem_spec() -> bool {
        true
    }

    open spec fn rem_req(self, rhs: U16) -> bool {
        true
    }

    open spec fn rem_spec(self, rhs: U16) -> U16 {
        remainder(self, rhs)
    }
}

impl core::ops::BitAnd for U16 {
    type Output = U16;

    /// The bits that `self` and `rhs` both have.
    fn bitand(self, rhs: U16) -> (r: U16)
        ensures
            is_and(r.value(), self.value(), rhs.value(), Self::BITS as nat),
    {
        let r = self.bit_and(rhs);
        proof {
            r.lemma_value_bound();
            lemma_and_value(self.value(), rhs.value(), Self::BITS as nat, r.value());
            lemma_from_value(r);
        }
        r
    }
}

impl BitAndSpecImpl for U16 {
    open spec fn obeys_bitand_spec() -> bool {
        true
    }

    open spec fn bitand_req(self, rhs: U16) -> bool {
        true
    }

    open spec fn bitand_spec(self, rhs: U16) -> U16 {
        conjunction(self, rhs)
    }
}

impl core::ops::BitOr for U16 {
    type Output = U16;

    /// The bits that `self` or `rhs` has.
    fn bitor(self, rhs: U16) -> (r: U16)
        ensures
            is_or(r.value(), self.value(), rhs.value(), Self::BITS as nat),
    {
        let r = self.bit_or(rhs);
        proof {
            r.lemma_value_bound();
            lemma_or_value(self.value(), rhs.value(), Self::BITS as nat, r.value());
            lemma_from_value(r);
        }
        r
    }
}

impl BitOrSpecImpl for U16 {
    open spec fn obeys_bitor_spec() -> bool {
        true
    }

    open spec fn bitor_req(self, rhs: U16) -> bool {
        true
    }

    open spec fn bitor_spec(self, rhs: U16) -> U16 {
        disjunction(self, rhs)
    }
}

impl core::ops::BitXor for U16 {
    type Output = U16;

    /// The bits that one of `self` and `rhs` has and the other has not.
    fn bitxor(self, rhs: U16) -> (r: U16)
        ensures
            is_xor(r.value(), self.value(), rhs.value(), Self::BITS as nat),
    {
        let r = self.bit_xor(rhs);
        proof {
            r.lemma_value_bound();
            lemma_xor_value(self.value(), rhs.value(), Self::BITS as nat, r.value());
            lemma_from_value(r);
        }
        r
    }
}

impl BitXorSpecImpl for U16 {
    open spec fn obeys_bitxor_spec() -> bool {
        true
    }

    open spec fn bitxor_req(self, rhs: U16) -> bool {
        true
    }

    open spec fn bitxor_spec(self, rhs: U16) -> U16 {
        exclusive(self, rhs)
    }
}

impl core::ops::Shl<u32> for U16 {
    type Output = U16;

    /// `self << rhs`: the logical shift left, zero once `rhs` reaches the width.
    fn shl(self, rhs: u32) -> (r: U16)
        ensures
            r.value() == (if rhs >= Self::BITS {
                0
            } else {
                (self.value() * pow2(rhs as nat)) % pow2(Self::BITS as nat)
            }),
    {
        let r = self.wrapping_shl(rhs);
        proof {
            lemma_from_value(r);
        }
        r
    }
}

impl ShlSpecImpl<u32> for U16 {
    open spec fn obeys_shl_spec() -> bool {
        true
    }

    open spec fn shl_req(self, rhs: u32) -> bool {
        true
    }

    open spec fn shl_spec(self, rhs: u32) -> U16 {
        shifted_left(self, rhs)
    }
}

impl core::ops::Shr<u32> for U16 {
    type Output = U16;

    /// `self >> rhs`: the logical shift right, zero once `rhs` reaches the width.
    fn shr(self, rhs: u32) -> (r: U16)
        ensures
            r.value() == (if rhs >= Self::BITS {
                0
            } else {
                self.value() / pow2(rhs as nat)
            }),
    {
        let r = self.wrapping_shr(rhs);
        proof {
            lemma_from_value(r);
        }
        r
    }
}

impl ShrSpecImpl<u32> for U16 {
    open spec fn obeys_shr_spec() -> bool {
        true
    }

    open spec fn shr_req(self, rhs: u32) -> bool {
        true
    }

    open spec fn shr_spec(self, rhs: u32) -> U16 {
        shifted_right(self, rhs)
    }
}

impl core::ops::Neg for U16 {
    type Output = U16;

    /// `-self`: the two's-complement negation.
    fn neg(self) -> (r: U16)
        ensures
            r.value() == wrap(-(self.value() as int), Self::BITS as nat),
    {
        let r = self.wrapping_neg();
        proof {
            lemma_from_value(r);
        }
        r
    }
}

impl NegSpecImpl for U16 {
    open spec fn obeys_neg_spec() -> bool {
        true
    }

    open spec fn neg_req(self) -> bool {
        true
    }

    open spec fn neg_spec(self) -> U16 {
        negation(self)
    }
}

impl core::ops::Not for U16 {
    type Output = U16;

    /// `!self`: every bit flipped.
    fn not(self) -> (r: U16)
        ensures
            r.value() == pow2(Self::BITS as nat) - 1 - self.value(),
    {
        let r = self.bit_not();
        proof {
            lemma_from_value(r);
        }
        r
    }
}

impl NotSpecImpl for U16 {
    open spec fn obeys_not_spec() -> bool {
        true
    }

    open spec fn not_req(self) -> bool {
        true
    }

    open spec fn not_spec(self) -> U16 {
        complement(self)
    }
}

impl core::ops::AddAssign for U16 {
    /// `*self += rhs`, wrapping around at the boundary of the type.
    fn add_assign(&mut self, rhs: U16)
        ensures
            final(self).value() == (old(self).value() + rhs.value()) % pow2(Self::BITS as nat),
    {
        *self = (*self).wrapping_add(rhs);
    }
}

impl core::ops::SubAssign for U16 {
    /// `*self -= rhs`, wrapping around at the boundary of the type.
    fn sub_assign(&mut self, rhs: U16)
        ensures
            final(self).value() == wrap(old(self).value() - rhs.value(), Self::BITS as nat),
    {
        *self = (*self).wrapping_sub(rhs);
    }
}

impl core::ops::MulAssign for U16 {
    /// `*self *= rhs`, wrapping around at the boundary of the type.
    fn mul_assign(&mut self, rhs: U16)
        ensures
            final(self).value() == (old(self).value() * rhs.value()) % pow2(Self::BITS as nat),
    {
        *self = (*self).wrapping_mul(rhs);
    }
}

impl core::ops::DivAssign for U16 {
    /// `*self /= rhs`; all bits set when `rhs` is zero.
    fn div_assign(&mut self, rhs: U16)
        ensures
            final(self).value() == (if rhs.value() == 0 {
                pow2(Self::BITS as nat) - 1
            } else {
                old(self).value() as int / rhs.value() as int
            }),
    {
        *self = (*self).wrapping_div(rhs);
    }
}

impl core::ops::RemAssign for U16 {
    /// `*self %= rhs`; unchanged when `rhs` is zero.
    fn rem_assign(&mut self, rhs: U16)
        ensures
            final(self).value() == (if rhs.value() == 0 {
                old(self).value()
            } else {
                old(self).value() % rhs.value()
            }),
    {
        *self = (*self).wrapping_rem(rhs);
    }
}

impl core::ops::BitAndAssign for U16 {
    /// `*self &= rhs`.
    fn bitand_assign(&mut self, rhs: U16)
        ensures
            is_and(final(self).value(), old(self).value(), rhs.value(), Self::BITS as nat),
    {
        let r = (*self).bit_and(rhs);
        proof {
            r.lemma_value_bound();
        }
        *self = r;
    }
}

impl core::ops::BitOrAssign for U16 {
    /// `*self |= rhs`.
    fn bitor_assign(&mut self, rhs: U16)
        ensures
            is_or(final(self).value(), old(self).value(), rhs.value(), Self::BITS as nat),
    {
        let r = (*self).bit_or(rhs);
        proof {
            r.lemma_value_bound();
        }
        *self = r;
    }
}

impl core::ops::BitXorAssign for U16 {
    /// `*self ^= rhs`.
    fn bitxor_assign(&mut self, rhs: U16)
        ensures
            is_xor(final(self).value(), old(self).value(), rhs.value(), Self::BITS as nat),
    {
        let r = (*self).bit_xor(rhs);
        proof {
            r.lemma_value_bound();
        }
        *self = r;
    }
}

} // verus!
