//! The operators on signed integers.
use crate::element::{wrap, Element};
use crate::ops::{lemma_from_value, signed_quotient, signed_remainder};
use crate::signed::{truncated_quotient, truncated_remainder, Signed};
use vstd::prelude::*;
use vstd::std_specs::ops::{DivSpecImpl, RemSpecImpl};

verus! {

impl<U: Element> core::ops::Div for Signed<U> {
    type Output = Signed<U>;

    /// `self / rhs`, rounded toward zero and wrapping; -1 when `rhs` is zero.
    fn div(self, rhs: Signed<U>) -> (r: Signed<U>)
        ensures
            rhs.value() == 0 ==> r.value() == -1,
            rhs.value() != 0 ==> r.uint.value() == wrap(
                truncated_quotient(self.value(), rhs.value()),
                U::BITS as nat,
            ),
    {
        let r = self.wrapping_div(rhs);
        proof {
            r.uint.lemma_value_bound();
            lemma_from_value(r.uint);
        }
        r
    }
}

impl<U: Element> DivSpecImpl for Signed<U> {
    open spec fn obeys_div_spec() -> bool {
        true
    }

    open spec fn div_req(self, rhs: Signed<U>) -> bool {
        true
    }

    open spec fn div_spec(self, rhs: Signed<U>) -> Signed<U> {
        signed_quotient(self, rhs)
    }
}

impl<U: Element> core::ops::Rem for Signed<U> {
    type Output = Signed<U>;

    /// `self % rhs`, with the sign of `self`; `self` when `rhs` is zero.
    fn rem(self, rhs: Signed<U>) -> (r: Signed<U>)
        ensures
            rhs.value() == 0 ==> r == self,
            rhs.value() != 0 ==> r.uint.value() == wrap(
                truncated_remainder(self.value(), rhs.value()),
                U::BITS as nat,
            ),
    {
        let r = self.wrapping_rem(rhs);
        proof {
            lemma_from_value(r.uint);
        }
        r
    }
}

impl<U: Element> RemSpecImpl for Signed<U> {
    open spec fn obeys_rem_spec() -> bool {
        true
    }

    open spec fn rem_req(self, rhs: Signed<U>) -> bool {
        true
    }

    open spec fn rem_spec(self, rhs: Signed<U>) -> Signed<U> {
        signed_remainder(self, rhs)
    }
}

impl<U: Element> core::ops::DivAssign for Signed<U> {
    /// `*self /= rhs`, rounded toward zero and wrapping; -1 when `rhs` is zero.
    fn div_assign(&mut self, rhs: Signed<U>)
        ensures
            rhs.value() == 0 ==> final(self).value() == -1,
            rhs.value() != 0 ==> final(self).uint.value() == wrap(
                truncated_quotient(old(self).value(), rhs.value()),
                U::BITS as nat,
            ),
    {
        *self = (*self).wrapping_div(rhs);
    }
}

impl<U: Element> core::ops::RemAssign for Signed<U> {
    /// `*self %= rhs`, with the sign of the dividend; unchanged when `rhs` is zero.
    fn rem_assign(&mut self, rhs: Signed<U>)
        ensures
            rhs.value() == 0 ==> *final(self) == *old(self),
            rhs.value() != 0 ==> final(self).uint.value() == wrap(
                truncated_remainder(old(self).value(), rhs.value()),
                U::BITS as nat,
            ),
    {
        *self = (*self).wrapping_rem(rhs);
    }
}

} // verus!
