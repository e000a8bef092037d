//! The order of the element types, unsigned by value and signed in
//! two's complement.
use core::cmp::Ordering;
use crate::byte::U8;
use crate::doubleword::U64;
use crate::element::{Element, Half};
use crate::halfword::U16;
use crate::quadword::U128;
use crate::signed::Signed;
use crate::wide::Wide;
use crate::word::U32;
use vstd::prelude::*;
use vstd::std_specs::cmp::PartialOrdSpecImpl;

verus! {

/// How the natural number `a` stands to `b`.
pub open spec fn order(a: nat, b: nat) -> Option<Ordering> {
    if a < b {
        Some(Ordering::Less)
    } else if a > b {
        Some(Ordering::Greater)
    } else {
        Some(Ordering::Equal)
    }
}

/// How the integer `a` stands to `b`.
pub open spec fn signed_order(a: int, b: int) -> Option<Ordering> {
    if a < b {
        Some(Ordering::Less)
    } else if a > b {
        Some(Ordering::Greater)
    } else {
        Some(Ordering::Equal)
    }
}

impl PartialOrd for U8 {
    fn partial_cmp(&self, other: &U8) -> (r: Option<Ordering>) {
        if self.less_than(*other) {
            Some(Ordering::Less)
        } else if other.less_than(*self) {
            Some(Ordering::Greater)
        } else {
            Some(Ordering::Equal)
        }
    }
}

impl PartialOrdSpecImpl for U8 {
    open spec fn obeys_partial_cmp_spec() -> bool {
        true
    }

    open spec fn partial_cmp_spec(&self, other: &U8) -> Option<Ordering> {
        order(self.value(), other.value())
    }
}

impl PartialOrd for U16 {
    fn partial_cmp(&self, other: &U16) -> (r: Option<Ordering>) {
        if self.less_than(*other) {
            Some(Ordering::Less)
        } else if other.less_than(*self) {
            Some(Ordering::Greater)
        } else {
            Some(Ordering::Equal)
        }
    }
}

impl PartialOrdSpecImpl for U16 {
    open spec fn obeys_partial_cmp_spec() -> bool {
        true
    }

    open spec fn partial_cmp_spec(&self, other: &U16) -> Option<Ordering> {
        order(self.value(), other.value())
    }
}

impl PartialOrd for U32 {
    fn partial_cmp(&self, other: &U32) -> (r: Option<Ordering>) {
        if self.less_than(*other) {
            Some(Ordering::Less)
        } else if other.less_than(*self) {
            Some(Ordering::Greater)
        } else {
            Some(Ordering::Equal)
        }
    }
}

impl PartialOrdSpecImpl for U32 {
    open spec fn obeys_partial_cmp_spec() -> bool {
        true
    }

    open spec fn partial_cmp_spec(&self, other: &U32) -> Option<Ordering> {
        order(self.value(), other.value())
    }
}

impl PartialOrd for U64 {
    fn partial_cmp(&self, other: &U64) -> (r: Option<Ordering>) {
        if self.less_than(*other) {
            Some(Ordering::Less)
        } else if other.less_than(*self) {
            Some(Ordering::Greater)
        } else {
            Some(Ordering::Equal)
        }
    }
}

impl PartialOrdSpecImpl for U64 {
    open spec fn obeys_partial_cmp_spec() -> bool {
        true
    }

    open spec fn partial_cmp_spec(&self, other: &U64) -> Option<Ordering> {
        order(self.value(), other.value())
    }
}

impl PartialOrd for U128 {
    fn partial_cmp(&self, other: &U128) -> (r: Option<Ordering>) {
        if self.less_than(*other) {
            Some(Ordering::Less)
        } else if other.less_than(*self) {
            Some(Ordering::Greater)
        } else {
            Some(Ordering::Equal)
        }
    }
}

impl PartialOrdSpecImpl for U128 {
    open spec fn obeys_partial_cmp_spec() -> bool {
        true
    }

    open spec fn partial_cmp_spec(&self, other: &U128) -> Option<Ordering> {
        order(self.value(), other.value())
    }
}

impl<H: Half> PartialOrd for Wide<H> {
    fn partial_cmp(&self, other: &Wide<H>) -> (r: Option<Ordering>) {
        if self.less_than(*other) {
            Some(Ordering::Less)
        } else if other.less_than(*self) {
            Some(Ordering::Greater)
        } else {
            Some(Ordering::Equal)
        }
    }
}

impl<H: Half> PartialOrdSpecImpl for Wide<H> {
    open spec fn obeys_partial_cmp_spec() -> bool {
        true
    }

    open spec fn partial_cmp_spec(&self, other: &Wide<H>) -> Option<Ordering> {
        order(self.value(), other.value())
    }
}

impl<U: Element> PartialOrd for Signed<U> {
    fn partial_cmp(&self, other: &Signed<U>) -> (r: Option<Ordering>) {
        if self.less_than(*other) {
            Some(Ordering::Less)
        } else if other.less_than(*self) {
            Some(Ordering::Greater)
        } else {
            Some(Ordering::Equal)
        }
    }
}

impl<U: Element> PartialOrdSpecImpl for Signed<U> {
    open spec fn obeys_partial_cmp_spec() -> bool {
        true
    }

    open spec fn partial_cmp_spec(&self, other: &Signed<U>) -> Option<Ordering> {
        signed_order(self.value(), other.value())
    }
}

} // verus!
