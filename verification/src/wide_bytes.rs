//! The wide integers as byte arrays, in big-endian and little-endian
//! order.
use crate::bytes::{be_value, le_value, lemma_be_value_concat, lemma_le_value_concat};
use crate::element::Element;
use crate::quadword::{lemma_u128_bits, U128};
use crate::wide::{lemma_wide_bits, U1024, U256, U512, Wide};
use vstd::prelude::*;

verus! {

/// The widths of the halves, as numbers.
proof fn lemma_half_widths()
    ensures
        U128::BITS == 128,
        U256::BITS == 256,
        U512::BITS == 512,
{
    lemma_u128_bits();
    lemma_wide_bits::<U128>();
    lemma_wide_bits::<U256>();
}

impl U256 {
    /// Create a native endian integer value from its representation as a byte array in big endian.
    pub fn from_be_bytes(bytes: [u8; 32]) -> (r: Self)
        ensures
            r.value() == be_value(bytes@),
    {
        let mut high = [0u8; 16];
        let mut low = [0u8; 16];
        let mut i: usize = 0;
        while i < 16
            invariant
                i <= 16,
                forall|j: int| 0 <= j < i ==> high[j] == bytes[j] && low[j] == bytes[j + 16],
            decreases 16 - i,
        {
            high[i] = bytes[i];
            low[i] = bytes[i + 16];
            i += 1;
        }
        proof {
            lemma_half_widths();
            assert(bytes@ =~= high@ + low@);
            lemma_be_value_concat(high@, low@);
        }
        Wide { lo: U128::from_be_bytes(low), hi: U128::from_be_bytes(high) }
    }

    /// Create a native endian integer value from its representation as a byte array in little
    /// endian.
    pub fn from_le_bytes(bytes: [u8; 32]) -> (r: Self)
        ensures
            r.value() == le_value(bytes@),
    {
        let mut low = [0u8; 16];
        let mut high = [0u8; 16];
        let mut i: usize = 0;
        while i < 16
            invariant
                i <= 16,
                forall|j: int| 0 <= j < i ==> low[j] == bytes[j] && high[j] == bytes[j + 16],
            decreases 16 - i,
        {
            low[i] = bytes[i];
            high[i] = bytes[i + 16];
            i += 1;
        }
        proof {
            lemma_half_widths();
            assert(bytes@ =~= low@ + high@);
            lemma_le_value_concat(low@, high@);
        }
        Wide { lo: U128::from_le_bytes(low), hi: U128::from_le_bytes(high) }
    }

    /// Return the memory representation of this integer as a byte array in big-endian (network)
    /// byte order.
    pub fn to_be_bytes(self) -> (r: [u8; 32])
        ensures
            be_value(r@) == self.value(),
    {
        let high = self.hi.to_be_bytes();
        let low = self.lo.to_be_bytes();
        let mut r = [0u8; 32];
        let mut i: usize = 0;
        while i < 16
            invariant
                i <= 16,
                forall|j: int| 0 <= j < i ==> r[j] == high[j] && r[j + 16] == low[j],
            decreases 16 - i,
        {
            r[i] = high[i];
            r[i + 16] = low[i];
            i += 1;
        }
        proof {
            lemma_half_widths();
            assert(r@ =~= high@ + low@);
            lemma_be_value_concat(high@, low@);
        }
        r
    }

    /// Return the memory representation of this integer as a byte array in little-endian byte
    /// order.
    pub fn to_le_bytes(self) -> (r: [u8; 32])
        ensures
            le_value(r@) == self.value(),
    {
        let low = self.lo.to_le_bytes();
        let high = self.hi.to_le_bytes();
        let mut r = [0u8; 32];
        let mut i: usize = 0;
        while i < 16
            invariant
                i <= 16,
                forall|j: int| 0 <= j < i ==> r[j] == low[j] && r[j + 16] == high[j],
            decreases 16 - i,
        {
            r[i] = low[i];
            r[i + 16] = high[i];
            i += 1;
        }
        proof {
            lemma_half_widths();
            assert(r@ =~= low@ + high@);
            lemma_le_value_concat(low@, high@);
        }
        r
    }
}

impl U512 {
    /// Create a native endian integer value from its representation as a byte array in big endian.
    pub fn from_be_bytes(bytes: [u8; 64]) -> (r: Self)
        ensures
            r.value() == be_value(bytes@),
    {
        let mut high = [0u8; 32];
        let mut low = [0u8; 32];
        let mut i: usize = 0;
        while i < 32
            invariant
                i <= 32,
                forall|j: int| 0 <= j < i ==> high[j] == bytes[j] && low[j] == bytes[j + 32],
            decreases 32 - i,
        {
            high[i] = bytes[i];
            low[i] = bytes[i + 32];
            i += 1;
        }
        proof {
            lemma_half_widths();
            assert(bytes@ =~= high@ + low@);
            lemma_be_value_concat(high@, low@);
        }
        Wide { lo: U256::from_be_bytes(low), hi: U256::from_be_bytes(high) }
    }

    /// Create a native endian integer value from its representation as a byte array in little
    /// endian.
    pub fn from_le_bytes(bytes: [u8; 64]) -> (r: Self)
        ensures
            r.value() == le_value(bytes@),
    {
        let mut low = [0u8; 32];
        let mut high = [0u8; 32];
        let mut i: usize = 0;
        while i < 32
            invariant
                i <= 32,
                forall|j: int| 0 <= j < i ==> low[j] == bytes[j] && high[j] == bytes[j + 32],
            decreases 32 - i,
        {
            low[i] = bytes[i];
            high[i] = bytes[i + 32];
            i += 1;
        }
        proof {
            lemma_half_widths();
            assert(bytes@ =~= low@ + high@);
            lemma_le_value_concat(low@, high@);
        }
        Wide { lo: U256::from_le_bytes(low), hi: U256::from_le_bytes(high) }
    }

    /// Return the memory representation of this integer as a byte array in big-endian (network)
    /// byte order.
    pub fn to_be_bytes(self) -> (r: [u8; 64])
        ensures
            be_value(r@) == self.value(),
    {
        let high = self.hi.to_be_bytes();
        let low = self.lo.to_be_bytes();
        let mut r = [0u8; 64];
        let mut i: usize = 0;
        while i < 32
            invariant
                i <= 32,
                forall|j: int| 0 <= j < i ==> r[j] == high[j] && r[j + 32] == low[j],
            decreases 32 - i,
        {
            r[i] = high[i];
            r[i + 32] = low[i];
            i += 1;
        }
        proof {
            lemma_half_widths();
            assert(r@ =~= high@ + low@);
            lemma_be_value_concat(high@, low@);
        }
        r
    }

    /// Return the memory representation of this integer as a byte array in little-endian byte
    /// order.
    pub fn to_le_bytes(self) -> (r: [u8; 64])
        ensures
            le_value(r@) == self.value(),
    {
        let low = self.lo.to_le_bytes();
        let high = self.hi.to_le_bytes();
        let mut r = [0u8; 64];
        let mut i: usize = 0;
        while i < 32
            invariant
                i <= 32,
                forall|j: int| 0 <= j < i ==> r[j] == low[j] && r[j + 32] == high[j],
            decreases 32 - i,
        {
            r[i] = low[i];
            r[i + 32] = high[i];
            i += 1;
        }
        proof {
            lemma_half_widths();
            assert(r@ =~= low@ + high@);
            lemma_le_value_concat(low@, high@);
        }
        r
    }
}

impl U1024 {
    /// Create a native endian integer value from its representation as a byte array in big endian.
    pub fn from_be_bytes(bytes: [u8; 128]) -> (r: Self)
        ensures
            r.value() == be_value(bytes@),
    {
        let mut high = [0u8; 64];
        let mut low = [0u8; 64];
        let mut i: usize = 0;
        while i < 64
            invariant
                i <= 64,
                forall|j: int| 0 <= j < i ==> high[j] == bytes[j] && low[j] == bytes[j + 64],
            decreases 64 - i,
        {
            high[i] = bytes[i];
            low[i] = bytes[i + 64];
            i += 1;
        }
        proof {
            lemma_half_widths();
            assert(bytes@ =~= high@ + low@);
            lemma_be_value_concat(high@, low@);
        }
        Wide { lo: U512::from_be_bytes(low), hi: U512::from_be_bytes(high) }
    }

    /// Create a native endian integer value from its representation as a byte array in little
    /// endian.
    pub fn from_le_bytes(bytes: [u8; 128]) -> (r: Self)
        ensures
            r.value() == le_value(bytes@),
    {
        let mut low = [0u8; 64];
        let mut high = [0u8; 64];
        let mut i: usize = 0;
        while i < 64
            invariant
                i <= 64,
                forall|j: int| 0 <= j < i ==> low[j] == bytes[j] && high[j] == bytes[j + 64],
            decreases 64 - i,
        {
            low[i] = bytes[i];
            high[i] = bytes[i + 64];
            i += 1;
        }
        proof {
            lemma_half_widths();
            assert(bytes@ =~= low@ + high@);
            lemma_le_value_concat(low@, high@);
        }
        Wide { lo: U512::from_le_bytes(low), hi: U512::from_le_bytes(high) }
    }

    /// Return the memory representation of this integer as a byte array in big-endian (network)
    /// byte order.
    pub fn to_be_bytes(self) -> (r: [u8; 128])
        ensures
            be_value(r@) == self.value(),
    {
        let high = self.hi.to_be_bytes();
        let low = self.lo.to_be_bytes();
        let mut r = [0u8; 128];
        let mut i: usize = 0;
        while i < 64
            invariant
                i <= 64,
                forall|j: int| 0 <= j < i ==> r[j] == high[j] && r[j + 64] == low[j],
            decreases 64 - i,
        {
            r[i] = high[i];
            r[i + 64] = low[i];
            i += 1;
        }
        proof {
            lemma_half_widths();
            assert(r@ =~= high@ + low@);
            lemma_be_value_concat(high@, low@);
        }
        r
    }

    /// Return the memory representation of this integer as a byte array in little-endian byte
    /// order.
    pub fn to_le_bytes(self) -> (r: [u8; 128])
        ensures
            le_value(r@) == self.value(),
    {
        let low = self.lo.to_le_bytes();
        let high = self.hi.to_le_bytes();
        let mut r = [0u8; 128];
        let mut i: usize = 0;
        while i < 64
            invariant
                i <= 64,
                forall|j: int| 0 <= j < i ==> r[j] == low[j] && r[j + 64] == high[j],
            decreases 64 - i,
        {
            r[i] = low[i];
            r[i + 64] = high[i];
            i += 1;
        }
        proof {
            lemma_half_widths();
            assert(r@ =~= low@ + high@);
            lemma_le_value_concat(low@, high@);
        }
        r
    }
}

} // verus!
