//! The element-wise operations of the vector unit: what each does to the
//! values of two lanes of a given width, and the code that does it on
//! any element type.
use crate::element::{to_signed, wrap, Element};
use crate::modular::{lemma_div_bounds, lemma_mod_congruent};
use crate::signed::{truncated_quotient, truncated_remainder, Signed};
use vstd::arithmetic::div_mod::lemma_small_mod;
use vstd::arithmetic::power2::{lemma_pow2_adds, lemma_pow2_pos, pow2};
use vstd::prelude::*;

verus! {

/// An operation on two lanes.
#[derive(Clone, Copy, Debug, PartialEq, Eq, Structural)]
pub enum LaneOp {
    /// Wrapping addition.
    Add,
    /// Wrapping subtraction, left minus right.
    Sub,
    /// Wrapping subtraction, right minus left.
    Rsub,
    /// Wrapping multiplication.
    Mul,
    /// Logical shift left.
    Sll,
    /// Logical shift right.
    Srl,
    /// Arithmetic shift right.
    Sra,
    /// Unsigned division.
    Divu,
    /// Unsigned remainder.
    Remu,
    /// Signed division.
    Div,
    /// Signed remainder.
    Rem,
    /// Equal.
    Mseq,
    /// Not equal.
    Msne,
    /// Unsigned less than.
    Msltu,
    /// Unsigned less than or equal.
    Msleu,
    /// Unsigned greater than.
    Msgtu,
    /// Signed less than.
    Mslt,
    /// Signed less than or equal.
    Msle,
    /// Signed greater than.
    Msgt,
}

/// The shift amount that a lane of `bits` bits takes from the value `b`:
/// the low 32 bits of `b`, masked to the width.
pub open spec fn shift_amount(b: nat, bits: nat) -> nat {
    (b % 0x1_0000_0000) % bits
}

/// The mask value of a comparison: one where it holds, zero where not.
pub open spec fn mask(holds: bool) -> nat {
    if holds {
        1
    } else {
        0
    }
}

/// `a` shifted by `amount` in a lane of `bits` bits, for the three shift
/// operations.
pub open spec fn shifted(op: LaneOp, a: nat, amount: nat, bits: nat) -> nat {
    match op {
        LaneOp::Sll => (a * pow2(amount)) % pow2(bits),
        LaneOp::Srl => a / pow2(amount),
        _ => wrap(to_signed(a, bits) / (pow2(amount) as int), bits),
    }
}

impl LaneOp {
    /// Whether the operation is one of the three shifts.
    pub open spec fn is_shift(self) -> bool {
        self == LaneOp::Sll || self == LaneOp::Srl || self == LaneOp::Sra
    }

    /// The value of the result lane, for lanes of `bits` bits with the
    /// values `a` on the left and `b` on the right.
    pub open spec fn apply(self, a: nat, b: nat, bits: nat) -> nat {
        match self {
            LaneOp::Add => (a + b) % pow2(bits),
            LaneOp::Sub => wrap(a - b, bits),
            LaneOp::Rsub => wrap(b - a, bits),
            LaneOp::Mul => (a * b) % pow2(bits),
            LaneOp::Sll => shifted(self, a, shift_amount(b, bits), bits),
            LaneOp::Srl => shifted(self, a, shift_amount(b, bits), bits),
            LaneOp::Sra => shifted(self, a, shift_amount(b, bits), bits),
            LaneOp::Divu => if b == 0 {
                (pow2(bits) - 1) as nat
            } else {
                a / b
            },
            LaneOp::Remu => if b == 0 {
                a
            } else {
                a % b
            },
            LaneOp::Div => if b == 0 {
                (pow2(bits) - 1) as nat
            } else {
                wrap(truncated_quotient(to_signed(a, bits), to_signed(b, bits)), bits)
            },
            LaneOp::Rem => if b == 0 {
                a
            } else {
                wrap(truncated_remainder(to_signed(a, bits), to_signed(b, bits)), bits)
            },
            LaneOp::Mseq => mask(a == b),
            LaneOp::Msne => mask(a != b),
            LaneOp::Msltu => mask(a < b),
            LaneOp::Msleu => mask(a <= b),
            LaneOp::Msgtu => mask(a > b),
            LaneOp::Mslt => mask(to_signed(a, bits) < to_signed(b, bits)),
            LaneOp::Msle => mask(to_signed(a, bits) <= to_signed(b, bits)),
            LaneOp::Msgt => mask(to_signed(a, bits) > to_signed(b, bits)),
        }
    }

    /// Computes the result lane from the lanes `a` and `b`.
    pub fn eval<T: Element>(self, a: T, b: T) -> (r: T)
        ensures
            r.value() == self.apply(a.value(), b.value(), T::BITS as nat),
    {
        proof {
            T::lemma_bits();
            b.lemma_value_bound();
        }
        match self {
            LaneOp::Add => a.wrapping_add(b),
            LaneOp::Sub => a.wrapping_sub(b),
            LaneOp::Rsub => b.wrapping_sub(a),
            LaneOp::Mul => a.wrapping_mul(b),
            LaneOp::Sll => self.shift(a, b.u32() % T::BITS),
            LaneOp::Srl => self.shift(a, b.u32() % T::BITS),
            LaneOp::Sra => self.shift(a, b.u32() % T::BITS),
            LaneOp::Divu => a.wrapping_div(b),
            LaneOp::Remu => a.wrapping_rem(b),
            LaneOp::Div => {
                let quotient = (Signed { uint: a }).wrapping_div(Signed { uint: b });
                quotient.uint
            },
            LaneOp::Rem => (Signed { uint: a }).wrapping_rem(Signed { uint: b }).uint,
            LaneOp::Mseq => mask_lane(a.equal(b)),
            LaneOp::Msne => mask_lane(!a.equal(b)),
            LaneOp::Msltu => mask_lane(a.less_than(b)),
            LaneOp::Msleu => mask_lane(!b.less_than(a)),
            LaneOp::Msgtu => mask_lane(b.less_than(a)),
            LaneOp::Mslt => mask_lane((Signed { uint: a }).less_than(Signed { uint: b })),
            LaneOp::Msle => mask_lane(!(Signed { uint: b }).less_than(Signed { uint: a })),
            LaneOp::Msgt => mask_lane((Signed { uint: b }).less_than(Signed { uint: a })),
        }
    }

    /// Computes the lane `a` shifted by `amount`, for the three shift operations.
    pub fn shift<T: Element>(self, a: T, amount: u32) -> (r: T)
        requires
            self.is_shift(),
        ensures
            r.value() == shifted(self, a.value(), amount as nat, T::BITS as nat),
    {
        match self {
            LaneOp::Sll => {
                proof {
                    a.lemma_value_bound();
                    if amount >= T::BITS {
                        lemma_shift_past_width(a.value(), T::BITS as nat, amount as nat);
                    }
                }
                a.wrapping_shl(amount)
            },
            LaneOp::Srl => {
                proof {
                    a.lemma_value_bound();
                    if amount >= T::BITS {
                        lemma_shift_past_width(a.value(), T::BITS as nat, amount as nat);
                    }
                }
                a.wrapping_shr(amount)
            },
            _ => {
                let r = a.wrapping_sra(amount);
                proof {
                    r.lemma_value_bound();
                    lemma_signed_wrap(r.value(), T::BITS as nat);
                }
                r
            },
        }
    }
}

/// The lane that holds the mask value of a comparison.
fn mask_lane<T: Element>(holds: bool) -> (r: T)
    ensures
        r.value() == mask(holds),
{
    if holds {
        T::one()
    } else {
        T::zero()
    }
}

/// A bit pattern is its two's-complement reading reduced into the range
/// of the patterns.
pub proof fn lemma_signed_wrap(v: nat, bits: nat)
    requires
        v < pow2(bits),
    ensures
        wrap(to_signed(v, bits), bits) == v,
{
    let m = pow2(bits);
    if 2 * v >= m {
        lemma_mod_congruent(v - m, v as int, -1, m as int);
    }
    lemma_small_mod(v, m);
}

/// A shift by the width or more leaves nothing of a value of that
/// width: to the left every bit leaves the lane, to the right the
/// quotient is zero.
pub proof fn lemma_shift_past_width(v: nat, bits: nat, amount: nat)
    requires
        v < pow2(bits),
        amount >= bits,
    ensures
        (v * pow2(amount)) % pow2(bits) == 0,
        v / pow2(amount) == 0,
{
    let m = pow2(bits);
    let rest = pow2((amount - bits) as nat);
    lemma_pow2_adds(bits, (amount - bits) as nat);
    lemma_pow2_pos((amount - bits) as nat);
    assert(v * pow2(amount) == 0 + (v * rest) * m) by (nonlinear_arith)
        requires
            pow2(amount) == m * rest,
    ;
    lemma_mod_congruent((v * pow2(amount)) as int, 0, (v * rest) as int, m as int);
    assert(m * rest >= m) by (nonlinear_arith)
        requires
            rest >= 1,
            m >= 0,
    ;
    lemma_div_bounds(v as int, pow2(amount) as int);
}

} // verus!
