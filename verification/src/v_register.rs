//! The vector register and the element-wise functions on it, one for
//! each operation and operand form.
//!
//! A register holds lanes of one width, the selected element width. A
//! function takes its operands and a result register of one and the same
//! width, and computes the first `num` lanes of the result; the other
//! lanes keep what they held. Operands of different widths are an
//! [`Error::Unexpected`], and nothing is written.
use crate::byte::{lemma_u8_bits, U8};
use crate::doubleword::{lemma_u64_bits, U64};
use crate::element::{scalar_value, wrap, Element};
use crate::halfword::{lemma_u16_bits, U16};
use crate::lane_op::{lemma_signed_wrap, shifted, LaneOp};
use crate::quadword::U128;
use crate::wide::{lemma_wide_bits, U1024, U256, U512};
use crate::word::{lemma_u32_bits, U32};
use vstd::prelude::*;

verus! {

/// A vector register of 2048 bits, as lanes of one of the element
/// widths.
#[derive(Clone, Copy, Debug)]
pub enum VRegister {
    U1024([U1024; 2]),
    U512([U512; 4]),
    U256([U256; 8]),
    U128([U128; 16]),
    U64([U64; 32]),
    U32([U32; 64]),
    U16([U16; 128]),
    U8([U8; 256]),
}

/// What an element-wise function can fail with.
#[derive(Clone, Copy, Debug, PartialEq, Eq, Structural)]
pub enum Error {
    /// The registers of one operation do not have the same element width.
    Unexpected,
}

/// The values of the lanes of an array of elements.
pub open spec fn lane_values<T: Element, const N: usize>(lanes: [T; N]) -> Seq<nat> {
    Seq::new(N as nat, |i: int| lanes[i].value())
}

impl VRegister {
    /// The selected element width: the number of bits of a lane.
    pub open spec fn sew(self) -> nat {
        match self {
            VRegister::U1024(_) => 1024,
            VRegister::U512(_) => 512,
            VRegister::U256(_) => 256,
            VRegister::U128(_) => 128,
            VRegister::U64(_) => 64,
            VRegister::U32(_) => 32,
            VRegister::U16(_) => 16,
            VRegister::U8(_) => 8,
        }
    }

    /// The values of the lanes, from lane 0 on.
    pub open spec fn lanes(self) -> Seq<nat> {
        match self {
            VRegister::U1024(a) => lane_values(a),
            VRegister::U512(a) => lane_values(a),
            VRegister::U256(a) => lane_values(a),
            VRegister::U128(a) => lane_values(a),
            VRegister::U64(a) => lane_values(a),
            VRegister::U32(a) => lane_values(a),
            VRegister::U16(a) => lane_values(a),
            VRegister::U8(a) => lane_values(a),
        }
    }

    /// The number of lanes: 2048 bits by the element width.
    pub open spec fn lane_count(self) -> nat {
        match self {
            VRegister::U1024(_) => 2,
            VRegister::U512(_) => 4,
            VRegister::U256(_) => 8,
            VRegister::U128(_) => 16,
            VRegister::U64(_) => 32,
            VRegister::U32(_) => 64,
            VRegister::U16(_) => 128,
            VRegister::U8(_) => 256,
        }
    }

    /// A register has as many lanes as fill 2048 bits.
    pub proof fn lemma_lane_count(self)
        ensures
            self.lanes().len() == self.lane_count(),
            self.lane_count() * self.sew() == 2048,
    {
        let count = self.lane_count();
        let width = self.sew();
        assert(count * width == 2048) by (nonlinear_arith)
            requires
                (count == 2 && width == 1024) || (count == 4 && width == 512)
                    || (count == 8 && width == 256) || (count == 16 && width == 128)
                    || (count == 32 && width == 64) || (count == 64 && width == 32)
                    || (count == 128 && width == 16) || (count == 256 && width == 8),
        ;
    }
}

impl Default for VRegister {
    /// The register of the narrowest lanes, all zero.
    fn default() -> (r: Self)
        ensures
            r.sew() == 8,
            forall|i: int| 0 <= i < 256 ==> r.lanes()[i] == 0,
    {
        VRegister::U8([U8(0); 256])
    }
}

/// The lanes of `after` from `num` on are those of `before`, and the two
/// registers have the same element width.
pub open spec fn inactive_lanes_kept(before: VRegister, after: VRegister, num: nat) -> bool {
    &&& after.sew() == before.sew()
    &&& forall|i: int| num <= i < before.lane_count() ==> after.lanes()[i] == before.lanes()[i]
}

/// Whether an operation on registers of these widths with `num` active
/// lanes is one that the caller may ask for: where the widths agree,
/// `num` is no more than the number of lanes.
pub open spec fn within_lanes(same_width: bool, result: VRegister, num: nat) -> bool {
    same_width ==> num <= result.lane_count()
}

/// What an element-wise function has done, for the right-hand values
/// `rhs` of the lanes: with operands of one width, the first `num` lanes
/// of the result hold the operation's values and the others are kept;
/// else it failed, and the result is as it was.
pub open spec fn applied(
    op: LaneOp,
    same_width: bool,
    lhs: VRegister,
    rhs: spec_fn(int) -> nat,
    before: VRegister,
    after: VRegister,
    num: nat,
    res: Result<(), Error>,
) -> bool {
    if same_width {
        &&& res is Ok
        &&& inactive_lanes_kept(before, after, num)
        &&& forall|i: int|
            0 <= i < num ==> #[trigger] after.lanes()[i] == op.apply(
                lhs.lanes()[i],
                rhs(i),
                lhs.sew(),
            )
    } else {
        &&& res == Err::<(), Error>(Error::Unexpected)
        &&& after == before
    }
}

/// What a shift by an immediate has done: as [`applied`], with every
/// active lane shifted by `amount` masked to the width.
pub open spec fn applied_shift(
    op: LaneOp,
    lhs: VRegister,
    amount: u32,
    before: VRegister,
    after: VRegister,
    num: nat,
    res: Result<(), Error>,
) -> bool {
    if lhs.sew() == before.sew() {
        &&& res is Ok
        &&& inactive_lanes_kept(before, after, num)
        &&& forall|i: int|
            0 <= i < num ==> #[trigger] after.lanes()[i] == shifted(
                op,
                lhs.lanes()[i],
                amount as nat % lhs.sew(),
                lhs.sew(),
            )
    } else {
        &&& res == Err::<(), Error>(Error::Unexpected)
        &&& after == before
    }
}

/// What a register-register function has done.
pub open spec fn applied_vv(
    op: LaneOp,
    lhs: VRegister,
    rhs: VRegister,
    before: VRegister,
    after: VRegister,
    num: nat,
    res: Result<(), Error>,
) -> bool {
    applied(
        op,
        lhs.sew() == rhs.sew() && lhs.sew() == before.sew(),
        lhs,
        |i: int| rhs.lanes()[i],
        before,
        after,
        num,
        res,
    )
}

/// What a register-scalar function has done: the scalar register `x`
/// takes the place of every right-hand lane, truncated or sign-extended
/// to the width.
pub open spec fn applied_vx(
    op: LaneOp,
    lhs: VRegister,
    x: u64,
    before: VRegister,
    after: VRegister,
    num: nat,
    res: Result<(), Error>,
) -> bool {
    applied(
        op,
        lhs.sew() == before.sew(),
        lhs,
        |i: int| scalar_value(x, lhs.sew()),
        before,
        after,
        num,
        res,
    )
}

/// What a register-immediate function has done: the immediate `imm`,
/// sign-extended to the width, takes the place of every right-hand lane.
pub open spec fn applied_vi(
    op: LaneOp,
    lhs: VRegister,
    imm: i32,
    before: VRegister,
    after: VRegister,
    num: nat,
    res: Result<(), Error>,
) -> bool {
    applied(
        op,
        lhs.sew() == before.sew(),
        lhs,
        |i: int| wrap(imm as int, lhs.sew()),
        before,
        after,
        num,
        res,
    )
}

/// Lanes that a function leaves alone stay zero in a result register
/// that was zero before the call.
pub proof fn lemma_inactive_lanes_stay_zero(before: VRegister, after: VRegister, num: nat)
    requires
        inactive_lanes_kept(before, after, num),
        forall|i: int| 0 <= i < before.lane_count() ==> before.lanes()[i] == 0,
    ensures
        after.lane_count() == before.lane_count(),
        forall|i: int| num <= i < after.lane_count() ==> after.lanes()[i] == 0,
{
}

/// The first `num` lanes of `r` computed from those of `a` and `b`.
fn lanes_vv<T: Element, const N: usize>(
    op: LaneOp,
    a: &[T; N],
    b: &[T; N],
    r: &mut [T; N],
    num: usize,
)
    requires
        num <= N,
    ensures
        forall|i: int|
            0 <= i < num ==> (#[trigger] final(r)[i]).value() == op.apply(
                a[i].value(),
                b[i].value(),
                T::BITS as nat,
            ),
        forall|i: int| num <= i < N ==> #[trigger] final(r)[i] == old(r)[i],
{
    let mut i: usize = 0;
    while i < num
        invariant
            i <= num <= N,
            forall|j: int|
                0 <= j < i ==> (#[trigger] r[j]).value() == op.apply(
                    a[j].value(),
                    b[j].value(),
                    T::BITS as nat,
                ),
            forall|j: int| i <= j < N ==> #[trigger] r[j] == old(r)[j],
        decreases num - i,
    {
        r[i] = op.eval(a[i], b[i]);
        i += 1;
    }
}

/// The first `num` lanes of `r` computed from those of `a` and the one
/// value `b`.
fn lanes_vs<T: Element, const N: usize>(op: LaneOp, a: &[T; N], b: T, r: &mut [T; N], num: usize)
    requires
        num <= N,
    ensures
        forall|i: int|
            0 <= i < num ==> (#[trigger] final(r)[i]).value() == op.apply(
                a[i].value(),
                b.value(),
                T::BITS as nat,
            ),
        forall|i: int| num <= i < N ==> #[trigger] final(r)[i] == old(r)[i],
{
    let mut i: usize = 0;
    while i < num
        invariant
            i <= num <= N,
            forall|j: int|
                0 <= j < i ==> (#[trigger] r[j]).value() == op.apply(
                    a[j].value(),
                    b.value(),
                    T::BITS as nat,
                ),
            forall|j: int| i <= j < N ==> #[trigger] r[j] == old(r)[j],
        decreases num - i,
    {
        r[i] = op.eval(a[i], b);
        i += 1;
    }
}

/// The first `num` lanes of `r` computed as those of `a` shifted by
/// `amount` masked to the width.
fn lanes_shift<T: Element, const N: usize>(
    op: LaneOp,
    a: &[T; N],
    amount: u32,
    r: &mut [T; N],
    num: usize,
)
    requires
        num <= N,
        op.is_shift(),
    ensures
        forall|i: int|
            0 <= i < num ==> (#[trigger] final(r)[i]).value() == shifted(
                op,
                a[i].value(),
                amount as nat % (T::BITS as nat),
                T::BITS as nat,
            ),
        forall|i: int| num <= i < N ==> #[trigger] final(r)[i] == old(r)[i],
{
    proof {
        T::lemma_bits();
    }
    let masked: u32 = amount % T::BITS;
    let mut i: usize = 0;
    while i < num
        invariant
            i <= num <= N,
            op.is_shift(),
            masked == amount as nat % (T::BITS as nat),
            forall|j: int|
                0 <= j < i ==> (#[trigger] r[j]).value() == shifted(
                    op,
                    a[j].value(),
                    masked as nat,
                    T::BITS as nat,
                ),
            forall|j: int| i <= j < N ==> #[trigger] r[j] == old(r)[j],
        decreases num - i,
    {
        r[i] = op.shift(a[i], masked);
        i += 1;
    }
}

/// The widths of the lane types, as numbers.
proof fn lemma_widths()
    ensures
        U8::BITS == 8,
        U16::BITS == 16,
        U32::BITS == 32,
        U64::BITS == 64,
        U128::BITS == 128,
        U256::BITS == 256,
        U512::BITS == 512,
        U1024::BITS == 1024,
{
    lemma_u8_bits();
    lemma_u16_bits();
    lemma_u32_bits();
    lemma_u64_bits();
    lemma_wide_bits::<U128>();
    lemma_wide_bits::<U256>();
    lemma_wide_bits::<U512>();
}

/// Applies `op` lane by lane to two registers.
fn dispatch_vv(
    op: LaneOp,
    lhs: &VRegister,
    rhs: &VRegister,
    result: &mut VRegister,
    num: usize,
) -> (res: Result<(), Error>)
    requires
        within_lanes(
            lhs.sew() == rhs.sew() && lhs.sew() == old(result).sew(),
            *old(result),
            num as nat,
        ),
    ensures
        applied_vv(op, *lhs, *rhs, *old(result), *final(result), num as nat, res),
{
    proof {
        lemma_widths();
    }
    match (lhs, rhs, result) {
        (VRegister::U1024(a), VRegister::U1024(b), VRegister::U1024(r)) => {
            lanes_vv(op, a, b, r, num);
        },
        (VRegister::U512(a), VRegister::U512(b), VRegister::U512(r)) => {
            lanes_vv(op, a, b, r, num);
        },
        (VRegister::U256(a), VRegister::U256(b), VRegister::U256(r)) => {
            lanes_vv(op, a, b, r, num);
        },
        (VRegister::U128(a), VRegister::U128(b), VRegister::U128(r)) => {
            lanes_vv(op, a, b, r, num);
        },
        (VRegister::U64(a), VRegister::U64(b), VRegister::U64(r)) => {
            lanes_vv(op, a, b, r, num);
        },
        (VRegister::U32(a), VRegister::U32(b), VRegister::U32(r)) => {
            lanes_vv(op, a, b, r, num);
        },
        (VRegister::U16(a), VRegister::U16(b), VRegister::U16(r)) => {
            lanes_vv(op, a, b, r, num);
        },
        (VRegister::U8(a), VRegister::U8(b), VRegister::U8(r)) => {
            lanes_vv(op, a, b, r, num);
        },
        _ => return Err(Error::Unexpected),
    }
    Ok(())
}

/// Applies `op` lane by lane to a register and a scalar register `x`.
fn dispatch_vx(
    op: LaneOp,
    lhs: &VRegister,
    x: u64,
    result: &mut VRegister,
    num: usize,
) -> (res: Result<(), Error>)
    requires
        within_lanes(lhs.sew() == old(result).sew(), *old(result), num as nat),
    ensures
        applied_vx(op, *lhs, x, *old(result), *final(result), num as nat, res),
{
    proof {
        lemma_widths();
    }
    match (lhs, result) {
        (VRegister::U1024(a), VRegister::U1024(r)) => {
            lanes_vs(op, a, U1024::vx(x), r, num);
        },
        (VRegister::U512(a), VRegister::U512(r)) => {
            lanes_vs(op, a, U512::vx(x), r, num);
        },
        (VRegister::U256(a), VRegister::U256(r)) => {
            lanes_vs(op, a, U256::vx(x), r, num);
        },
        (VRegister::U128(a), VRegister::U128(r)) => {
            lanes_vs(op, a, U128::vx(x), r, num);
        },
        (VRegister::U64(a), VRegister::U64(r)) => {
            lanes_vs(op, a, U64::vx(x), r, num);
        },
        (VRegister::U32(a), VRegister::U32(r)) => {
            lanes_vs(op, a, U32::vx(x), r, num);
        },
        (VRegister::U16(a), VRegister::U16(r)) => {
            lanes_vs(op, a, U16::vx(x), r, num);
        },
        (VRegister::U8(a), VRegister::U8(r)) => {
            lanes_vs(op, a, U8::vx(x), r, num);
        },
        _ => return Err(Error::Unexpected),
    }
    Ok(())
}

/// The lane value of an immediate.
fn immediate<T: Element>(imm: i32) -> (r: T)
    requires
        -16 <= imm <= 15,
    ensures
        r.value() == wrap(imm as int, T::BITS as nat),
{
    let r = T::vi(imm);
    proof {
        r.lemma_value_bound();
        lemma_signed_wrap(r.value(), T::BITS as nat);
    }
    r
}

/// Applies `op` lane by lane to a register and an immediate.
fn dispatch_vi(
    op: LaneOp,
    lhs: &VRegister,
    imm: i32,
    result: &mut VRegister,
    num: usize,
) -> (res: Result<(), Error>)
    requires
        -16 <= imm <= 15,
        within_lanes(lhs.sew() == old(result).sew(), *old(result), num as nat),
    ensures
        applied_vi(op, *lhs, imm, *old(result), *final(result), num as nat, res),
{
    proof {
        lemma_widths();
    }
    match (lhs, result) {
        (VRegister::U1024(a), VRegister::U1024(r)) => {
            lanes_vs(op, a, immediate(imm), r, num);
        },
        (VRegister::U512(a), VRegister::U512(r)) => {
            lanes_vs(op, a, immediate(imm), r, num);
        },
        (VRegister::U256(a), VRegister::U256(r)) => {
            lanes_vs(op, a, immediate(imm), r, num);
        },
        (VRegister::U128(a), VRegister::U128(r)) => {
            lanes_vs(op, a, immediate(imm), r, num);
        },
        (VRegister::U64(a), VRegister::U64(r)) => {
            lanes_vs(op, a, immediate(imm), r, num);
        },
        (VRegister::U32(a), VRegister::U32(r)) => {
            lanes_vs(op, a, immediate(imm), r, num);
        },
        (VRegister::U16(a), VRegister::U16(r)) => {
            lanes_vs(op, a, immediate(imm), r, num);
        },
        (VRegister::U8(a), VRegister::U8(r)) => {
            lanes_vs(op, a, immediate(imm), r, num);
        },
        _ => return Err(Error::Unexpected),
    }
    Ok(())
}

/// Shifts a register lane by lane by an immediate amount.
fn dispatch_shift(
    op: LaneOp,
    lhs: &VRegister,
    amount: u32,
    result: &mut VRegister,
    num: usize,
) -> (res: Result<(), Error>)
    requires
        op.is_shift(),
        within_lanes(lhs.sew() == old(result).sew(), *old(result), num as nat),
    ensures
        applied_shift(op, *lhs, amount, *old(result), *final(result), num as nat, res),
{
    proof {
        lemma_widths();
    }
    match (lhs, result) {
        (VRegister::U1024(a), VRegister::U1024(r)) => {
            lanes_shift(op, a, amount, r, num);
        },
        (VRegister::U512(a), VRegister::U512(r)) => {
            lanes_shift(op, a, amount, r, num);
        },
        (VRegister::U256(a), VRegister::U256(r)) => {
            lanes_shift(op, a, amount, r, num);
        },
        (VRegister::U128(a), VRegister::U128(r)) => {
            lanes_shift(op, a, amount, r, num);
        },
        (VRegister::U64(a), VRegister::U64(r)) => {
            lanes_shift(op, a, amount, r, num);
        },
        (VRegister::U32(a), VRegister::U32(r)) => {
            lanes_shift(op, a, amount, r, num);
        },
        (VRegister::U16(a), VRegister::U16(r)) => {
            lanes_shift(op, a, amount, r, num);
        },
        (VRegister::U8(a), VRegister::U8(r)) => {
            lanes_shift(op, a, amount, r, num);
        },
        _ => return Err(Error::Unexpected),
    }
    Ok(())
}

/// Adds the lanes of `rhs` to the lanes of `lhs`, wrapping.
pub fn vfunc_add_vv(
    lhs: &VRegister,
    rhs: &VRegister,
    result: &mut VRegister,
    num: usize,
) -> (res: Result<(), Error>)
    requires
        within_lanes(
            lhs.sew() == rhs.sew() && lhs.sew() == old(result).sew(),
            *old(result),
            num as nat,
        ),
    ensures
        applied_vv(LaneOp::Add, *lhs, *rhs, *old(result), *final(result), num as nat, res),
{
    dispatch_vv(LaneOp::Add, lhs, rhs, result, num)
}

/// Adds the scalar `rhs` to the lanes of `lhs`, wrapping.
pub fn vfunc_add_vx(
    lhs: &VRegister,
    rhs: u64,
    result: &mut VRegister,
    num: usize,
) -> (res: Result<(), Error>)
    requires
        within_lanes(lhs.sew() == old(result).sew(), *old(result), num as nat),
    ensures
        applied_vx(LaneOp::Add, *lhs, rhs, *old(result), *final(result), num as nat, res),
{
    dispatch_vx(LaneOp::Add, lhs, rhs, result, num)
}

/// Adds the immediate `imm` to the lanes of `lhs`, wrapping.
pub fn vfunc_add_vi(
    lhs: &VRegister,
    imm: i32,
    result: &mut VRegister,
    num: usize,
) -> (res: Result<(), Error>)
    requires
        -16 <= imm <= 15,
        within_lanes(lhs.sew() == old(result).sew(), *old(result), num as nat),
    ensures
        applied_vi(LaneOp::Add, *lhs, imm, *old(result), *final(result), num as nat, res),
{
    dispatch_vi(LaneOp::Add, lhs, imm, result, num)
}

/// Subtracts the lanes of `rhs` from the lanes of `lhs`, wrapping.
pub fn vfunc_sub_vv(
    lhs: &VRegister,
    rhs: &VRegister,
    result: &mut VRegister,
    num: usize,
) -> (res: Result<(), Error>)
    requires
        within_lanes(
            lhs.sew() == rhs.sew() && lhs.sew() == old(result).sew(),
            *old(result),
            num as nat,
        ),
    ensures
        applied_vv(LaneOp::Sub, *lhs, *rhs, *old(result), *final(result), num as nat, res),
{
    dispatch_vv(LaneOp::Sub, lhs, rhs, result, num)
}

/// Subtracts the scalar `rhs` from the lanes of `lhs`, wrapping.
pub fn vfunc_sub_vx(
    lhs: &VRegister,
    rhs: u64,
    result: &mut VRegister,
    num: usize,
) -> (res: Result<(), Error>)
    requires
        within_lanes(lhs.sew() == old(result).sew(), *old(result), num as nat),
    ensures
        applied_vx(LaneOp::Sub, *lhs, rhs, *old(result), *final(result), num as nat, res),
{
    dispatch_vx(LaneOp::Sub, lhs, rhs, result, num)
}

/// Subtracts the lanes of `lhs` from the scalar `rhs`, wrapping.
pub fn vfunc_rsub_vx(
    lhs: &VRegister,
    rhs: u64,
    result: &mut VRegister,
    num: usize,
) -> (res: Result<(), Error>)
    requires
        within_lanes(lhs.sew() == old(result).sew(), *old(result), num as nat),
    ensures
        applied_vx(LaneOp::Rsub, *lhs, rhs, *old(result), *final(result), num as nat, res),
{
    dispatch_vx(LaneOp::Rsub, lhs, rhs, result, num)
}

/// Subtracts the lanes of `lhs` from the immediate `rhs`, wrapping.
pub fn vfunc_rsub_vi(
    lhs: &VRegister,
    rhs: i32,
    result: &mut VRegister,
    num: usize,
) -> (res: Result<(), Error>)
    requires
        -16 <= rhs <= 15,
        within_lanes(lhs.sew() == old(result).sew(), *old(result), num as nat),
    ensures
        applied_vi(LaneOp::Rsub, *lhs, rhs, *old(result), *final(result), num as nat, res),
{
    dispatch_vi(LaneOp::Rsub, lhs, rhs, result, num)
}

/// Multiplies the lanes of `lhs` by the lanes of `rhs`, wrapping.
pub fn vfunc_mul_vv(
    lhs: &VRegister,
    rhs: &VRegister,
    result: &mut VRegister,
    num: usize,
) -> (res: Result<(), Error>)
    requires
        within_lanes(
            lhs.sew() == rhs.sew() && lhs.sew() == old(result).sew(),
            *old(result),
            num as nat,
        ),
    ensures
        applied_vv(LaneOp::Mul, *lhs, *rhs, *old(result), *final(result), num as nat, res),
{
    dispatch_vv(LaneOp::Mul, lhs, rhs, result, num)
}

/// Multiplies the lanes of `lhs` by the scalar `rhs`, wrapping.
pub fn vfunc_mul_vx(
    lhs: &VRegister,
    rhs: u64,
    result: &mut VRegister,
    num: usize,
) -> (res: Result<(), Error>)
    requires
        within_lanes(lhs.sew() == old(result).sew(), *old(result), num as nat),
    ensures
        applied_vx(LaneOp::Mul, *lhs, rhs, *old(result), *final(result), num as nat, res),
{
    dispatch_vx(LaneOp::Mul, lhs, rhs, result, num)
}

/// Shifts the lanes of `lhs` left by the lanes of `rhs`, masked to the element width.
pub fn vfunc_sll_vv(
    lhs: &VRegister,
    rhs: &VRegister,
    result: &mut VRegister,
    num: usize,
) -> (res: Result<(), Error>)
    requires
        within_lanes(
            lhs.sew() == rhs.sew() && lhs.sew() == old(result).sew(),
            *old(result),
            num as nat,
        ),
    ensures
        applied_vv(LaneOp::Sll, *lhs, *rhs, *old(result), *final(result), num as nat, res),
{
    dispatch_vv(LaneOp::Sll, lhs, rhs, result, num)
}

/// Shifts the lanes of `lhs` left by the immediate `rhs`, masked to the element width.
pub fn vfunc_sll_vi(
    lhs: &VRegister,
    rhs: u32,
    result: &mut VRegister,
    num: usize,
) -> (res: Result<(), Error>)
    requires
        within_lanes(lhs.sew() == old(result).sew(), *old(result), num as nat),
    ensures
        applied_shift(LaneOp::Sll, *lhs, rhs, *old(result), *final(result), num as nat, res),
{
    dispatch_shift(LaneOp::Sll, lhs, rhs, result, num)
}

/// Shifts the lanes of `lhs` right by the lanes of `rhs`, masked to the element width; zeros come
/// in.
pub fn vfunc_srl_vv(
    lhs: &VRegister,
    rhs: &VRegister,
    result: &mut VRegister,
    num: usize,
) -> (res: Result<(), Error>)
    requires
        within_lanes(
            lhs.sew() == rhs.sew() && lhs.sew() == old(result).sew(),
            *old(result),
            num as nat,
        ),
    ensures
        applied_vv(LaneOp::Srl, *lhs, *rhs, *old(result), *final(result), num as nat, res),
{
    dispatch_vv(LaneOp::Srl, lhs, rhs, result, num)
}

/// Shifts the lanes of `lhs` right by the immediate `rhs`, masked to the element width; zeros come
/// in.
pub fn vfunc_srl_vi(
    lhs: &VRegister,
    rhs: u32,
    result: &mut VRegister,
    num: usize,
) -> (res: Result<(), Error>)
    requires
        within_lanes(lhs.sew() == old(result).sew(), *old(result), num as nat),
    ensures
        applied_shift(LaneOp::Srl, *lhs, rhs, *old(result), *final(result), num as nat, res),
{
    dispatch_shift(LaneOp::Srl, lhs, rhs, result, num)
}

/// Shifts the lanes of `lhs` right by the lanes of `rhs`, masked to the element width; the sign bit
/// comes in.
pub fn vfunc_sra_vv(
    lhs: &VRegister,
    rhs: &VRegister,
    result: &mut VRegister,
    num: usize,
) -> (res: Result<(), Error>)
    requires
        within_lanes(
            lhs.sew() == rhs.sew() && lhs.sew() == old(result).sew(),
            *old(result),
            num as nat,
        ),
    ensures
        applied_vv(LaneOp::Sra, *lhs, *rhs, *old(result), *final(result), num as nat, res),
{
    dispatch_vv(LaneOp::Sra, lhs, rhs, result, num)
}

/// Shifts the lanes of `lhs` right by the immediate `rhs`, masked to the element width; the sign
/// bit comes in.
pub fn vfunc_sra_vi(
    lhs: &VRegister,
    rhs: u32,
    result: &mut VRegister,
    num: usize,
) -> (res: Result<(), Error>)
    requires
        within_lanes(lhs.sew() == old(result).sew(), *old(result), num as nat),
    ensures
        applied_shift(LaneOp::Sra, *lhs, rhs, *old(result), *final(result), num as nat, res),
{
    dispatch_shift(LaneOp::Sra, lhs, rhs, result, num)
}

/// Divides the lanes of `lhs` by the lanes of `rhs`, unsigned. A zero divisor gives all bits set.
pub fn vfunc_divu_vv(
    lhs: &VRegister,
    rhs: &VRegister,
    result: &mut VRegister,
    num: usize,
) -> (res: Result<(), Error>)
    requires
        within_lanes(
            lhs.sew() == rhs.sew() && lhs.sew() == old(result).sew(),
            *old(result),
            num as nat,
        ),
    ensures
        applied_vv(LaneOp::Divu, *lhs, *rhs, *old(result), *final(result), num as nat, res),
{
    dispatch_vv(LaneOp::Divu, lhs, rhs, result, num)
}

/// Divides the lanes of `lhs` by the scalar `rhs`, unsigned. A zero divisor gives all bits set.
pub fn vfunc_divu_vx(
    lhs: &VRegister,
    rhs: u64,
    result: &mut VRegister,
    num: usize,
) -> (res: Result<(), Error>)
    requires
        within_lanes(lhs.sew() == old(result).sew(), *old(result), num as nat),
    ensures
        applied_vx(LaneOp::Divu, *lhs, rhs, *old(result), *final(result), num as nat, res),
{
    dispatch_vx(LaneOp::Divu, lhs, rhs, result, num)
}

/// The remainders of the lanes of `lhs` by the lanes of `rhs`, unsigned. A zero divisor gives the
/// dividend.
pub fn vfunc_remu_vv(
    lhs: &VRegister,
    rhs: &VRegister,
    result: &mut VRegister,
    num: usize,
) -> (res: Result<(), Error>)
    requires
        within_lanes(
            lhs.sew() == rhs.sew() && lhs.sew() == old(result).sew(),
            *old(result),
            num as nat,
        ),
    ensures
        applied_vv(LaneOp::Remu, *lhs, *rhs, *old(result), *final(result), num as nat, res),
{
    dispatch_vv(LaneOp::Remu, lhs, rhs, result, num)
}

/// The remainders of the lanes of `lhs` by the scalar `rhs`, unsigned. A zero divisor gives the
/// dividend.
pub fn vfunc_remu_vx(
    lhs: &VRegister,
    rhs: u64,
    result: &mut VRegister,
    num: usize,
) -> (res: Result<(), Error>)
    requires
        within_lanes(lhs.sew() == old(result).sew(), *old(result), num as nat),
    ensures
        applied_vx(LaneOp::Remu, *lhs, rhs, *old(result), *final(result), num as nat, res),
{
    dispatch_vx(LaneOp::Remu, lhs, rhs, result, num)
}

/// Sets a lane to one where the lane of `lhs` equals the lanes of `rhs`, to zero where not.
pub fn vfunc_mseq_vv(
    lhs: &VRegister,
    rhs: &VRegister,
    result: &mut VRegister,
    num: usize,
) -> (res: Result<(), Error>)
    requires
        within_lanes(
            lhs.sew() == rhs.sew() && lhs.sew() == old(result).sew(),
            *old(result),
            num as nat,
        ),
    ensures
        applied_vv(LaneOp::Mseq, *lhs, *rhs, *old(result), *final(result), num as nat, res),
{
    dispatch_vv(LaneOp::Mseq, lhs, rhs, result, num)
}

/// Sets a lane to one where the lane of `lhs` equals the scalar `rhs`, to zero where not.
pub fn vfunc_mseq_vx(
    lhs: &VRegister,
    rhs: u64,
    result: &mut VRegister,
    num: usize,
) -> (res: Result<(), Error>)
    requires
        within_lanes(lhs.sew() == old(result).sew(), *old(result), num as nat),
    ensures
        applied_vx(LaneOp::Mseq, *lhs, rhs, *old(result), *final(result), num as nat, res),
{
    dispatch_vx(LaneOp::Mseq, lhs, rhs, result, num)
}

/// Sets a lane to one where the lane of `lhs` equals the immediate `rhs`, to zero where not.
pub fn vfunc_mseq_vi(
    lhs: &VRegister,
    rhs: i32,
    result: &mut VRegister,
    num: usize,
) -> (res: Result<(), Error>)
    requires
        -16 <= rhs <= 15,
        within_lanes(lhs.sew() == old(result).sew(), *old(result), num as nat),
    ensures
        applied_vi(LaneOp::Mseq, *lhs, rhs, *old(result), *final(result), num as nat, res),
{
    dispatch_vi(LaneOp::Mseq, lhs, rhs, result, num)
}

/// Sets a lane to one where the lane of `lhs` differs from the lanes of `rhs`, to zero where not.
pub fn vfunc_msne_vv(
    lhs: &VRegister,
    rhs: &VRegister,
    result: &mut VRegister,
    num: usize,
) -> (res: Result<(), Error>)
    requires
        within_lanes(
            lhs.sew() == rhs.sew() && lhs.sew() == old(result).sew(),
            *old(result),
            num as nat,
        ),
    ensures
        applied_vv(LaneOp::Msne, *lhs, *rhs, *old(result), *final(result), num as nat, res),
{
    dispatch_vv(LaneOp::Msne, lhs, rhs, result, num)
}

/// Sets a lane to one where the lane of `lhs` differs from the scalar `rhs`, to zero where not.
pub fn vfunc_msne_vx(
    lhs: &VRegister,
    rhs: u64,
    result: &mut VRegister,
    num: usize,
) -> (res: Result<(), Error>)
    requires
        within_lanes(lhs.sew() == old(result).sew(), *old(result), num as nat),
    ensures
        applied_vx(LaneOp::Msne, *lhs, rhs, *old(result), *final(result), num as nat, res),
{
    dispatch_vx(LaneOp::Msne, lhs, rhs, result, num)
}

/// Sets a lane to one where the lane of `lhs` differs from the immediate `rhs`, to zero where not.
pub fn vfunc_msne_vi(
    lhs: &VRegister,
    rhs: i32,
    result: &mut VRegister,
    num: usize,
) -> (res: Result<(), Error>)
    requires
        -16 <= rhs <= 15,
        within_lanes(lhs.sew() == old(result).sew(), *old(result), num as nat),
    ensures
        applied_vi(LaneOp::Msne, *lhs, rhs, *old(result), *final(result), num as nat, res),
{
    dispatch_vi(LaneOp::Msne, lhs, rhs, result, num)
}

/// Sets a lane to one where the lane of `lhs` is below the lanes of `rhs`, unsigned, to zero where
/// not.
pub fn vfunc_msltu_vv(
    lhs: &VRegister,
    rhs: &VRegister,
    result: &mut VRegister,
    num: usize,
) -> (res: Result<(), Error>)
    requires
        within_lanes(
            lhs.sew() == rhs.sew() && lhs.sew() == old(result).sew(),
            *old(result),
            num as nat,
        ),
    ensures
        applied_vv(LaneOp::Msltu, *lhs, *rhs, *old(result), *final(result), num as nat, res),
{
    dispatch_vv(LaneOp::Msltu, lhs, rhs, result, num)
}

/// Sets a lane to one where the lane of `lhs` is below the scalar `rhs`, unsigned, to zero where
/// not.
pub fn vfunc_msltu_vx(
    lhs: &VRegister,
    rhs: u64,
    result: &mut VRegister,
    num: usize,
) -> (res: Result<(), Error>)
    requires
        within_lanes(lhs.sew() == old(result).sew(), *old(result), num as nat),
    ensures
        applied_vx(LaneOp::Msltu, *lhs, rhs, *old(result), *final(result), num as nat, res),
{
    dispatch_vx(LaneOp::Msltu, lhs, rhs, result, num)
}

/// Sets a lane to one where the lane of `lhs` is at most the lanes of `rhs`, unsigned, to zero
/// where not.
pub fn vfunc_msleu_vv(
    lhs: &VRegister,
    rhs: &VRegister,
    result: &mut VRegister,
    num: usize,
) -> (res: Result<(), Error>)
    requires
        within_lanes(
            lhs.sew() == rhs.sew() && lhs.sew() == old(result).sew(),
            *old(result),
            num as nat,
        ),
    ensures
        applied_vv(LaneOp::Msleu, *lhs, *rhs, *old(result), *final(result), num as nat, res),
{
    dispatch_vv(LaneOp::Msleu, lhs, rhs, result, num)
}

/// Sets a lane to one where the lane of `lhs` is at most the scalar `rhs`, unsigned, to zero where
/// not.
pub fn vfunc_msleu_vx(
    lhs: &VRegister,
    rhs: u64,
    result: &mut VRegister,
    num: usize,
) -> (res: Result<(), Error>)
    requires
        within_lanes(lhs.sew() == old(result).sew(), *old(result), num as nat),
    ensures
        applied_vx(LaneOp::Msleu, *lhs, rhs, *old(result), *final(result), num as nat, res),
{
    dispatch_vx(LaneOp::Msleu, lhs, rhs, result, num)
}

/// Sets a lane to one where the lane of `lhs` is at most the immediate `rhs`, unsigned, to zero
/// where not.
pub fn vfunc_msleu_vi(
    lhs: &VRegister,
    rhs: i32,
    result: &mut VRegister,
    num: usize,
) -> (res: Result<(), Error>)
    requires
        -16 <= rhs <= 15,
        within_lanes(lhs.sew() == old(result).sew(), *old(result), num as nat),
    ensures
        applied_vi(LaneOp::Msleu, *lhs, rhs, *old(result), *final(result), num as nat, res),
{
    dispatch_vi(LaneOp::Msleu, lhs, rhs, result, num)
}

/// Sets a lane to one where the lane of `lhs` is above the scalar `rhs`, unsigned, to zero where
/// not.
pub fn vfunc_msgtu_vx(
    lhs: &VRegister,
    rhs: u64,
    result: &mut VRegister,
    num: usize,
) -> (res: Result<(), Error>)
    requires
        within_lanes(lhs.sew() == old(result).sew(), *old(result), num as nat),
    ensures
        applied_vx(LaneOp::Msgtu, *lhs, rhs, *old(result), *final(result), num as nat, res),
{
    dispatch_vx(LaneOp::Msgtu, lhs, rhs, result, num)
}

/// Sets a lane to one where the lane of `lhs` is above the immediate `rhs`, unsigned, to zero where
/// not.
pub fn vfunc_msgtu_vi(
    lhs: &VRegister,
    rhs: i32,
    result: &mut VRegister,
    num: usize,
) -> (res: Result<(), Error>)
    requires
        -16 <= rhs <= 15,
        within_lanes(lhs.sew() == old(result).sew(), *old(result), num as nat),
    ensures
        applied_vi(LaneOp::Msgtu, *lhs, rhs, *old(result), *final(result), num as nat, res),
{
    dispatch_vi(LaneOp::Msgtu, lhs, rhs, result, num)
}

/// Sets a lane to one where the lane of `lhs` is above the scalar `rhs`, signed, to zero where not.
pub fn vfunc_msgt_vx(
    lhs: &VRegister,
    rhs: u64,
    result: &mut VRegister,
    num: usize,
) -> (res: Result<(), Error>)
    requires
        within_lanes(lhs.sew() == old(result).sew(), *old(result), num as nat),
    ensures
        applied_vx(LaneOp::Msgt, *lhs, rhs, *old(result), *final(result), num as nat, res),
{
    dispatch_vx(LaneOp::Msgt, lhs, rhs, result, num)
}

/// Sets a lane to one where the lane of `lhs` is above the immediate `rhs`, signed, to zero where
/// not.
pub fn vfunc_msgt_vi(
    lhs: &VRegister,
    rhs: i32,
    result: &mut VRegister,
    num: usize,
) -> (res: Result<(), Error>)
    requires
        -16 <= rhs <= 15,
        within_lanes(lhs.sew() == old(result).sew(), *old(result), num as nat),
    ensures
        applied_vi(LaneOp::Msgt, *lhs, rhs, *old(result), *final(result), num as nat, res),
{
    dispatch_vi(LaneOp::Msgt, lhs, rhs, result, num)
}

/// Sets a lane to one where the lane of `lhs` is below the lanes of `rhs`, signed, to zero where
/// not.
pub fn vfunc_mslt_vv(
    lhs: &VRegister,
    rhs: &VRegister,
    result: &mut VRegister,
    num: usize,
) -> (res: Result<(), Error>)
    requires
        within_lanes(
            lhs.sew() == rhs.sew() && lhs.sew() == old(result).sew(),
            *old(result),
            num as nat,
        ),
    ensures
        applied_vv(LaneOp::Mslt, *lhs, *rhs, *old(result), *final(result), num as nat, res),
{
    dispatch_vv(LaneOp::Mslt, lhs, rhs, result, num)
}

/// Sets a lane to one where the lane of `lhs` is below the scalar `rhs`, signed, to zero where not.
pub fn vfunc_mslt_vx(
    lhs: &VRegister,
    rhs: u64,
    result: &mut VRegister,
    num: usize,
) -> (res: Result<(), Error>)
    requires
        within_lanes(lhs.sew() == old(result).sew(), *old(result), num as nat),
    ensures
        applied_vx(LaneOp::Mslt, *lhs, rhs, *old(result), *final(result), num as nat, res),
{
    dispatch_vx(LaneOp::Mslt, lhs, rhs, result, num)
}

/// Sets a lane to one where the lane of `lhs` is at most the lanes of `rhs`, signed, to zero where
/// not.
pub fn vfunc_msle_vv(
    lhs: &VRegister,
    rhs: &VRegister,
    result: &mut VRegister,
    num: usize,
) -> (res: Result<(), Error>)
    requires
        within_lanes(
            lhs.sew() == rhs.sew() && lhs.sew() == old(result).sew(),
            *old(result),
            num as nat,
        ),
    ensures
        applied_vv(LaneOp::Msle, *lhs, *rhs, *old(result), *final(result), num as nat, res),
{
    dispatch_vv(LaneOp::Msle, lhs, rhs, result, num)
}

/// Sets a lane to one where the lane of `lhs` is at most the scalar `rhs`, signed, to zero where
/// not.
pub fn vfunc_msle_vx(
    lhs: &VRegister,
    rhs: u64,
    result: &mut VRegister,
    num: usize,
) -> (res: Result<(), Error>)
    requires
        within_lanes(lhs.sew() == old(result).sew(), *old(result), num as nat),
    ensures
        applied_vx(LaneOp::Msle, *lhs, rhs, *old(result), *final(result), num as nat, res),
{
    dispatch_vx(LaneOp::Msle, lhs, rhs, result, num)
}

/// Sets a lane to one where the lane of `lhs` is at most the immediate `rhs`, signed, to zero where
/// not.
pub fn vfunc_msle_vi(
    lhs: &VRegister,
    rhs: i32,
    result: &mut VRegister,
    num: usize,
) -> (res: Result<(), Error>)
    requires
        -16 <= rhs <= 15,
        within_lanes(lhs.sew() == old(result).sew(), *old(result), num as nat),
    ensures
        applied_vi(LaneOp::Msle, *lhs, rhs, *old(result), *final(result), num as nat, res),
{
    dispatch_vi(LaneOp::Msle, lhs, rhs, result, num)
}

/// Divides the lanes of `lhs` by the lanes of `rhs`, signed and rounding toward zero. A zero
/// divisor gives -1, and the least value divided by -1 gives itself.
pub fn vfunc_div_vv(
    lhs: &VRegister,
    rhs: &VRegister,
    result: &mut VRegister,
    num: usize,
) -> (res: Result<(), Error>)
    requires
        within_lanes(
            lhs.sew() == rhs.sew() && lhs.sew() == old(result).sew(),
            *old(result),
            num as nat,
        ),
    ensures
        applied_vv(LaneOp::Div, *lhs, *rhs, *old(result), *final(result), num as nat, res),
{
    dispatch_vv(LaneOp::Div, lhs, rhs, result, num)
}

/// Divides the lanes of `lhs` by the scalar `rhs`, signed and rounding toward zero. A zero divisor
/// gives -1, and the least value divided by -1 gives itself.
pub fn vfunc_div_vx(
    lhs: &VRegister,
    rhs: u64,
    result: &mut VRegister,
    num: usize,
) -> (res: Result<(), Error>)
    requires
        within_lanes(lhs.sew() == old(result).sew(), *old(result), num as nat),
    ensures
        applied_vx(LaneOp::Div, *lhs, rhs, *old(result), *final(result), num as nat, res),
{
    dispatch_vx(LaneOp::Div, lhs, rhs, result, num)
}

/// The remainders of the lanes of `lhs` by the lanes of `rhs`, signed, with the sign of the
/// dividend. A zero divisor gives the dividend, and the least value by -1 gives zero.
pub fn vfunc_rem_vv(
    lhs: &VRegister,
    rhs: &VRegister,
    result: &mut VRegister,
    num: usize,
) -> (res: Result<(), Error>)
    requires
        within_lanes(
            lhs.sew() == rhs.sew() && lhs.sew() == old(result).sew(),
            *old(result),
            num as nat,
        ),
    ensures
        applied_vv(LaneOp::Rem, *lhs, *rhs, *old(result), *final(result), num as nat, res),
{
    dispatch_vv(LaneOp::Rem, lhs, rhs, result, num)
}

/// The remainders of the lanes of `lhs` by the scalar `rhs`, signed, with the sign of the dividend.
/// A zero divisor gives the dividend, and the least value by -1 gives zero.
pub fn vfunc_rem_vx(
    lhs: &VRegister,
    rhs: u64,
    result: &mut VRegister,
    num: usize,
) -> (res: Result<(), Error>)
    requires
        within_lanes(lhs.sew() == old(result).sew(), *old(result), num as nat),
    ensures
        applied_vx(LaneOp::Rem, *lhs, rhs, *old(result), *final(result), num as nat, res),
{
    dispatch_vx(LaneOp::Rem, lhs, rhs, result, num)
}

} // verus!
