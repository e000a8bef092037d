//! Fixed-width integers of 8 to 1024 bits with wrapping arithmetic, and
//! the element-wise operations of a vector unit on registers of such
//! lanes.
//!
//! Every element type stands for a natural number below `2^BITS`, and
//! each operation is specified by what it does to these numbers: see
//! [`Element`]. The wide types are pairs of halves; their division is
//! long division by digits. [`VRegister`] is a register of 2048 bits,
//! and the `vfunc_*` functions compute its lanes.
pub mod byte;
pub mod byte_ops;
pub mod bytes;
pub mod convert;
pub mod doubleword;
pub mod doubleword_ops;
pub mod element;
pub mod halfword;
pub mod halfword_ops;
pub mod halves;
pub mod lane_op;
pub mod long_division;
pub mod modular;
pub mod native;
pub mod ops;
pub mod ordering;
pub mod quadword;
pub mod quadword_ops;
pub mod signed;
pub mod signed_ops;
pub mod v_register;
pub mod wide;
pub mod wide_bytes;
pub mod wide_div;
pub mod wide_mul;
pub mod wide_ops;
pub mod wide_shift;
pub mod word;
pub mod word_ops;

pub use byte::U8;
pub use doubleword::U64;
pub use element::{Element, Half};
pub use halfword::U16;
pub use lane_op::LaneOp;
pub use quadword::U128;
pub use signed::{Signed, I1024, I256, I512};
pub use v_register::{Error, VRegister};
pub use wide::{Wide, U1024, U256, U512};
pub use word::U32;
