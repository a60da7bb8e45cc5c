//! The meaning of C0's operators on 32-bit integers, stated on mathematical integers:
//! two's complement wrapping, division that truncates toward zero, shifts and the
//! comparisons. The constant folder, the LLVM lowering and the x86 comparisons are
//! held to these definitions.
use vstd::prelude::*;

use crate::ast::BinOp;

verus! {

/// Number of values of a 32-bit integer.
pub open spec fn two32() -> int {
    4294967296
}

/// The 32-bit two's complement value congruent to `x` modulo 2^32.
pub open spec fn wrap32(x: int) -> int {
    let m = x % two32();
    if m >= 2147483648 { m - two32() } else { m }
}

/// Absolute value.
pub open spec fn abs(x: int) -> int {
    if x < 0 { -x } else { x }
}

/// Quotient of `a` by `b`, truncated toward zero.
pub open spec fn tdiv(a: int, b: int) -> int {
    let q = abs(a) / abs(b);
    if (a < 0) != (b < 0) { -q } else { q }
}

/// Remainder of the division of `a` by `b` truncated toward zero: it has the sign of `a`.
pub open spec fn trem(a: int, b: int) -> int {
    a - b * tdiv(a, b)
}

/// One for true, zero for false.
pub open spec fn bool_value(b: bool) -> int {
    if b { 1 } else { 0 }
}

/// The division or remainder traps: by zero, or the least integer by minus one.
pub open spec fn div_traps(a: i32, b: i32) -> bool {
    b == 0 || (a == i32::MIN && b == -1)
}

/// The shift amount is outside 0 to 31.
pub open spec fn shift_traps(b: i32) -> bool {
    b < 0 || b > 31
}

/// Value of the C0 expression `a op b` on 32-bit integers (booleans as 0 and 1); `None`
/// where evaluation traps.
pub open spec fn c0_binop(op: BinOp, a: i32, b: i32) -> Option<int> {
    match op {
        BinOp::Add => Some(wrap32(a + b)),
        BinOp::Sub => Some(wrap32(a - b)),
        BinOp::Mul => Some(wrap32(a * b)),
        BinOp::Div => if div_traps(a, b) { None } else { Some(tdiv(a as int, b as int)) },
        BinOp::Mod => if div_traps(a, b) { None } else { Some(trem(a as int, b as int)) },
        BinOp::And => Some((a & b) as int),
        BinOp::Xor => Some((a ^ b) as int),
        BinOp::Or => Some((a | b) as int),
        BinOp::Sal => if shift_traps(b) { None } else { Some((a << (b as u32)) as int) },
        BinOp::Sar => if shift_traps(b) { None } else { Some((a >> (b as u32)) as int) },
        BinOp::LAnd => Some(bool_value(a != 0 && b != 0)),
        BinOp::LOr => Some(bool_value(a != 0 || b != 0)),
        BinOp::CmpEq => Some(bool_value(a == b)),
        BinOp::CmpNeq => Some(bool_value(a != b)),
        BinOp::Lt => Some(bool_value(a < b)),
        BinOp::Gt => Some(bool_value(a > b)),
        BinOp::Lte => Some(bool_value(a <= b)),
        BinOp::Gte => Some(bool_value(a >= b)),
    }
}

/// Wrapping lands in the 32-bit range and keeps the value modulo 2^32.
pub proof fn lemma_wrap32(x: int)
    ensures
        i32::MIN <= wrap32(x) <= i32::MAX,
        i32::MIN <= x <= i32::MAX ==> wrap32(x) == x,
{
}

} // verus!
