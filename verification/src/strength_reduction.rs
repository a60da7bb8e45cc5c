//! Local x86-64 strength reduction: a left-to-right peephole pass over one
//! function's instructions.
use vstd::prelude::*;

use crate::x86asm::{Immediate, LeaAddr, Width, X86Instr, X86Operand, X86Reg, X86WReg};

verus! {

/// Instructions after which the flags are no longer observed (end of a block).
pub open spec fn ends_flag_range(i: X86Instr) -> bool {
    i is Label || i is Jmp || i is Call || i is Ret
}

/// Instructions that read the flags.
pub open spec fn reads_flags(i: X86Instr) -> bool {
    i is Jne || i is Je || i is Jl || i is Jg || i is Jle || i is Sete || i is Setne || i is Setl
        || i is Setg || i is Setle || i is Setge
}

/// Instructions that overwrite the flags.
pub open spec fn writes_flags(i: X86Instr) -> bool {
    i is Add || i is Sub || i is IMul || i is And || i is Xor || i is Or || i is Sal || i is Sar
        || i is Neg || i is Cmp || i is Test
}

/// No instruction from position `j` on reads the flags before they are overwritten
/// or the block ends.
pub open spec fn flags_dead_from(s: Seq<X86Instr>, j: int) -> bool
    decreases s.len() - j,
{
    if j >= s.len() {
        true
    } else if ends_flag_range(s[j]) {
        true
    } else if reads_flags(s[j]) {
        false
    } else if writes_flags(s[j]) {
        true
    } else {
        flags_dead_from(s, j + 1)
    }
}

/// Widths at which `lea` can compute a result.
pub open spec fn lea_width(w: Width) -> bool {
    w == Width::W32 || w == Width::W64
}

/// Operands that live in memory.
pub open spec fn memory_like(op: X86Operand) -> bool {
    op is Stack || op is Memory
}

/// The two scratch registers, which hold no value across instructions.
pub open spec fn scratch_register(r: X86Reg) -> bool {
    r == X86Reg::R10 || r == X86Reg::R11
}

/// The `lea` address that multiplies `src` by `k`, for the factors that one `lea` can form.
pub open spec fn mul_lea(src: X86Reg, k: i64) -> Option<LeaAddr> {
    if k == 2 || k == 4 || k == 8 {
        Some(LeaAddr { base: None, index: Some(src), scale: k as u8, disp: 0 })
    } else if k == 3 || k == 5 || k == 9 {
        Some(LeaAddr { base: Some(src), index: Some(src), scale: (k - 1) as u8, disp: 0 })
    } else {
        None
    }
}

/// Address that `lea` computes from `addr` when each register `r` holds `regs(r)`:
/// base, plus index times scale, plus displacement.
pub open spec fn lea_value(addr: LeaAddr, regs: spec_fn(X86Reg) -> int) -> int {
    (match addr.base {
        Some(r) => regs(r),
        None => 0,
    }) + (match addr.index {
        Some(r) => regs(r) * addr.scale,
        None => 0,
    }) + addr.disp
}

/// `lea` in place of `mov src, dst; sal $k, dst` computes `src` times 2^k into `dst`.
pub proof fn lemma_lea_of_shift_value(src: X86WReg, dst: X86WReg, imm: Immediate, regs: spec_fn(X86Reg) -> int)
    requires
        lea_of_shift(
            X86Instr::Mov(X86Operand::Register(src), X86Operand::Register(dst)),
            X86Instr::Sal(Some(X86Operand::Immediate(imm)), X86Operand::Register(dst)),
        ) is Some,
    ensures
        lea_of_shift(
            X86Instr::Mov(X86Operand::Register(src), X86Operand::Register(dst)),
            X86Instr::Sal(Some(X86Operand::Immediate(imm)), X86Operand::Register(dst)),
        ) matches Some(X86Instr::Lea(addr, d)) && d == dst && 1 <= imm.value <= 3
            && lea_value(addr, regs) == regs(src.register) * vstd::arithmetic::power2::pow2(imm.value as nat),
{
    vstd::arithmetic::power2::lemma2_to64();
}

/// `lea` in place of `imul $k, src, dst` computes `src` times `k` into `dst`.
pub proof fn lemma_lea_of_imul_value(imm: Immediate, src: X86WReg, dst: X86WReg, regs: spec_fn(X86Reg) -> int)
    requires
        lea_of_imul(X86Instr::IMul(Some(X86Operand::Immediate(imm)), X86Operand::Register(src), X86Operand::Register(dst))) is Some,
    ensures
        lea_of_imul(X86Instr::IMul(Some(X86Operand::Immediate(imm)), X86Operand::Register(src), X86Operand::Register(dst)))
            matches Some(X86Instr::Lea(addr, d)) && d == dst && lea_value(addr, regs) == regs(src.register) * imm.value,
{
    let v = regs(src.register);
    let k = imm.value as int;
    if k == 2 || k == 4 || k == 8 {
        assert((k as u8) as int == k);
    } else {
        assert(((k - 1) as u8) as int == k - 1);
        assert(v + v * (k - 1) == v * k) by (nonlinear_arith);
    }
}

/// `lea` in place of `mov src, dst; add $k, dst` computes `src` plus `k` into `dst`.
pub proof fn lemma_lea_of_add_imm_value(src: X86WReg, dst: X86WReg, imm: Immediate, regs: spec_fn(X86Reg) -> int)
    requires
        lea_of_add_imm(
            X86Instr::Mov(X86Operand::Register(src), X86Operand::Register(dst)),
            X86Instr::Add(X86Operand::Immediate(imm), X86Operand::Register(dst)),
        ) is Some,
    ensures
        lea_of_add_imm(
            X86Instr::Mov(X86Operand::Register(src), X86Operand::Register(dst)),
            X86Instr::Add(X86Operand::Immediate(imm), X86Operand::Register(dst)),
        ) matches Some(X86Instr::Lea(addr, d)) && d == dst && lea_value(addr, regs) == regs(src.register) + imm.value,
{
}

/// `lea` in place of `mov src, dst; add idx, dst` computes what the pair leaves in `dst`:
/// `src` plus the value of `idx` after the move (which is `src` again when `idx` is `dst`).
pub proof fn lemma_lea_of_add_reg_value(src: X86WReg, dst: X86WReg, idx: X86WReg, regs: spec_fn(X86Reg) -> int)
    requires
        lea_of_add_reg(
            X86Instr::Mov(X86Operand::Register(src), X86Operand::Register(dst)),
            X86Instr::Add(X86Operand::Register(idx), X86Operand::Register(dst)),
        ) is Some,
    ensures
        lea_of_add_reg(
            X86Instr::Mov(X86Operand::Register(src), X86Operand::Register(dst)),
            X86Instr::Add(X86Operand::Register(idx), X86Operand::Register(dst)),
        ) matches Some(X86Instr::Lea(addr, d)) && d == dst && lea_value(addr, regs) == regs(src.register)
            + if idx.register == dst.register { regs(src.register) } else { regs(idx.register) },
{
}

/// Two adjacent identical comparisons: the first one is redundant.
pub open spec fn repeated_compare(a: X86Instr, b: X86Instr) -> bool {
    match a {
        X86Instr::Cmp(a1, b1) => b matches X86Instr::Cmp(a2, b2) && a1 == a2 && b1 == b2,
        X86Instr::Test(a1, b1) => b matches X86Instr::Test(a2, b2) && a1 == a2 && b1 == b2,
        _ => false,
    }
}

/// A value moved into a scratch register and straight out of it again, moved directly
/// (at most one side may be in memory).
pub open spec fn scratch_relay(a: X86Instr, b: X86Instr) -> Option<X86Instr> {
    match a {
        X86Instr::Mov(src, X86Operand::Register(t1)) => match b {
            X86Instr::Mov(X86Operand::Register(t2), dest) => if t1 == t2 && scratch_register(
                t1.register,
            ) && (!memory_like(src) || !memory_like(dest)) {
                Some(X86Instr::Mov(src, dest))
            } else {
                None
            },
            _ => None,
        },
        _ => None,
    }
}

/// `mov src, dst; add $imm, dst` as `lea imm(src), dst`.
pub open spec fn lea_of_add_imm(a: X86Instr, b: X86Instr) -> Option<X86Instr> {
    match a {
        X86Instr::Mov(X86Operand::Register(src), X86Operand::Register(dst)) => match b {
            X86Instr::Add(X86Operand::Immediate(imm), X86Operand::Register(add_dst)) => if dst
                == add_dst && src.width == dst.width && lea_width(dst.width) && i32::MIN
                <= imm.value <= i32::MAX {
                Some(
                    X86Instr::Lea(
                        LeaAddr {
                            base: Some(src.register),
                            index: None,
                            scale: 1,
                            disp: imm.value as i32,
                        },
                        dst,
                    ),
                )
            } else {
                None
            },
            _ => None,
        },
        _ => None,
    }
}

/// `mov src, dst; add idx, dst` as `lea (src, idx), dst`.
pub open spec fn lea_of_add_reg(a: X86Instr, b: X86Instr) -> Option<X86Instr> {
    match a {
        X86Instr::Mov(X86Operand::Register(src), X86Operand::Register(dst)) => match b {
            X86Instr::Add(X86Operand::Register(idx), X86Operand::Register(add_dst)) => if dst
                == add_dst && src.width == dst.width && idx.width == dst.width && lea_width(
                dst.width,
            ) {
                Some(
                    X86Instr::Lea(
                        LeaAddr {
                            base: Some(src.register),
                            index: Some(
                                if idx.register == dst.register {
                                    src.register
                                } else {
                                    idx.register
                                },
                            ),
                            scale: 1,
                            disp: 0,
                        },
                        dst,
                    ),
                )
            } else {
                None
            },
            _ => None,
        },
        _ => None,
    }
}

/// The `lea` scale equal to a left shift by `amount`, where there is one.
pub open spec fn shift_scale(amount: i64) -> Option<u8> {
    if amount == 1 {
        Some(2u8)
    } else if amount == 2 {
        Some(4u8)
    } else if amount == 3 {
        Some(8u8)
    } else {
        None
    }
}

/// `mov src, dst; sal $k, dst` as `lea (, src, 2^k), dst`.
pub open spec fn lea_of_shift(a: X86Instr, b: X86Instr) -> Option<X86Instr> {
    match a {
        X86Instr::Mov(X86Operand::Register(src), X86Operand::Register(dst)) => match b {
            X86Instr::Sal(Some(X86Operand::Immediate(imm)), X86Operand::Register(shift_dst)) => if dst
                == shift_dst && src.width == dst.width && lea_width(dst.width) && shift_scale(
                imm.value,
            ) is Some {
                Some(
                    X86Instr::Lea(
                        LeaAddr {
                            base: None,
                            index: Some(src.register),
                            scale: shift_scale(imm.value)->0,
                            disp: 0,
                        },
                        dst,
                    ),
                )
            } else {
                None
            },
            _ => None,
        },
        _ => None,
    }
}

/// `imul $k, src, dst` as one `lea`, for the factors that one `lea` can form.
pub open spec fn lea_of_imul(a: X86Instr) -> Option<X86Instr> {
    match a {
        X86Instr::IMul(
            Some(X86Operand::Immediate(imm)),
            X86Operand::Register(src),
            X86Operand::Register(dst),
        ) => if src.width == dst.width && lea_width(dst.width) && mul_lea(
            src.register,
            imm.value,
        ) is Some {
            Some(X86Instr::Lea(mul_lea(src.register, imm.value)->0, dst))
        } else {
            None
        },
        _ => None,
    }
}

/// A move into a register that the next move overwrites without reading it.
pub open spec fn overwritten_move(a: X86Instr, b: X86Instr) -> bool {
    match a {
        X86Instr::Mov(src1, X86Operand::Register(dst1)) => match b {
            X86Instr::Mov(src2, X86Operand::Register(dst2)) => dst1 == dst2 && (src1 is Register
                || src1 is Immediate) && !(match src2 {
                X86Operand::Register(r) => r.register == dst1.register,
                X86Operand::Memory(m) => m.base == dst1.register,
                _ => false,
            }),
            _ => false,
        },
        _ => false,
    }
}

/// Rewrite of a single instruction, given whether the flags are dead after it:
/// `None` keeps it.
pub open spec fn local_rewrite(a: X86Instr, flags_dead: bool) -> Option<Seq<X86Instr>> {
    match a {
        X86Instr::Mov(src, dst) => if src == dst {
            Some(Seq::<X86Instr>::empty())
        } else if src matches X86Operand::Immediate(imm) && imm.value == 0 && dst is Register && flags_dead {
            Some(seq![X86Instr::Xor(dst, dst)])
        } else {
            None
        },
        X86Instr::Cmp(X86Operand::Immediate(imm), X86Operand::Register(r)) => if imm.value == 0 {
            Some(seq![X86Instr::Test(X86Operand::Register(r), X86Operand::Register(r))])
        } else {
            None
        },
        X86Instr::Add(X86Operand::Immediate(imm), _) => if imm.value == 0 && flags_dead {
            Some(Seq::<X86Instr>::empty())
        } else {
            None
        },
        X86Instr::Sub(X86Operand::Immediate(imm), _) => if imm.value == 0 && flags_dead {
            Some(Seq::<X86Instr>::empty())
        } else {
            None
        },
        _ => None,
    }
}

/// Flags that `test` sets on 32-bit values `a` and `b`: zero and sign of `a & b`, and
/// no overflow.
pub open spec fn test_flags(a: i32, b: i32) -> (bool, bool, bool) {
    ((a & b) == 0, (a & b) < 0, false)
}

/// Each single-instruction rewrite keeps what the instruction computes, for any value
/// `v` of the register involved: a move onto itself is dropped; `mov $0, r` becomes
/// `xor r, r`, which writes `v ^ v`, zero (only where the flags it clobbers are dead);
/// `cmp $0, r` becomes `test r, r`, which sets the same zero, sign and overflow flags;
/// adding or subtracting zero is dropped only where the flags are dead.
pub proof fn lemma_local_rewrite_preserves(a: X86Instr, flags_dead: bool, v: i32)
    ensures
        local_rewrite(a, flags_dead) matches Some(out) ==> match a {
            X86Instr::Mov(src, dst) => (src == dst && out.len() == 0) || (flags_dead && dst is Register
                && out == seq![X86Instr::Xor(dst, dst)] && (src matches X86Operand::Immediate(i) && (v ^ v) as int == i.value)),
            X86Instr::Cmp(X86Operand::Immediate(i), X86Operand::Register(r)) => out == seq![
                X86Instr::Test(X86Operand::Register(r), X86Operand::Register(r)),
            ] && i.value == 0 && test_flags(v, v) == crate::x86ctx::sub_flags(v, 0),
            X86Instr::Add(X86Operand::Immediate(i), _) => out.len() == 0 && flags_dead && v + i.value == v,
            X86Instr::Sub(X86Operand::Immediate(i), _) => out.len() == 0 && flags_dead && v - i.value == v,
            _ => false,
        },
{
    assert(v & v == v) by (bit_vector);
    assert(v ^ v == 0) by (bit_vector);
    crate::arith32::lemma_wrap32(v as int);
}

/// One step of the pass at position `i`: the instructions it emits, whether it consumed
/// two instructions (else one), and whether it changed anything. The rules are tried
/// in order; the flags are read in the original code.
pub open spec fn rewrite_at(s: Seq<X86Instr>, i: int) -> (Seq<X86Instr>, bool, bool) {
    let pair = i + 1 < s.len();
    if pair && repeated_compare(s[i], s[i + 1]) {
        (Seq::<X86Instr>::empty(), false, true)
    } else if pair && scratch_relay(s[i], s[i + 1]) is Some {
        (seq![scratch_relay(s[i], s[i + 1])->0], true, true)
    } else if pair && lea_of_add_imm(s[i], s[i + 1]) is Some && flags_dead_from(s, i + 2) {
        (seq![lea_of_add_imm(s[i], s[i + 1])->0], true, true)
    } else if pair && lea_of_add_reg(s[i], s[i + 1]) is Some && flags_dead_from(s, i + 2) {
        (seq![lea_of_add_reg(s[i], s[i + 1])->0], true, true)
    } else if pair && lea_of_shift(s[i], s[i + 1]) is Some && flags_dead_from(s, i + 2) {
        (seq![lea_of_shift(s[i], s[i + 1])->0], true, true)
    } else if lea_of_imul(s[i]) is Some && flags_dead_from(s, i + 1) {
        (seq![lea_of_imul(s[i])->0], false, true)
    } else if pair && overwritten_move(s[i], s[i + 1]) {
        (Seq::<X86Instr>::empty(), false, true)
    } else {
        match local_rewrite(s[i], flags_dead_from(s, i + 1)) {
            Some(out) => (out, false, true),
            None => (seq![s[i]], false, false),
        }
    }
}

/// What the pass makes of the instructions from position `i` on, and whether it
/// changed anything there.
pub open spec fn reduce_from(s: Seq<X86Instr>, i: int) -> (Seq<X86Instr>, bool)
    decreases s.len() - i,
{
    if i >= s.len() {
        (Seq::<X86Instr>::empty(), false)
    } else {
        let step = rewrite_at(s, i);
        let rest = reduce_from(s, i + if step.1 { 2int } else { 1int });
        (step.0 + rest.0, step.2 || rest.1)
    }
}

/// Whether the instruction ends the range in which flags are observed.
fn ends_flag_range_exec(instr: &X86Instr) -> (r: bool)
    ensures
        r == ends_flag_range(*instr),
{
    matches!(instr, X86Instr::Label(_) | X86Instr::Jmp(_) | X86Instr::Call(_) | X86Instr::Ret)
}

/// Whether the instruction reads the flags.
fn reads_flags_exec(instr: &X86Instr) -> (r: bool)
    ensures
        r == reads_flags(*instr),
{
    matches!(
        instr,
        X86Instr::Jne(_) | X86Instr::Je(_) | X86Instr::Jl(_) | X86Instr::Jg(_) | X86Instr::Jle(_)
            | X86Instr::Sete(_) | X86Instr::Setne(_) | X86Instr::Setl(_) | X86Instr::Setg(_)
            | X86Instr::Setle(_) | X86Instr::Setge(_)
    )
}

/// Whether the instruction overwrites the flags.
fn writes_flags_exec(instr: &X86Instr) -> (r: bool)
    ensures
        r == writes_flags(*instr),
{
    matches!(
        instr,
        X86Instr::Add(_, _) | X86Instr::Sub(_, _) | X86Instr::IMul(_, _, _) | X86Instr::And(_, _)
            | X86Instr::Xor(_, _) | X86Instr::Or(_, _) | X86Instr::Sal(_, _) | X86Instr::Sar(_, _)
            | X86Instr::Neg(_) | X86Instr::Cmp(_, _) | X86Instr::Test(_, _)
    )
}

/// Check whether no instruction after position `i` reads the flags before they are
/// overwritten or the block ends.
pub fn flags_dead_after(instrs: &[X86Instr], i: usize) -> (r: bool)
    requires
        i < instrs@.len(),
    ensures
        r == flags_dead_from(instrs@, i + 1),
{
    let n = instrs.len();
    let mut j = i + 1;
    while j < n
        invariant
            i < instrs@.len(),
            n == instrs@.len(),
            i + 1 <= j <= instrs@.len(),
            flags_dead_from(instrs@, j as int) == flags_dead_from(instrs@, i + 1),
        decreases instrs@.len() - j,
    {
        let instr = &instrs[j];
        if ends_flag_range_exec(instr) {
            return true;
        }
        if reads_flags_exec(instr) {
            return false;
        }
        if writes_flags_exec(instr) {
            return true;
        }
        j += 1;
    }
    true
}

/// Try to rewrite a multiplication of `src` by the constant `k` as one `lea`.
pub fn mul_const_to_lea(src: X86Reg, k: i64) -> (r: Option<LeaAddr>)
    ensures
        r == mul_lea(src, k),
        r is Some <==> (k == 2 || k == 3 || k == 4 || k == 5 || k == 8 || k == 9),
        r matches Some(a) ==> a.index == Some(src) && a.disp == 0 && (a.base == Some(src)
            || a.base is None) && (if a.base is Some {
            1int
        } else {
            0int
        }) + a.scale == k,
{
    if k == 2 || k == 4 || k == 8 {
        Some(LeaAddr { base: None, index: Some(src), scale: k as u8, disp: 0 })
    } else if k == 3 || k == 5 || k == 9 {
        Some(LeaAddr { base: Some(src), index: Some(src), scale: (k - 1) as u8, disp: 0 })
    } else {
        None
    }
}

/// Whether two adjacent instructions are the same comparison.
fn repeated_compare_exec(a: &X86Instr, b: &X86Instr) -> (r: bool)
    ensures
        r == repeated_compare(*a, *b),
{
    match a {
        X86Instr::Cmp(a1, b1) => match b {
            X86Instr::Cmp(a2, b2) => *a1 == *a2 && *b1 == *b2,
            _ => false,
        },
        X86Instr::Test(a1, b1) => match b {
            X86Instr::Test(a2, b2) => *a1 == *a2 && *b1 == *b2,
            _ => false,
        },
        _ => false,
    }
}

/// Whether an operand lives in memory.
fn memory_like_exec(op: X86Operand) -> (r: bool)
    ensures
        r == memory_like(op),
{
    matches!(op, X86Operand::Stack(_) | X86Operand::Memory(_))
}

/// Fold a move into a scratch register and straight out of it into one move.
fn scratch_relay_exec(a: &X86Instr, b: &X86Instr) -> (r: Option<X86Instr>)
    ensures
        r == scratch_relay(*a, *b),
{
    if let X86Instr::Mov(src, X86Operand::Register(t1)) = a {
        if let X86Instr::Mov(X86Operand::Register(t2), dest) = b {
            let scratch = t1.register == X86WReg::scratch(Width::W64).register || t1.register
                == X86WReg::scratch2(Width::W64).register;
            if *t1 == *t2 && scratch && (!memory_like_exec(*src) || !memory_like_exec(*dest)) {
                return Some(X86Instr::Mov(*src, *dest));
            }
        }
    }
    None
}

/// Fold `mov src, dst; add $imm, dst` into a `lea`.
fn lea_of_add_imm_exec(a: &X86Instr, b: &X86Instr) -> (r: Option<X86Instr>)
    ensures
        r == lea_of_add_imm(*a, *b),
{
    if let X86Instr::Mov(X86Operand::Register(src), X86Operand::Register(dst)) = a {
        if let X86Instr::Add(X86Operand::Immediate(imm), X86Operand::Register(add_dst)) = b {
            let wide = dst.width == Width::W32 || dst.width == Width::W64;
            if *dst == *add_dst && src.width == dst.width && wide && -2147483648 <= imm.value
                && imm.value <= 2147483647 {
                return Some(
                    X86Instr::Lea(
                        LeaAddr {
                            base: Some(src.register),
                            index: None,
                            scale: 1,
                            disp: imm.value as i32,
                        },
                        *dst,
                    ),
                );
            }
        }
    }
    None
}

/// Fold `mov src, dst; add idx, dst` into a `lea`.
fn lea_of_add_reg_exec(a: &X86Instr, b: &X86Instr) -> (r: Option<X86Instr>)
    ensures
        r == lea_of_add_reg(*a, *b),
{
    if let X86Instr::Mov(X86Operand::Register(src), X86Operand::Register(dst)) = a {
        if let X86Instr::Add(X86Operand::Register(idx), X86Operand::Register(add_dst)) = b {
            let wide = dst.width == Width::W32 || dst.width == Width::W64;
            if *dst == *add_dst && src.width == dst.width && idx.width == dst.width && wide {
                let index_reg = if idx.register == dst.register {
                    src.register
                } else {
                    idx.register
                };
                return Some(
                    X86Instr::Lea(
                        LeaAddr {
                            base: Some(src.register),
                            index: Some(index_reg),
                            scale: 1,
                            disp: 0,
                        },
                        *dst,
                    ),
                );
            }
        }
    }
    None
}

/// Fold `mov src, dst; sal $k, dst` into a `lea` for shifts by one to three.
fn lea_of_shift_exec(a: &X86Instr, b: &X86Instr) -> (r: Option<X86Instr>)
    ensures
        r == lea_of_shift(*a, *b),
{
    if let X86Instr::Mov(X86Operand::Register(src), X86Operand::Register(dst)) = a {
        if let X86Instr::Sal(Some(X86Operand::Immediate(imm)), X86Operand::Register(shift_dst)) = b {
            let wide = dst.width == Width::W32 || dst.width == Width::W64;
            let scale: Option<u8> = if imm.value == 1 {
                Some(2u8)
            } else if imm.value == 2 {
                Some(4u8)
            } else if imm.value == 3 {
                Some(8u8)
            } else {
                None
            };
            if *dst == *shift_dst && src.width == dst.width && wide {
                if let Some(scale) = scale {
                    return Some(
                        X86Instr::Lea(
                            LeaAddr { base: None, index: Some(src.register), scale, disp: 0 },
                            *dst,
                        ),
                    );
                }
            }
        }
    }
    None
}

/// Rewrite `imul $k, src, dst` as a `lea` where one can form the product.
fn lea_of_imul_exec(a: &X86Instr) -> (r: Option<X86Instr>)
    ensures
        r == lea_of_imul(*a),
{
    if let X86Instr::IMul(
        Some(X86Operand::Immediate(imm)),
        X86Operand::Register(src),
        X86Operand::Register(dst),
    ) = a {
        let wide = dst.width == Width::W32 || dst.width == Width::W64;
        if src.width == dst.width && wide {
            if let Some(addr) = mul_const_to_lea(src.register, imm.value) {
                return Some(X86Instr::Lea(addr, *dst));
            }
        }
    }
    None
}

/// Whether a move into a register is overwritten by the next move before being read.
fn overwritten_move_exec(a: &X86Instr, b: &X86Instr) -> (r: bool)
    ensures
        r == overwritten_move(*a, *b),
{
    if let X86Instr::Mov(src1, X86Operand::Register(dst1)) = a {
        if let X86Instr::Mov(src2, X86Operand::Register(dst2)) = b {
            let reads_dst = match src2 {
                X86Operand::Register(r) => r.register == dst1.register,
                X86Operand::Memory(m) => m.base == dst1.register,
                _ => false,
            };
            let simple_src = matches!(src1, X86Operand::Register(_) | X86Operand::Immediate(_));
            return *dst1 == *dst2 && simple_src && !reads_dst;
        }
    }
    false
}

/// Rewrite of a single instruction, given whether the flags are dead after it.
fn local_rewrite_exec(a: &X86Instr, flags_dead: bool) -> (r: Option<Vec<X86Instr>>)
    ensures
        match r {
            Some(v) => local_rewrite(*a, flags_dead) == Some(v@),
            None => local_rewrite(*a, flags_dead) is None,
        },
{
    match a {
        X86Instr::Mov(src, dst) => {
            if *src == *dst {
                return Some(Vec::new());
            }
            if let X86Operand::Immediate(imm) = src {
                if imm.value == 0 && matches!(dst, X86Operand::Register(_)) && flags_dead {
                    let v = vec![X86Instr::Xor(*dst, *dst)];
                    assert(v@ =~= seq![X86Instr::Xor(*dst, *dst)]);
                    return Some(v);
                }
            }
            None
        },
        X86Instr::Cmp(X86Operand::Immediate(imm), X86Operand::Register(reg)) => {
            if imm.value == 0 {
                let v = vec![X86Instr::Test(X86Operand::Register(*reg), X86Operand::Register(*reg))];
                assert(v@ =~= seq![X86Instr::Test(X86Operand::Register(*reg), X86Operand::Register(*reg))]);
                Some(v)
            } else {
                None
            }
        },
        X86Instr::Add(X86Operand::Immediate(imm), _) | X86Instr::Sub(X86Operand::Immediate(imm), _) => {
            if imm.value == 0 && flags_dead {
                Some(Vec::new())
            } else {
                None
            }
        },
        _ => None,
    }
}

/// One step of the pass at position `i`: the emitted instructions, whether two
/// instructions were consumed, and whether anything changed.
fn rewrite_step(instrs: &Vec<X86Instr>, i: usize) -> (r: (Vec<X86Instr>, bool, bool))
    requires
        i < instrs@.len(),
    ensures
        (r.0@, r.1, r.2) == rewrite_at(instrs@, i as int),
{
    let n = instrs.len();
    let pair = i + 1 < n;
    if pair && repeated_compare_exec(&instrs[i], &instrs[i + 1]) {
        return (Vec::new(), false, true);
    }
    if pair {
        if let Some(folded) = scratch_relay_exec(&instrs[i], &instrs[i + 1]) {
            let v = vec![folded];
            assert(v@ =~= seq![folded]);
            return (v, true, true);
        }
        if let Some(lea) = lea_of_add_imm_exec(&instrs[i], &instrs[i + 1]) {
            if flags_dead_after(instrs.as_slice(), i + 1) {
                let v = vec![lea];
                assert(v@ =~= seq![lea]);
                return (v, true, true);
            }
        }
        if let Some(lea) = lea_of_add_reg_exec(&instrs[i], &instrs[i + 1]) {
            if flags_dead_after(instrs.as_slice(), i + 1) {
                let v = vec![lea];
                assert(v@ =~= seq![lea]);
                return (v, true, true);
            }
        }
        if let Some(lea) = lea_of_shift_exec(&instrs[i], &instrs[i + 1]) {
            if flags_dead_after(instrs.as_slice(), i + 1) {
                let v = vec![lea];
                assert(v@ =~= seq![lea]);
                return (v, true, true);
            }
        }
    }
    if let Some(lea) = lea_of_imul_exec(&instrs[i]) {
        if flags_dead_after(instrs.as_slice(), i) {
            let v = vec![lea];
            assert(v@ =~= seq![lea]);
            return (v, false, true);
        }
    }
    if pair && overwritten_move_exec(&instrs[i], &instrs[i + 1]) {
        return (Vec::new(), false, true);
    }
    let dead = flags_dead_after(instrs.as_slice(), i);
    match local_rewrite_exec(&instrs[i], dead) {
        Some(out) => (out, false, true),
        None => {
            let kept = instrs[i].clone();
            let v = vec![kept];
            assert(v@ =~= seq![instrs@[i as int]]);
            (v, false, false)
        },
    }
}

/// When the pass changes nothing from position `i` on, it gives those instructions back.
proof fn lemma_reduce_unchanged(s: Seq<X86Instr>, i: int)
    requires
        0 <= i <= s.len(),
        !reduce_from(s, i).1,
    ensures
        reduce_from(s, i).0 == s.subrange(i, s.len() as int),
    decreases s.len() - i,
{
    if i < s.len() {
        lemma_reduce_unchanged(s, i + 1);
        assert(s.subrange(i, s.len() as int) =~= seq![s[i]] + s.subrange(i + 1, s.len() as int));
    } else {
        assert(s.subrange(i, s.len() as int) =~= Seq::<X86Instr>::empty());
    }
}

/// Instructions that shape control flow: labels, jumps, calls and returns.
pub open spec fn is_control(i: X86Instr) -> bool {
    i is Label || i is Jmp || i is Jne || i is Je || i is Jl || i is Jg || i is Jle || i is Call
        || i is Ret
}

/// The control-flow instructions of a sequence, in order.
pub open spec fn control_flow_of(s: Seq<X86Instr>) -> Seq<X86Instr>
    decreases s.len(),
{
    if s.len() == 0 {
        Seq::<X86Instr>::empty()
    } else if is_control(s.last()) {
        control_flow_of(s.drop_last()).push(s.last())
    } else {
        control_flow_of(s.drop_last())
    }
}

proof fn lemma_control_flow_of_add(a: Seq<X86Instr>, b: Seq<X86Instr>)
    ensures
        control_flow_of(a + b) == control_flow_of(a) + control_flow_of(b),
    decreases b.len(),
{
    if b.len() == 0 {
        assert(a + b =~= a);
        assert(control_flow_of(a) + control_flow_of(b) =~= control_flow_of(a));
    } else {
        lemma_control_flow_of_add(a, b.drop_last());
        assert((a + b).drop_last() =~= a + b.drop_last());
        assert((a + b).last() == b.last());
        assert((control_flow_of(a) + control_flow_of(b.drop_last())).push(b.last())
            =~= control_flow_of(a) + control_flow_of(b.drop_last()).push(b.last()));
    }
}

proof fn lemma_control_flow_of_single(x: X86Instr)
    ensures
        control_flow_of(seq![x]) == if is_control(x) {
            seq![x]
        } else {
            Seq::<X86Instr>::empty()
        },
{
    let one = seq![x];
    assert(one.len() == 1 && one.last() == x);
    assert(one.drop_last() =~= Seq::<X86Instr>::empty());
    assert(control_flow_of(Seq::<X86Instr>::empty()) == Seq::<X86Instr>::empty());
    assert(Seq::<X86Instr>::empty().push(x) =~= one);
}

/// One step keeps the control-flow instructions of what it consumes, and emits no more
/// instructions than it consumes.
proof fn lemma_step_keeps_control(s: Seq<X86Instr>, i: int)
    requires
        0 <= i < s.len(),
    ensures
        ({
            let step = rewrite_at(s, i);
            let n = if step.1 { 2int } else { 1int };
            &&& i + n <= s.len()
            &&& step.0.len() <= n
            &&& control_flow_of(step.0) == control_flow_of(s.subrange(i, i + n))
        }),
{
    let step = rewrite_at(s, i);
    lemma_control_flow_of_single(s[i]);
    assert(s.subrange(i, i + 1) =~= seq![s[i]]);
    if step.1 {
        lemma_control_flow_of_single(s[i + 1]);
        assert(s.subrange(i, i + 2) =~= seq![s[i]] + seq![s[i + 1]]);
        lemma_control_flow_of_add(seq![s[i]], seq![s[i + 1]]);
        assert(step.0.len() == 1);
        lemma_control_flow_of_single(step.0[0]);
        assert(step.0 =~= seq![step.0[0]]);
        assert(!is_control(s[i]) && !is_control(s[i + 1]) && !is_control(step.0[0]));
        assert(control_flow_of(Seq::<X86Instr>::empty()) =~= Seq::<X86Instr>::empty());
        assert(Seq::<X86Instr>::empty() + Seq::<X86Instr>::empty() =~= Seq::<X86Instr>::empty());
    } else if step.2 {
        assert(!is_control(s[i]));
        if step.0.len() == 1 {
            lemma_control_flow_of_single(step.0[0]);
            assert(step.0 =~= seq![step.0[0]]);
            assert(!is_control(step.0[0]));
        } else {
            assert(step.0 =~= Seq::<X86Instr>::empty());
        }
    }
}

/// The pass from position `i` on keeps the control-flow instructions and does not grow
/// the code.
proof fn lemma_reduce_keeps_control(s: Seq<X86Instr>, i: int)
    requires
        0 <= i <= s.len(),
    ensures
        control_flow_of(reduce_from(s, i).0) == control_flow_of(s.subrange(i, s.len() as int)),
        reduce_from(s, i).0.len() <= s.len() - i,
    decreases s.len() - i,
{
    if i < s.len() {
        let step = rewrite_at(s, i);
        let n = if step.1 { 2int } else { 1int };
        lemma_step_keeps_control(s, i);
        lemma_reduce_keeps_control(s, i + n);
        assert(s.subrange(i, s.len() as int) =~= s.subrange(i, i + n) + s.subrange(i + n, s.len() as int));
        lemma_control_flow_of_add(s.subrange(i, i + n), s.subrange(i + n, s.len() as int));
        lemma_control_flow_of_add(step.0, reduce_from(s, i + n).0);
    } else {
        assert(s.subrange(i, s.len() as int) =~= Seq::<X86Instr>::empty());
    }
}

/// Strength reduction keeps every label, jump, call and return, in order, and never
/// makes the code longer.
pub proof fn lemma_strength_reduction_keeps_control_flow(s: Seq<X86Instr>)
    ensures
        control_flow_of(reduce_from(s, 0).0) == control_flow_of(s),
        reduce_from(s, 0).0.len() <= s.len(),
{
    lemma_reduce_keeps_control(s, 0);
    assert(s.subrange(0, s.len() as int) =~= s);
}

/// Local x86-64 strength-reduction rewrites via peephole. Returns whether anything
/// changed; the instructions are replaced by the rewritten ones.
pub fn strength_reduction(instrs: &mut Vec<X86Instr>) -> (changed: bool)
    ensures
        changed == reduce_from(old(instrs)@, 0).1,
        final(instrs)@ == reduce_from(old(instrs)@, 0).0,
        !changed ==> final(instrs)@ == old(instrs)@,
{
    let ghost s = instrs@;
    let mut changed = false;
    let mut rewritten: Vec<X86Instr> = Vec::new();
    let mut i: usize = 0;
    while i < instrs.len()
        invariant
            instrs@ == s,
            i <= s.len(),
            rewritten@ + reduce_from(s, i as int).0 == reduce_from(s, 0).0,
            (changed || reduce_from(s, i as int).1) == reduce_from(s, 0).1,
        decreases s.len() - i,
    {
        let (mut out, two, step_changed) = rewrite_step(instrs, i);
        let ghost out_v = out@;
        let ghost before = rewritten@;
        let next: usize = if two {
            i + 2
        } else {
            i + 1
        };
        assert(reduce_from(s, i as int).0 == out_v + reduce_from(s, next as int).0);
        rewritten.append(&mut out);
        assert(before + (out_v + reduce_from(s, next as int).0) =~= rewritten@ + reduce_from(
            s,
            next as int,
        ).0);
        changed = changed || step_changed;
        i = next;
    }
    proof {
        if !changed {
            lemma_reduce_unchanged(s, 0);
            assert(s.subrange(0, s.len() as int) =~= s);
        }
    }
    if changed {
        *instrs = rewritten;
    }
    changed
}

} // verus!
