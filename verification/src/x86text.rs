//! GNU/AT&T assembly text of x86-64 registers, operands and instructions.
use vstd::prelude::*;

use crate::text::{push_char, push_signed_decimal, push_str, signed_decimal_spec};
use crate::x86asm::{width_of, LeaAddr, Width, X86Instr, X86Operand, X86Reg, X86WReg};

verus! {

/// Name of a general-purpose register taken at a width.
pub open spec fn reg_name(r: X86WReg) -> Seq<char> {
    match r.register {
        X86Reg::Rax => match r.width { Width::W8 => "al"@, Width::W16 => "ax"@, Width::W32 => "eax"@, Width::W64 => "rax"@ },
        X86Reg::Rbx => match r.width { Width::W8 => "bl"@, Width::W16 => "bx"@, Width::W32 => "ebx"@, Width::W64 => "rbx"@ },
        X86Reg::Rcx => match r.width { Width::W8 => "cl"@, Width::W16 => "cx"@, Width::W32 => "ecx"@, Width::W64 => "rcx"@ },
        X86Reg::Rdx => match r.width { Width::W8 => "dl"@, Width::W16 => "dx"@, Width::W32 => "edx"@, Width::W64 => "rdx"@ },
        X86Reg::Rdi => match r.width { Width::W8 => "dil"@, Width::W16 => "di"@, Width::W32 => "edi"@, Width::W64 => "rdi"@ },
        X86Reg::Rsi => match r.width { Width::W8 => "sil"@, Width::W16 => "si"@, Width::W32 => "esi"@, Width::W64 => "rsi"@ },
        X86Reg::R8 => match r.width { Width::W8 => "r8b"@, Width::W16 => "r8w"@, Width::W32 => "r8d"@, Width::W64 => "r8"@ },
        X86Reg::R9 => match r.width { Width::W8 => "r9b"@, Width::W16 => "r9w"@, Width::W32 => "r9d"@, Width::W64 => "r9"@ },
        X86Reg::R10 => match r.width { Width::W8 => "r10b"@, Width::W16 => "r10w"@, Width::W32 => "r10d"@, Width::W64 => "r10"@ },
        X86Reg::R11 => match r.width { Width::W8 => "r11b"@, Width::W16 => "r11w"@, Width::W32 => "r11d"@, Width::W64 => "r11"@ },
        X86Reg::R12 => match r.width { Width::W8 => "r12b"@, Width::W16 => "r12w"@, Width::W32 => "r12d"@, Width::W64 => "r12"@ },
        X86Reg::R13 => match r.width { Width::W8 => "r13b"@, Width::W16 => "r13w"@, Width::W32 => "r13d"@, Width::W64 => "r13"@ },
        X86Reg::R14 => match r.width { Width::W8 => "r14b"@, Width::W16 => "r14w"@, Width::W32 => "r14d"@, Width::W64 => "r14"@ },
        X86Reg::R15 => match r.width { Width::W8 => "r15b"@, Width::W16 => "r15w"@, Width::W32 => "r15d"@, Width::W64 => "r15"@ },
        X86Reg::Rbp => match r.width { Width::W8 => "bpl"@, Width::W16 => "bp"@, Width::W32 => "ebp"@, Width::W64 => "rbp"@ },
        X86Reg::Rsp => match r.width { Width::W8 => "spl"@, Width::W16 => "sp"@, Width::W32 => "esp"@, Width::W64 => "rsp"@ },
    }
}

/// Operand-size suffix of a mnemonic.
pub open spec fn suffix(w: Width) -> Seq<char> {
    match w {
        Width::W8 => "b"@,
        Width::W16 => "w"@,
        Width::W32 => "l"@,
        Width::W64 => "q"@,
    }
}

/// A register operand: `%` and the register's name.
pub open spec fn reg_text(r: X86WReg) -> Seq<char> {
    "%"@ + reg_name(r)
}

/// Text of an operand: `%reg`, `offset(%rsp)`, `offset(%base)` or `$value`.
pub open spec fn operand_text(op: X86Operand) -> Seq<char> {
    match op {
        X86Operand::Register(r) => reg_text(r),
        X86Operand::Stack(s) => signed_decimal_spec(s.offset) + "("@ + reg_text(
            X86WReg { register: X86Reg::Rsp, width: Width::W64 },
        ) + ")"@,
        X86Operand::Memory(m) => signed_decimal_spec(m.offset) + "("@ + reg_text(
            X86WReg { register: m.base, width: Width::W64 },
        ) + ")"@,
        X86Operand::Immediate(i) => "$"@ + signed_decimal_spec(i.value),
    }
}

/// Text of a `lea` address: `disp(base,index,scale)`, parts left out as AT&T syntax allows.
pub open spec fn lea_text(a: LeaAddr) -> Seq<char> {
    signed_decimal_spec(a.disp as i64) + "("@ + match a.base {
        Some(b) => reg_text(X86WReg { register: b, width: Width::W64 }),
        None => Seq::<char>::empty(),
    } + match a.index {
        Some(x) => ","@ + reg_text(X86WReg { register: x, width: Width::W64 }) + ","@ + signed_decimal_spec(
            a.scale as i64,
        ),
        None => Seq::<char>::empty(),
    } + ")"@
}

/// `\t<name><suffix>\t<operand>`, the suffix from the operand's width.
pub open spec fn one_op(name: Seq<char>, d: X86Operand) -> Seq<char> {
    "\t"@ + name + suffix(width_of(d)) + "\t"@ + operand_text(d)
}

/// `\t<name><suffix>\t<src>, <dest>`, the suffix from the destination's width.
pub open spec fn two_op(name: Seq<char>, s: X86Operand, d: X86Operand) -> Seq<char> {
    "\t"@ + name + suffix(width_of(d)) + "\t"@ + operand_text(s) + ", "@ + operand_text(d)
}

/// `\t<name>\t<operand>`, without suffix.
pub open spec fn bare_op(name: Seq<char>, d: X86Operand) -> Seq<char> {
    "\t"@ + name + "\t"@ + operand_text(d)
}

/// `\t<name>\t<label>`.
pub open spec fn jump_text(name: Seq<char>, l: Seq<char>) -> Seq<char> {
    "\t"@ + name + "\t"@ + l
}

/// The shift-count register as an operand.
pub open spec fn shift_operand() -> X86Operand {
    X86Operand::Register(X86WReg { register: X86Reg::Rcx, width: Width::W8 })
}

/// Text of an instruction, as one line of GNU/AT&T assembly (without line break).
pub open spec fn instr_text(i: X86Instr) -> Seq<char> {
    match i {
        X86Instr::Label(l) => l@ + ":"@,
        X86Instr::Mov(s, d) => two_op("mov"@, s, d),
        X86Instr::Lea(a, d) => "\t"@ + "lea"@ + suffix(d.width) + "\t"@ + lea_text(a) + ", "@ + reg_text(d),
        X86Instr::Add(s, d) => two_op("add"@, s, d),
        X86Instr::Sub(s, d) => two_op("sub"@, s, d),
        X86Instr::IMul(i, s, d) => match i {
            Some(k) => "\t"@ + "imul"@ + suffix(width_of(d)) + "\t"@ + operand_text(k) + ", "@ + operand_text(s)
                + ", "@ + operand_text(d),
            None => two_op("imul"@, s, d),
        },
        X86Instr::IDiv(s) => one_op("idiv"@, s),
        X86Instr::And(s, d) => two_op("and"@, s, d),
        X86Instr::Xor(s, d) => two_op("xor"@, s, d),
        X86Instr::Or(s, d) => two_op("or"@, s, d),
        X86Instr::Sal(s, d) => match s {
            Some(k) => two_op("sal"@, k, d),
            None => two_op("sal"@, shift_operand(), d),
        },
        X86Instr::Sar(s, d) => match s {
            Some(k) => two_op("sar"@, k, d),
            None => two_op("sar"@, shift_operand(), d),
        },
        X86Instr::Not(s) => one_op("not"@, s),
        X86Instr::Neg(s) => one_op("neg"@, s),
        X86Instr::Cqo(w) => match w {
            Width::W8 => "\tcbw"@,
            Width::W16 => "\tcwd"@,
            Width::W32 => "\tcdq"@,
            Width::W64 => "\tcqo"@,
        },
        X86Instr::Cmp(s, d) => two_op("cmp"@, s, d),
        X86Instr::Test(s, d) => two_op("test"@, s, d),
        X86Instr::Sete(d) => bare_op("sete"@, d),
        X86Instr::Setne(d) => bare_op("setne"@, d),
        X86Instr::Setl(d) => bare_op("setl"@, d),
        X86Instr::Setg(d) => bare_op("setg"@, d),
        X86Instr::Setle(d) => bare_op("setle"@, d),
        X86Instr::Setge(d) => bare_op("setge"@, d),
        X86Instr::Push(s) => one_op("push"@, s),
        X86Instr::Pop(d) => one_op("pop"@, d),
        X86Instr::Jmp(l) => jump_text("jmp"@, l@),
        X86Instr::Jne(l) => jump_text("jne"@, l@),
        X86Instr::Je(l) => jump_text("je"@, l@),
        X86Instr::Jl(l) => jump_text("jl"@, l@),
        X86Instr::Jg(l) => jump_text("jg"@, l@),
        X86Instr::Jle(l) => jump_text("jle"@, l@),
        X86Instr::Call(l) => jump_text("call"@, l@),
        X86Instr::Ret => "\tret"@,
    }
}

impl X86WReg {
    /// Name of the register at its width.
    pub fn name(&self) -> (r: &'static str)
        ensures
            r@ == reg_name(*self),
    {
        match self.register {
            X86Reg::Rax => match self.width { Width::W8 => "al", Width::W16 => "ax", Width::W32 => "eax", Width::W64 => "rax" },
            X86Reg::Rbx => match self.width { Width::W8 => "bl", Width::W16 => "bx", Width::W32 => "ebx", Width::W64 => "rbx" },
            X86Reg::Rcx => match self.width { Width::W8 => "cl", Width::W16 => "cx", Width::W32 => "ecx", Width::W64 => "rcx" },
            X86Reg::Rdx => match self.width { Width::W8 => "dl", Width::W16 => "dx", Width::W32 => "edx", Width::W64 => "rdx" },
            X86Reg::Rdi => match self.width { Width::W8 => "dil", Width::W16 => "di", Width::W32 => "edi", Width::W64 => "rdi" },
            X86Reg::Rsi => match self.width { Width::W8 => "sil", Width::W16 => "si", Width::W32 => "esi", Width::W64 => "rsi" },
            X86Reg::R8 => match self.width { Width::W8 => "r8b", Width::W16 => "r8w", Width::W32 => "r8d", Width::W64 => "r8" },
            X86Reg::R9 => match self.width { Width::W8 => "r9b", Width::W16 => "r9w", Width::W32 => "r9d", Width::W64 => "r9" },
            X86Reg::R10 => match self.width { Width::W8 => "r10b", Width::W16 => "r10w", Width::W32 => "r10d", Width::W64 => "r10" },
            X86Reg::R11 => match self.width { Width::W8 => "r11b", Width::W16 => "r11w", Width::W32 => "r11d", Width::W64 => "r11" },
            X86Reg::R12 => match self.width { Width::W8 => "r12b", Width::W16 => "r12w", Width::W32 => "r12d", Width::W64 => "r12" },
            X86Reg::R13 => match self.width { Width::W8 => "r13b", Width::W16 => "r13w", Width::W32 => "r13d", Width::W64 => "r13" },
            X86Reg::R14 => match self.width { Width::W8 => "r14b", Width::W16 => "r14w", Width::W32 => "r14d", Width::W64 => "r14" },
            X86Reg::R15 => match self.width { Width::W8 => "r15b", Width::W16 => "r15w", Width::W32 => "r15d", Width::W64 => "r15" },
            X86Reg::Rbp => match self.width { Width::W8 => "bpl", Width::W16 => "bp", Width::W32 => "ebp", Width::W64 => "rbp" },
            X86Reg::Rsp => match self.width { Width::W8 => "spl", Width::W16 => "sp", Width::W32 => "esp", Width::W64 => "rsp" },
        }
    }
}

/// Append `%` and a register's name.
fn push_reg(out: &mut String, r: X86WReg)
    ensures
        final(out)@ == old(out)@ + reg_text(r),
{
    push_str(out, "%");
    push_str(out, r.name());
    proof {
        assert(old(out)@ + "%"@ + reg_name(r) =~= old(out)@ + reg_text(r));
    }
}

/// Append the operand-size suffix of a width.
fn push_suffix(out: &mut String, w: Width)
    ensures
        final(out)@ == old(out)@ + suffix(w),
{
    match w {
        Width::W8 => push_str(out, "b"),
        Width::W16 => push_str(out, "w"),
        Width::W32 => push_str(out, "l"),
        Width::W64 => push_str(out, "q"),
    }
}

/// Append the text of an operand.
fn push_operand(out: &mut String, op: X86Operand)
    ensures
        final(out)@ == old(out)@ + operand_text(op),
{
    match op {
        X86Operand::Register(r) => push_reg(out, r),
        X86Operand::Stack(s) => {
            push_signed_decimal(out, s.offset);
            push_str(out, "(");
            push_reg(out, X86WReg::stack_pointer());
            push_str(out, ")");
            proof {
                assert(old(out)@ + signed_decimal_spec(s.offset) + "("@ + reg_text(
                    X86WReg { register: X86Reg::Rsp, width: Width::W64 },
                ) + ")"@ =~= old(out)@ + operand_text(op));
            }
        },
        X86Operand::Memory(m) => {
            push_signed_decimal(out, m.offset);
            push_str(out, "(");
            push_reg(out, X86WReg { register: m.base, width: Width::W64 });
            push_str(out, ")");
            proof {
                assert(old(out)@ + signed_decimal_spec(m.offset) + "("@ + reg_text(
                    X86WReg { register: m.base, width: Width::W64 },
                ) + ")"@ =~= old(out)@ + operand_text(op));
            }
        },
        X86Operand::Immediate(i) => {
            push_str(out, "$");
            push_signed_decimal(out, i.value);
            proof {
                assert(old(out)@ + "$"@ + signed_decimal_spec(i.value) =~= old(out)@ + operand_text(op));
            }
        },
    }
}

/// Append the text of a `lea` address.
fn push_lea_addr(out: &mut String, a: LeaAddr)
    ensures
        final(out)@ == old(out)@ + lea_text(a),
{
    push_signed_decimal(out, a.disp as i64);
    push_str(out, "(");
    let ghost mid = out@;
    if let Some(b) = a.base {
        push_reg(out, X86WReg { register: b, width: Width::W64 });
    }
    let ghost mid2 = out@;
    if let Some(x) = a.index {
        push_str(out, ",");
        push_reg(out, X86WReg { register: x, width: Width::W64 });
        push_str(out, ",");
        push_signed_decimal(out, a.scale as i64);
    }
    push_str(out, ")");
    proof {
        let base_t = match a.base {
            Some(b) => reg_text(X86WReg { register: b, width: Width::W64 }),
            None => Seq::<char>::empty(),
        };
        let index_t = match a.index {
            Some(x) => ","@ + reg_text(X86WReg { register: x, width: Width::W64 }) + ","@ + signed_decimal_spec(
                a.scale as i64,
            ),
            None => Seq::<char>::empty(),
        };
        assert(mid2 =~= mid + base_t);
        assert(out@ =~= old(out)@ + signed_decimal_spec(a.disp as i64) + "("@ + base_t + index_t + ")"@);
        assert(old(out)@ + lea_text(a) =~= old(out)@ + signed_decimal_spec(a.disp as i64) + "("@ + base_t
            + index_t + ")"@);
    }
}

/// Append `\t<name><suffix>\t<operand>`.
fn push_one_op(out: &mut String, name: &str, d: X86Operand)
    ensures
        final(out)@ == old(out)@ + one_op(name@, d),
{
    push_str(out, "\t");
    push_str(out, name);
    push_suffix(out, d.width());
    push_str(out, "\t");
    push_operand(out, d);
    proof {
        assert(old(out)@ + one_op(name@, d) =~= old(out)@ + "\t"@ + name@ + suffix(width_of(d)) + "\t"@
            + operand_text(d));
    }
}

/// Append `\t<name><suffix>\t<src>, <dest>`.
fn push_two_op(out: &mut String, name: &str, s: X86Operand, d: X86Operand)
    ensures
        final(out)@ == old(out)@ + two_op(name@, s, d),
{
    push_str(out, "\t");
    push_str(out, name);
    push_suffix(out, d.width());
    push_str(out, "\t");
    push_operand(out, s);
    push_str(out, ", ");
    push_operand(out, d);
    proof {
        assert(old(out)@ + two_op(name@, s, d) =~= old(out)@ + "\t"@ + name@ + suffix(width_of(d)) + "\t"@
            + operand_text(s) + ", "@ + operand_text(d));
    }
}

/// Append `\t<name>\t<operand>`.
fn push_bare_op(out: &mut String, name: &str, d: X86Operand)
    ensures
        final(out)@ == old(out)@ + bare_op(name@, d),
{
    push_str(out, "\t");
    push_str(out, name);
    push_str(out, "\t");
    push_operand(out, d);
    proof {
        assert(old(out)@ + bare_op(name@, d) =~= old(out)@ + "\t"@ + name@ + "\t"@ + operand_text(d));
    }
}

/// Append `\t<name>\t<label>`.
fn push_jump(out: &mut String, name: &str, l: &String)
    ensures
        final(out)@ == old(out)@ + jump_text(name@, l@),
{
    push_str(out, "\t");
    push_str(out, name);
    push_str(out, "\t");
    push_str(out, l.as_str());
    proof {
        assert(old(out)@ + jump_text(name@, l@) =~= old(out)@ + "\t"@ + name@ + "\t"@ + l@);
    }
}

impl X86Operand {
    /// Assembly text of the operand.
    pub fn text(&self) -> (r: String)
        ensures
            r@ == operand_text(*self),
    {
        let mut out = String::new();
        push_operand(&mut out, *self);
        proof {
            assert(Seq::<char>::empty() + operand_text(*self) =~= operand_text(*self));
        }
        out
    }
}

impl X86Instr {
    /// Assembly text of the instruction, as one line without its line break.
    pub fn text(&self) -> (r: String)
        ensures
            r@ == instr_text(*self),
    {
        let mut out = String::new();
        match self {
            X86Instr::Label(l) => {
                push_str(&mut out, l.as_str());
                push_str(&mut out, ":");
            },
            X86Instr::Mov(s, d) => push_two_op(&mut out, "mov", *s, *d),
            X86Instr::Lea(a, d) => {
                push_str(&mut out, "\t");
                push_str(&mut out, "lea");
                push_suffix(&mut out, d.width);
                push_str(&mut out, "\t");
                push_lea_addr(&mut out, *a);
                push_str(&mut out, ", ");
                push_reg(&mut out, *d);
            },
            X86Instr::Add(s, d) => push_two_op(&mut out, "add", *s, *d),
            X86Instr::Sub(s, d) => push_two_op(&mut out, "sub", *s, *d),
            X86Instr::IMul(i, s, d) => match i {
                Some(k) => {
                    push_str(&mut out, "\t");
                    push_str(&mut out, "imul");
                    push_suffix(&mut out, d.width());
                    push_str(&mut out, "\t");
                    push_operand(&mut out, *k);
                    push_str(&mut out, ", ");
                    push_operand(&mut out, *s);
                    push_str(&mut out, ", ");
                    push_operand(&mut out, *d);
                },
                None => push_two_op(&mut out, "imul", *s, *d),
            },
            X86Instr::IDiv(s) => push_one_op(&mut out, "idiv", *s),
            X86Instr::And(s, d) => push_two_op(&mut out, "and", *s, *d),
            X86Instr::Xor(s, d) => push_two_op(&mut out, "xor", *s, *d),
            X86Instr::Or(s, d) => push_two_op(&mut out, "or", *s, *d),
            X86Instr::Sal(s, d) => match s {
                Some(k) => push_two_op(&mut out, "sal", *k, *d),
                None => push_two_op(&mut out, "sal", X86Operand::Register(X86WReg::shift()), *d),
            },
            X86Instr::Sar(s, d) => match s {
                Some(k) => push_two_op(&mut out, "sar", *k, *d),
                None => push_two_op(&mut out, "sar", X86Operand::Register(X86WReg::shift()), *d),
            },
            X86Instr::Not(s) => push_one_op(&mut out, "not", *s),
            X86Instr::Neg(s) => push_one_op(&mut out, "neg", *s),
            X86Instr::Cqo(w) => match w {
                Width::W8 => push_str(&mut out, "\tcbw"),
                Width::W16 => push_str(&mut out, "\tcwd"),
                Width::W32 => push_str(&mut out, "\tcdq"),
                Width::W64 => push_str(&mut out, "\tcqo"),
            },
            X86Instr::Cmp(s, d) => push_two_op(&mut out, "cmp", *s, *d),
            X86Instr::Test(s, d) => push_two_op(&mut out, "test", *s, *d),
            X86Instr::Sete(d) => push_bare_op(&mut out, "sete", *d),
            X86Instr::Setne(d) => push_bare_op(&mut out, "setne", *d),
            X86Instr::Setl(d) => push_bare_op(&mut out, "setl", *d),
            X86Instr::Setg(d) => push_bare_op(&mut out, "setg", *d),
            X86Instr::Setle(d) => push_bare_op(&mut out, "setle", *d),
            X86Instr::Setge(d) => push_bare_op(&mut out, "setge", *d),
            X86Instr::Push(s) => push_one_op(&mut out, "push", *s),
            X86Instr::Pop(d) => push_one_op(&mut out, "pop", *d),
            X86Instr::Jmp(l) => push_jump(&mut out, "jmp", l),
            X86Instr::Jne(l) => push_jump(&mut out, "jne", l),
            X86Instr::Je(l) => push_jump(&mut out, "je", l),
            X86Instr::Jl(l) => push_jump(&mut out, "jl", l),
            X86Instr::Jg(l) => push_jump(&mut out, "jg", l),
            X86Instr::Jle(l) => push_jump(&mut out, "jle", l),
            X86Instr::Call(l) => push_jump(&mut out, "call", l),
            X86Instr::Ret => push_str(&mut out, "\tret"),
        }
        proof {
            assert(out@ =~= instr_text(*self));
        }
        out
    }
}

} // verus!
