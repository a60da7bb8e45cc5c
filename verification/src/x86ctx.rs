//! Context in which the x86-64 code of one function is emitted.
use vstd::prelude::*;

use crate::arith32::{bool_value, c0_binop, two32, wrap32};
use crate::ast::{BinOp, Typ, UnOp};
use crate::ir::{BasicBlock, IRContext, Instr, Label, Operand, Temp};
use crate::regalloc::{color_to_register, Color, SPILL, UNCOLORED};
use crate::text::{decimal_spec, push_char, push_decimal, push_str, string_of};
use crate::x86asm::{
    allocatable_spec, call_argument_spec, callee_saved_spec, caller_saved_spec, code_of, width_of, Immediate,
    StackVar, Width, X86Instr, X86InstrV, X86Operand, X86Reg, X86WReg,
};

verus! {

/// A label made of a prefix and a number.
pub fn format_label(prefix: &String, label_id: usize) -> (r: String)
    ensures
        r@ == prefix@ + decimal_spec(label_id),
{
    let mut s = prefix.clone();
    push_decimal(&mut s, label_id);
    s
}

/// Width in bytes of a stack slot given to a temporary.
pub const STACK_SLOT_WIDTH: usize = 8;

/// Stack alignment of the SysV AMD64 calling convention.
pub const STACK_ALIGNMENT: usize = 16;

/// Kinds of traps that a program can raise.
#[derive(Copy, Clone, PartialEq, Eq, Structural, Debug)]
pub enum Trap {
    /// Explicit abort
    Abort,
    /// Memory error
    MemError,
    /// Arithmetic error
    Sigfpe,
}

/// Global label of a trap.
pub open spec fn trap_label(t: Trap) -> Seq<char> {
    match t {
        Trap::Abort => seq!['.', 'L', '_', 'a', 'b', 'o', 'r', 't'],
        Trap::MemError => seq!['.', 'L', '_', 'm', 'e', 'm', 'e', 'r', 'r', 'o', 'r'],
        Trap::Sigfpe => seq!['.', 'L', '_', 's', 'i', 'g', 'f', 'p', 'e'],
    }
}
impl Trap {
    /// Get the global label of a trap.
    pub fn get_global_label(self) -> (r: String)
        ensures
            r@ == trap_label(self),
    {
        match self {
            Trap::Abort => {
                let r = string_of(&['.', 'L', '_', 'a', 'b', 'o', 'r', 't']);
                assert(r@ =~= trap_label(self));
                r
            },
            Trap::MemError => {
                let r = string_of(&['.', 'L', '_', 'm', 'e', 'm', 'e', 'r', 'r', 'o', 'r']);
                assert(r@ =~= trap_label(self));
                r
            },
            Trap::Sigfpe => {
                let r = string_of(&['.', 'L', '_', 's', 'i', 'g', 'f', 'p', 'e']);
                assert(r@ =~= trap_label(self));
                r
            },
        }
    }
}

/// Signal raised on a memory error.
pub const MEM_ERROR_SIGNAL_CODE: i64 = 12;

/// Code of the global traps: `abort` for an abort, a division by zero for an arithmetic
/// error, and `raise` of the memory-error signal for a memory error.
pub open spec fn traps_code() -> Seq<X86InstrV> {
    seq![
        X86InstrV::Label(trap_label(Trap::Abort)),
        X86InstrV::Call(seq!['a', 'b', 'o', 'r', 't']),
        X86InstrV::Label(trap_label(Trap::Sigfpe)),
        X86InstrV::Mov(
            X86Operand::Immediate(Immediate { value: 0, width: Width::W64 }),
            X86Operand::Register(X86WReg { register: X86Reg::R10, width: Width::W64 }),
        ),
        X86InstrV::IDiv(X86Operand::Register(X86WReg { register: X86Reg::R10, width: Width::W64 })),
        X86InstrV::Label(trap_label(Trap::MemError)),
        X86InstrV::Mov(
            X86Operand::Immediate(Immediate { value: 12, width: Width::W64 }),
            X86Operand::Register(X86WReg { register: X86Reg::Rdi, width: Width::W64 }),
        ),
        X86InstrV::Call(seq!['r', 'a', 'i', 's', 'e']),
    ]
}

/// Generate the global trap instructions.
pub fn generate_traps() -> (r: Vec<X86Instr>)
    ensures
        code_of(r@) == traps_code(),
{
    let arg_regs = X86Reg::call_argument();
    let abort_name = string_of(&['a', 'b', 'o', 'r', 't']);
    let raise_name = string_of(&['r', 'a', 'i', 's', 'e']);
    let r = vec![
        X86Instr::Label(Trap::Abort.get_global_label()),
        X86Instr::Call(abort_name),
        X86Instr::Label(Trap::Sigfpe.get_global_label()),
        X86Instr::Mov(
            X86Operand::Immediate(Immediate { value: 0, width: Width::W64 }),
            X86Operand::Register(X86WReg::scratch(Width::W64)),
        ),
        X86Instr::IDiv(X86Operand::Register(X86WReg::scratch(Width::W64))),
        X86Instr::Label(Trap::MemError.get_global_label()),
        X86Instr::Mov(
            X86Operand::Immediate(Immediate { value: MEM_ERROR_SIGNAL_CODE, width: Width::W64 }),
            X86Operand::Register(X86WReg { register: arg_regs[0], width: Width::W64 }),
        ),
        X86Instr::Call(raise_name),
    ];
    assert(code_of(r@) =~= traps_code());
    r
}

/// The operand is a stack slot or a memory cell.
pub open spec fn is_memory(op: X86Operand) -> bool {
    op is Stack || op is Memory
}

/// Code of a move from `src` to `dest`: nothing when they are the same, a move through
/// the scratch register between two memory operands, `xor` to clear a register, and a
/// plain `mov` otherwise.
pub open spec fn move_code(src: X86Operand, dest: X86Operand) -> Seq<X86InstrV> {
    if src == dest {
        Seq::empty()
    } else if is_memory(src) && is_memory(dest) {
        seq![
            X86InstrV::Mov(src, X86Operand::Register(X86WReg { register: X86Reg::R10, width: width_of(src) })),
            X86InstrV::Mov(X86Operand::Register(X86WReg { register: X86Reg::R10, width: width_of(dest) }), dest),
        ]
    } else if (src matches X86Operand::Immediate(i) && i.value == 0) && dest is Register {
        seq![X86InstrV::Xor(dest, dest)]
    } else {
        seq![X86InstrV::Mov(src, dest)]
    }
}

/// Registers are listed in the order of their declaration, each once.
pub open spec fn reg_rank(r: X86Reg) -> int {
    match r {
        X86Reg::Rax => 0,
        X86Reg::Rbx => 1,
        X86Reg::Rcx => 2,
        X86Reg::Rdx => 3,
        X86Reg::Rdi => 4,
        X86Reg::Rsi => 5,
        X86Reg::R8 => 6,
        X86Reg::R9 => 7,
        X86Reg::R10 => 8,
        X86Reg::R11 => 9,
        X86Reg::R12 => 10,
        X86Reg::R13 => 11,
        X86Reg::R14 => 12,
        X86Reg::R15 => 13,
        X86Reg::Rbp => 14,
        X86Reg::Rsp => 15,
    }
}

/// Registers in strictly increasing declaration order.
pub open spec fn sorted_regs(s: Seq<X86Reg>) -> bool {
    forall|i: int, j: int| 0 <= i < j < s.len() ==> reg_rank(#[trigger] s[i]) < reg_rank(#[trigger] s[j])
}

fn rank(r: X86Reg) -> (k: u8)
    ensures
        k as int == reg_rank(r),
{
    match r {
        X86Reg::Rax => 0,
        X86Reg::Rbx => 1,
        X86Reg::Rcx => 2,
        X86Reg::Rdx => 3,
        X86Reg::Rdi => 4,
        X86Reg::Rsi => 5,
        X86Reg::R8 => 6,
        X86Reg::R9 => 7,
        X86Reg::R10 => 8,
        X86Reg::R11 => 9,
        X86Reg::R12 => 10,
        X86Reg::R13 => 11,
        X86Reg::R14 => 12,
        X86Reg::R15 => 13,
        X86Reg::Rbp => 14,
        X86Reg::Rsp => 15,
    }
}

/// Add a register to an ordered set of registers.
#[verifier::rlimit(40)]
#[verifier::spinoff_prover]
fn insert_reg(set: &mut Vec<X86Reg>, r: X86Reg)
    requires
        sorted_regs(old(set)@),
    ensures
        sorted_regs(final(set)@),
        forall|x: X86Reg| #[trigger] final(set)@.contains(x) <==> old(set)@.contains(x) || x == r,
{
    let k = rank(r);
    let mut i: usize = 0;
    while i < set.len() && rank(set[i]) < k
        invariant
            sorted_regs(set@),
            set@ == old(set)@,
            i <= set@.len(),
            k as int == reg_rank(r),
            forall|j: int| 0 <= j < i ==> reg_rank(#[trigger] set@[j]) < reg_rank(r),
        decreases set@.len() - i,
    {
        i = i + 1;
    }
    if i < set.len() && rank(set[i]) == k {
        proof {
            assert(set@[i as int] == r) by {
                assert(reg_rank(set@[i as int]) == reg_rank(r));
            }
            assert forall|x: X86Reg| #[trigger] set@.contains(x) <==> old(set)@.contains(x) || x == r by {
                if x == r {
                    assert(set@[i as int] == x);
                }
            }
        }
        return;
    }
    let ghost s0 = set@;
    set.insert(i, r);
    proof {
        s0.insert_ensures(i as int, r);
        assert forall|a: int, b: int| 0 <= a < b < set@.len() implies reg_rank(#[trigger] set@[a]) < reg_rank(#[trigger] set@[b]) by {
            if b > i {
                assert(set@[b] == s0[b - 1]);
            }
            if a > i {
                assert(set@[a] == s0[a - 1]);
            }
            if a == i && b > i {
                assert(reg_rank(s0[i as int]) > reg_rank(r));
                if b - 1 > i {
                    assert(reg_rank(s0[i as int]) < reg_rank(s0[b - 1]));
                }
            }
            if a < i && b > i {
                if a < b - 1 {
                    assert(reg_rank(s0[a]) < reg_rank(s0[b - 1]));
                }
            }
        }
        assert forall|x: X86Reg| #[trigger] set@.contains(x) <==> s0.contains(x) || x == r by {
            if set@.contains(x) {
                let j = choose|j: int| 0 <= j < set@.len() && set@[j] == x;
                if j < i {
                    assert(s0[j] == x);
                } else if j > i {
                    assert(s0[j - 1] == x);
                }
            }
            if s0.contains(x) {
                let j = choose|j: int| 0 <= j < s0.len() && s0[j] == x;
                if j < i {
                    assert(set@[j] == x);
                } else {
                    assert(set@[j + 1] == x);
                }
            }
            if x == r {
                assert(set@[i as int] == r);
            }
        }
    }
}

/// Whether a register is in a list of registers.
fn contains_reg(v: &Vec<X86Reg>, r: X86Reg) -> (b: bool)
    ensures
        b == v@.contains(r),
{
    let mut i: usize = 0;
    while i < v.len()
        invariant
            i <= v@.len(),
            forall|j: int| 0 <= j < i ==> v@[j] != r,
        decreases v@.len() - i,
    {
        if v[i] == r {
            return true;
        }
        i = i + 1;
    }
    false
}

/// A type has a machine width: it is `bool`, `int`, null, a pointer or an array.
pub open spec fn has_width(t: Typ) -> bool {
    t is Bool || t is Int || t is Null || t is Pointer || t is Array
}

/// Width of a value of a type.
pub open spec fn width_for_type_spec(t: Typ) -> Width {
    match t {
        Typ::Bool => Width::W8,
        Typ::Int => Width::W32,
        _ => Width::W64,
    }
}

/// Get the width of values of a type that has one.
pub fn width_for_type(typ: &Typ) -> (r: Width)
    requires
        has_width(*typ),
    ensures
        r == width_for_type_spec(*typ),
{
    match typ {
        Typ::Bool => Width::W8,
        Typ::Int => Width::W32,
        _ => Width::W64,
    }
}

/// Value of an immediate read as a signed integer of its width.
pub open spec fn signed_value(imm: Immediate) -> i64 {
    match imm.width {
        Width::W8 => imm.value as i8 as i64,
        Width::W16 => imm.value as i16 as i64,
        Width::W32 => imm.value as i32 as i64,
        Width::W64 => imm.value,
    }
}

/// Get the value of an immediate read as a signed integer of its width.
pub fn signed_immediate_value(imm: Immediate) -> (r: i64)
    ensures
        r == signed_value(imm),
{
    match imm.width {
        Width::W8 => imm.value as i8 as i64,
        Width::W16 => imm.value as i16 as i64,
        Width::W32 => imm.value as i32 as i64,
        Width::W64 => imm.value,
    }
}


/// Registers `rax` to `rsp` taken at a width.
pub open spec fn wreg(r: X86Reg, w: Width) -> X86Operand {
    X86Operand::Register(X86WReg { register: r, width: w })
}

/// Immediate operand.
pub open spec fn imm(value: i64, w: Width) -> X86Operand {
    X86Operand::Immediate(Immediate { value, width: w })
}

/// The stack pointer as an operand.
pub open spec fn rsp() -> X86Operand {
    wreg(X86Reg::Rsp, Width::W64)
}

/// The value fits in 32 signed bits.
pub open spec fn is_32_bit(v: i64) -> bool {
    i32::MIN <= v <= i32::MAX
}

/// The operator compares its operands.
pub open spec fn is_comparator(op: BinOp) -> bool {
    op is CmpEq || op is CmpNeq || op is Gt || op is Gte || op is Lt || op is Lte
}

/// The operands that a binary operator needs are there.
pub open spec fn binop_args_ok(op: BinOp, src: Option<X86Operand>, dest: Option<X86Operand>) -> bool {
    &&& !is_comparator(op)
    &&& (op is Div || op is Mod || op is Add || op is Sub || op is Mul || op is And || op is LAnd || op is Xor
        || op is Or || op is LOr) ==> src is Some
    &&& (op is Add || op is Sub || op is Mul || op is And || op is LAnd || op is Xor || op is Or || op is LOr
        || op is Sal || op is Sar) ==> dest is Some
}

/// Code of an addition or subtraction of `src` to `dest`: nothing for a zero immediate,
/// a 64-bit immediate first moved to the second scratch register.
pub open spec fn add_sub_code(is_add: bool, src: X86Operand, dest: X86Operand) -> Seq<X86InstrV> {
    if src matches X86Operand::Immediate(i) && i.value == 0 {
        Seq::empty()
    } else if src matches X86Operand::Immediate(i) && !is_32_bit(i.value) {
        let scratch = wreg(X86Reg::R11, width_of(src));
        move_code(src, scratch) + seq![if is_add { X86InstrV::Add(scratch, dest) } else { X86InstrV::Sub(scratch, dest) }]
    } else {
        seq![if is_add { X86InstrV::Add(src, dest) } else { X86InstrV::Sub(src, dest) }]
    }
}

/// Code of a binary operation from `src` to `dest`.
pub open spec fn binop_code(op: BinOp, src: Option<X86Operand>, dest: Option<X86Operand>) -> Seq<X86InstrV> {
    let s = src.unwrap();
    let d = dest.unwrap();
    match op {
        BinOp::Add => add_sub_code(true, s, d),
        BinOp::Sub => add_sub_code(false, s, d),
        BinOp::Mul => match s {
            X86Operand::Immediate(i) => if i.value == 1 {
                Seq::empty()
            } else if i.value == -1 {
                seq![X86InstrV::Neg(d)]
            } else if i.value == 0 {
                move_code(s, d)
            } else {
                seq![X86InstrV::IMul(Some(s), d, d)]
            },
            _ => seq![X86InstrV::IMul(None, s, d)],
        },
        BinOp::Div | BinOp::Mod => match s {
            X86Operand::Immediate(i) => if i.value == 1 {
                if op is Mod { move_code(imm(0, i.width), wreg(X86Reg::Rdx, i.width)) } else { Seq::empty() }
            } else {
                let scratch = wreg(X86Reg::R10, i.width);
                move_code(s, scratch) + seq![X86InstrV::Cqo(i.width), X86InstrV::IDiv(scratch)]
            },
            _ => seq![X86InstrV::Cqo(width_of(s)), X86InstrV::IDiv(s)],
        },
        BinOp::And | BinOp::LAnd => seq![X86InstrV::And(s, d)],
        BinOp::Xor => seq![X86InstrV::Xor(s, d)],
        BinOp::Or | BinOp::LOr => seq![X86InstrV::Or(s, d)],
        BinOp::Sal => seq![X86InstrV::Sal(src, d)],
        BinOp::Sar => seq![X86InstrV::Sar(src, d)],
        _ => Seq::empty(),
    }
}

/// Code that restores the callee-saved registers from below the stack pointer.
pub open spec fn restore_code(regs: Seq<X86Reg>) -> Seq<X86InstrV>
    decreases regs.len(),
{
    if regs.len() == 0 {
        Seq::empty()
    } else {
        restore_code(regs.drop_last()) + seq![X86InstrV::Mov(
            X86Operand::Stack(StackVar { offset: (-((regs.len() as int) * 8)) as i64, width: Width::W64 }),
            wreg(regs.last(), Width::W64),
        )]
    }
}

/// Code that moves the arguments of a call into the argument registers.
pub open spec fn arg_moves(args: Seq<X86Operand>) -> Seq<X86InstrV>
    decreases args.len(),
{
    if args.len() == 0 {
        Seq::empty()
    } else {
        let i = args.len() - 1;
        arg_moves(args.drop_last()) + move_code(args[i], wreg(call_argument_spec()[i], width_of(args[i])))
    }
}

/// x86-64 code generation context of one function.
pub struct X86Context {
    /// Instructions generated so far.
    instructions: Vec<X86Instr>,
    /// Callee-saved registers used, in declaration order.
    used_callee_saved: Vec<X86Reg>,
    /// Caller-saved registers used, in declaration order.
    used_caller_saved: Vec<X86Reg>,
    /// Color of each temporary, by id.
    regalloc: Vec<Color>,
    /// Stack slot of each temporary kept on the stack, by id.
    stack_allocation: Vec<Option<StackVar>>,
    /// Size in bytes of the stack frame.
    frame_size: usize,
    /// Prefix of the labels of this function.
    label_prefix: String,
}

impl X86Context {
    /// Representation invariant.
    pub closed spec fn wf(&self) -> bool {
        &&& sorted_regs(self.used_callee_saved@)
        &&& sorted_regs(self.used_caller_saved@)
        &&& self.stack_allocation@.len() == self.regalloc@.len()
        &&& self.frame_size <= i64::MAX
    }

    /// Models of the instructions generated so far.
    pub closed spec fn code(&self) -> Seq<X86InstrV> {
        code_of(self.instructions@)
    }

    /// Callee-saved registers in use.
    pub closed spec fn callee(&self) -> Seq<X86Reg> {
        self.used_callee_saved@
    }

    /// Caller-saved registers in use.
    pub closed spec fn caller(&self) -> Seq<X86Reg> {
        self.used_caller_saved@
    }

    /// Colors of the temporaries.
    pub closed spec fn colors(&self) -> Seq<Color> {
        self.regalloc@
    }

    /// Stack slots of the temporaries.
    pub closed spec fn slots(&self) -> Seq<Option<StackVar>> {
        self.stack_allocation@
    }

    /// Size of the stack frame.
    pub closed spec fn frame(&self) -> nat {
        self.frame_size as nat
    }

    /// Prefix of the labels.
    pub closed spec fn prefix(&self) -> Seq<char> {
        self.label_prefix@
    }

    /// `new` is `self` with `tail` emitted.
    pub open spec fn emits(&self, new: &X86Context, tail: Seq<X86InstrV>) -> bool {
        &&& new.code() == self.code() + tail
        &&& new.callee() == self.callee()
        &&& new.caller() == self.caller()
        &&& new.colors() == self.colors()
        &&& new.slots() == self.slots()
        &&& new.frame() == self.frame()
        &&& new.prefix() == self.prefix()
        &&& new.wf() == self.wf()
    }

    fn push(&mut self, instr: X86Instr)
        ensures
            old(self).emits(final(self), seq![instr@]),
    {
        self.instructions.push(instr);
        assert(code_of(self.instructions@) =~= code_of(old(self).instructions@) + seq![instr@]);
    }

    /// Emit a label with the given number.
    pub fn emit_label(&mut self, label_id: usize)
        ensures
            old(self).emits(final(self), seq![X86InstrV::Label(old(self).prefix() + decimal_spec(label_id))]),
    {
        let l = format_label(&self.label_prefix, label_id);
        self.push(X86Instr::Label(l));
    }

    /// Emit a copy from `src` to `dest`.
    pub fn emit_move(&mut self, src: X86Operand, dest: X86Operand)
        requires
            !(dest is Immediate),
        ensures
            old(self).emits(final(self), move_code(src, dest)),
    {
        if src != dest {
            let src_mem = match src {
                X86Operand::Stack(_) | X86Operand::Memory(_) => true,
                _ => false,
            };
            let dest_mem = match dest {
                X86Operand::Stack(_) | X86Operand::Memory(_) => true,
                _ => false,
            };
            if src_mem && dest_mem {
                self.push(X86Instr::Mov(src, X86Operand::Register(X86WReg::scratch(src.width()))));
                let ghost mid = *self;
                self.push(X86Instr::Mov(X86Operand::Register(X86WReg::scratch(dest.width())), dest));
                assert(self.code() =~= old(self).code() + move_code(src, dest));
            } else {
                let clears = match (src, dest) {
                    (X86Operand::Immediate(i), X86Operand::Register(_)) => i.value == 0,
                    _ => false,
                };
                if clears {
                    self.push(X86Instr::Xor(dest, dest));
                } else {
                    self.push(X86Instr::Mov(src, dest));
                }
            }
        } else {
            assert(old(self).code() + move_code(src, dest) =~= old(self).code());
        }
    }

    /// Emit a compare instruction.
    pub fn emit_cmp(&mut self, src: X86Operand, dest: X86Operand)
        ensures
            old(self).emits(final(self), seq![X86InstrV::Cmp(src, dest)]),
    {
        self.push(X86Instr::Cmp(src, dest));
    }

    /// Emit a test instruction.
    pub fn emit_test(&mut self, src: X86Operand, dest: X86Operand)
        ensures
            old(self).emits(final(self), seq![X86InstrV::Test(src, dest)]),
    {
        self.push(X86Instr::Test(src, dest));
    }

    /// Label of the exit of this function.
    fn exit_label(&self) -> (r: String)
        ensures
            r@ == self.prefix() + seq!['e', 'x', 'i', 't'],
    {
        let mut s = self.label_prefix.clone();
        push_char(&mut s, 'e');
        push_char(&mut s, 'x');
        push_char(&mut s, 'i');
        push_char(&mut s, 't');
        assert(s@ =~= self.prefix() + seq!['e', 'x', 'i', 't']);
        s
    }

    /// Emit a return: the value, if any, goes to the return register, then a jump to
    /// the exit of the function.
    pub fn emit_return(&mut self, src: Option<X86Operand>)
        ensures
            old(self).emits(final(self), match src {
                Some(s) => move_code(s, wreg(X86Reg::Rax, width_of(s))),
                None => Seq::<X86InstrV>::empty(),
            } + seq![X86InstrV::Jmp(old(self).prefix() + seq!['e', 'x', 'i', 't'])]),
    {
        match src {
            Some(s) => {
                self.emit_move(s, X86Operand::Register(X86WReg::ret(s.width())));
            },
            None => {},
        }
        let ghost mid = *self;
        let l = self.exit_label();
        self.push(X86Instr::Jmp(l));
        assert(self.code() =~= old(self).code() + (match src {
            Some(s) => move_code(s, wreg(X86Reg::Rax, width_of(s))),
            None => Seq::<X86InstrV>::empty(),
        } + seq![X86InstrV::Jmp(old(self).prefix() + seq!['e', 'x', 'i', 't'])]));
    }

    /// Emit an unconditional jump to the label with the given number.
    pub fn emit_jump(&mut self, label_id: usize)
        ensures
            old(self).emits(final(self), seq![X86InstrV::Jmp(old(self).prefix() + decimal_spec(label_id))]),
    {
        let l = format_label(&self.label_prefix, label_id);
        self.push(X86Instr::Jmp(l));
    }

    /// Emit an unconditional jump to a trap.
    pub fn emit_trap_jump(&mut self, trap: Trap)
        ensures
            old(self).emits(final(self), seq![X86InstrV::Jmp(trap_label(trap))]),
    {
        self.push(X86Instr::Jmp(trap.get_global_label()));
    }

    /// Emit a jump to the label with the given number when the predicate is not zero.
    pub fn emit_jump_if(&mut self, pred: X86Operand, label_id: usize)
        ensures
            old(self).emits(final(self), seq![
                X86InstrV::Cmp(imm(0, width_of(pred)), pred),
                X86InstrV::Jne(old(self).prefix() + decimal_spec(label_id)),
            ]),
    {
        self.emit_cmp(X86Operand::Immediate(Immediate { value: 0, width: pred.width() }), pred);
        let l = format_label(&self.label_prefix, label_id);
        self.push(X86Instr::Jne(l));
        assert(self.code() =~= old(self).code() + seq![
            X86InstrV::Cmp(imm(0, width_of(pred)), pred),
            X86InstrV::Jne(old(self).prefix() + decimal_spec(label_id)),
        ]);
    }

    /// Emit a jump to a trap when the predicate is less than `value`; for an immediate
    /// predicate the comparison is made now.
    pub fn emit_trap_if_lesser(&mut self, pred: X86Operand, value: i64, trap: Trap)
        ensures
            old(self).emits(final(self), trap_lesser_code(pred, value, trap)),
    {
        match pred {
            X86Operand::Immediate(i) => {
                if signed_immediate_value(i) < value {
                    self.emit_trap_jump(trap);
                } else {
                    assert(old(self).code() + Seq::<X86InstrV>::empty() =~= old(self).code());
                }
                return;
            },
            _ => {},
        }
        self.emit_cmp(X86Operand::Immediate(Immediate { value, width: pred.width() }), pred);
        self.push(X86Instr::Jl(trap.get_global_label()));
        assert(self.code() =~= old(self).code() + seq![X86InstrV::Cmp(imm(value, width_of(pred)), pred), X86InstrV::Jl(trap_label(trap))]);
    }

    /// Emit a jump to a trap when `pred` is at least `upper`.
    pub fn emit_trap_if_geq_bound(&mut self, pred: X86Operand, upper: X86Operand, trap: Trap)
        ensures
            old(self).emits(final(self), trap_bound_code(pred, upper, trap)),
    {
        let pred_mem = match pred {
            X86Operand::Stack(_) | X86Operand::Memory(_) => true,
            _ => false,
        };
        let upper_mem = match upper {
            X86Operand::Stack(_) | X86Operand::Memory(_) => true,
            _ => false,
        };
        let p = if pred_mem && upper_mem {
            let scratch = X86Operand::Register(X86WReg::scratch(pred.width()));
            self.emit_move(pred, scratch);
            scratch
        } else {
            pred
        };
        let ghost mid = *self;
        self.emit_cmp(p, upper);
        self.push(X86Instr::Jle(trap.get_global_label()));
        assert(self.code() =~= old(self).code() + (if is_memory(pred) && is_memory(upper) {
            move_code(pred, wreg(X86Reg::R10, width_of(pred)))
                + seq![X86InstrV::Cmp(wreg(X86Reg::R10, width_of(pred)), upper), X86InstrV::Jle(trap_label(trap))]
        } else {
            seq![X86InstrV::Cmp(pred, upper), X86InstrV::Jle(trap_label(trap))]
        }));
    }

    /// Emit a jump to a trap when the predicate is greater than `value`; for an
    /// immediate predicate the comparison is made now.
    pub fn emit_trap_if_greater(&mut self, pred: X86Operand, value: i64, trap: Trap)
        ensures
            old(self).emits(final(self), trap_greater_code(pred, value, trap)),
    {
        match pred {
            X86Operand::Immediate(i) => {
                if signed_immediate_value(i) > value {
                    self.emit_trap_jump(trap);
                } else {
                    assert(old(self).code() + Seq::<X86InstrV>::empty() =~= old(self).code());
                }
                return;
            },
            _ => {},
        }
        self.emit_cmp(X86Operand::Immediate(Immediate { value, width: pred.width() }), pred);
        self.push(X86Instr::Jg(trap.get_global_label()));
        assert(self.code() =~= old(self).code() + seq![X86InstrV::Cmp(imm(value, width_of(pred)), pred), X86InstrV::Jg(trap_label(trap))]);
    }

    /// Emit a jump to a trap when the predicate is zero; for an immediate predicate the
    /// test is made now.
    pub fn emit_trap_if_zero(&mut self, pred: X86Operand, trap: Trap)
        ensures
            old(self).emits(final(self), trap_zero_code(pred, trap)),
    {
        match pred {
            X86Operand::Immediate(i) => {
                if i.value == 0 {
                    self.emit_trap_jump(trap);
                } else {
                    assert(old(self).code() + Seq::<X86InstrV>::empty() =~= old(self).code());
                }
                return;
            },
            _ => {},
        }
        self.emit_test(pred, pred);
        self.push(X86Instr::Je(trap.get_global_label()));
        assert(self.code() =~= old(self).code() + seq![X86InstrV::Test(pred, pred), X86InstrV::Je(trap_label(trap))]);
    }

    /// Emit a two-way branch: to `holds_label_id` when the predicate is not zero, to
    /// `fails_label_id` otherwise.
    pub fn emit_conditional(&mut self, pred: X86Operand, holds_label_id: usize, fails_label_id: usize)
        ensures
            old(self).emits(final(self), seq![
                X86InstrV::Cmp(imm(0, width_of(pred)), pred),
                X86InstrV::Jne(old(self).prefix() + decimal_spec(holds_label_id)),
                X86InstrV::Jmp(old(self).prefix() + decimal_spec(fails_label_id)),
            ]),
    {
        self.emit_jump_if(pred, holds_label_id);
        self.emit_jump(fails_label_id);
        assert(self.code() =~= old(self).code() + seq![
            X86InstrV::Cmp(imm(0, width_of(pred)), pred),
            X86InstrV::Jne(old(self).prefix() + decimal_spec(holds_label_id)),
            X86InstrV::Jmp(old(self).prefix() + decimal_spec(fails_label_id)),
        ]);
    }

    /// Emit a unary operation on the destination operand.
    pub fn emit_unary_op(&mut self, op: UnOp, dest: X86Operand)
        ensures
            old(self).emits(final(self), match op {
                UnOp::Neg => seq![X86InstrV::Neg(dest)],
                UnOp::Not => seq![X86InstrV::Not(dest)],
                UnOp::LNot => seq![X86InstrV::Cmp(imm(0, width_of(dest)), dest), X86InstrV::Sete(dest)],
            }),
    {
        match op {
            UnOp::Neg => self.push(X86Instr::Neg(dest)),
            UnOp::Not => self.push(X86Instr::Not(dest)),
            UnOp::LNot => {
                self.emit_cmp(X86Operand::Immediate(Immediate { value: 0, width: dest.width() }), dest);
                self.push(X86Instr::Sete(dest));
                assert(self.code() =~= old(self).code() + seq![X86InstrV::Cmp(imm(0, width_of(dest)), dest), X86InstrV::Sete(dest)]);
            },
        }
    }
}


/// Code that jumps to a trap when `pred` is less than `value` (decided now for an
/// immediate).
pub open spec fn trap_lesser_code(pred: X86Operand, value: i64, trap: Trap) -> Seq<X86InstrV> {
    match pred {
        X86Operand::Immediate(i) => if signed_value(i) < value {
            seq![X86InstrV::Jmp(trap_label(trap))]
        } else {
            Seq::<X86InstrV>::empty()
        },
        _ => seq![X86InstrV::Cmp(imm(value, width_of(pred)), pred), X86InstrV::Jl(trap_label(trap))],
    }
}

/// Code that jumps to a trap when `pred` is greater than `value` (decided now for an
/// immediate).
pub open spec fn trap_greater_code(pred: X86Operand, value: i64, trap: Trap) -> Seq<X86InstrV> {
    match pred {
        X86Operand::Immediate(i) => if signed_value(i) > value {
            seq![X86InstrV::Jmp(trap_label(trap))]
        } else {
            Seq::<X86InstrV>::empty()
        },
        _ => seq![X86InstrV::Cmp(imm(value, width_of(pred)), pred), X86InstrV::Jg(trap_label(trap))],
    }
}

/// Code that jumps to a trap when `pred` is zero (decided now for an immediate).
pub open spec fn trap_zero_code(pred: X86Operand, trap: Trap) -> Seq<X86InstrV> {
    match pred {
        X86Operand::Immediate(i) => if i.value == 0 {
            seq![X86InstrV::Jmp(trap_label(trap))]
        } else {
            Seq::<X86InstrV>::empty()
        },
        _ => seq![X86InstrV::Test(pred, pred), X86InstrV::Je(trap_label(trap))],
    }
}

/// Code that jumps to a trap when `pred` is at least `upper`.
pub open spec fn trap_bound_code(pred: X86Operand, upper: X86Operand, trap: Trap) -> Seq<X86InstrV> {
    if is_memory(pred) && is_memory(upper) {
        move_code(pred, wreg(X86Reg::R10, width_of(pred)))
            + seq![X86InstrV::Cmp(wreg(X86Reg::R10, width_of(pred)), upper), X86InstrV::Jle(trap_label(trap))]
    } else {
        seq![X86InstrV::Cmp(pred, upper), X86InstrV::Jle(trap_label(trap))]
    }
}

/// Code that writes the comparison result of `op` into the low byte of `dest`.
pub open spec fn setcc(op: BinOp, dest: X86Operand) -> X86InstrV {
    match op {
        BinOp::CmpEq => X86InstrV::Sete(dest),
        BinOp::CmpNeq => X86InstrV::Setne(dest),
        BinOp::Lt => X86InstrV::Setl(dest),
        BinOp::Gt => X86InstrV::Setg(dest),
        BinOp::Lte => X86InstrV::Setle(dest),
        _ => X86InstrV::Setge(dest),
    }
}

/// Flags that `cmp` sets when its destination holds `a` and its source holds `b`, on
/// 32-bit operands: the zero, sign and overflow flags of the subtraction `a - b`.
pub open spec fn sub_flags(a: i32, b: i32) -> (bool, bool, bool) {
    let d = a - b;
    let w = wrap32(d);
    (w == 0, w < 0, w != d)
}

/// Whether the condition of a `set` instruction holds for the zero, sign and overflow
/// flags, as the x86 manual defines the conditions; none for other instructions.
pub open spec fn set_condition(i: X86InstrV, f: (bool, bool, bool)) -> Option<bool> {
    let zf = f.0;
    let sf = f.1;
    let of = f.2;
    match i {
        X86InstrV::Sete(_) => Some(zf),
        X86InstrV::Setne(_) => Some(!zf),
        X86InstrV::Setl(_) => Some(sf != of),
        X86InstrV::Setle(_) => Some(zf || sf != of),
        X86InstrV::Setg(_) => Some(!zf && sf == of),
        X86InstrV::Setge(_) => Some(sf == of),
        _ => None,
    }
}

pub proof fn lemma_sub_flags(a: i32, b: i32)
    ensures
        sub_flags(a, b).0 == (a == b),
        (sub_flags(a, b).1 != sub_flags(a, b).2) == (a < b),
{
    let d = a - b;
    if d > i32::MAX {
        assert(d % two32() == d) by (nonlinear_arith) requires 0 <= d < two32();
    } else if d >= 0 {
        assert(d % two32() == d) by (nonlinear_arith) requires 0 <= d < two32();
    } else if d >= i32::MIN {
        assert(d % two32() == d + two32()) by (nonlinear_arith) requires -two32() <= d < 0;
    } else {
        assert(d % two32() == d + two32()) by (nonlinear_arith) requires -two32() <= d < 0;
    }
}

/// After `cmp` sets the flags from destination `a` and source `b`, the `set` instruction
/// chosen for a comparison writes one exactly when `a op b` holds as signed 32-bit
/// values: `<=` is signed less-or-equal, `<` signed less, and so on.
pub proof fn lemma_set_condition_matches_comparison(op: BinOp, dest: X86Operand, a: i32, b: i32)
    requires
        is_comparator(op),
    ensures
        set_condition(setcc(op, dest), sub_flags(a, b)) matches Some(h) && c0_binop(op, a, b) == Some(bool_value(h)),
{
    lemma_sub_flags(a, b);
}

/// The destination taken at its low byte.
pub open spec fn low_byte(dest: X86Operand) -> X86Operand {
    match dest {
        X86Operand::Register(w) => X86Operand::Register(X86WReg { register: w.register, width: Width::W8 }),
        X86Operand::Stack(s) => X86Operand::Stack(StackVar { offset: s.offset, width: Width::W8 }),
        _ => dest,
    }
}

impl X86Context {
    /// Emit a binary operation from `src` to `dest` (either may be implicit, depending on
    /// the operator): adding or subtracting zero and multiplying by one emit nothing,
    /// multiplying by minus one negates, multiplying by zero moves zero, division and
    /// remainder go through `cqo` and `idiv` (an immediate divisor through the scratch
    /// register, and a divisor of one emits nothing but a zero remainder).
    pub fn emit_binary_op(&mut self, op: BinOp, src: Option<X86Operand>, dest: Option<X86Operand>)
        requires
            binop_args_ok(op, src, dest),
            dest matches Some(d) ==> !(d is Immediate),
        ensures
            old(self).emits(final(self), binop_code(op, src, dest)),
    {
        match op {
            BinOp::Add | BinOp::Sub => {
                let is_add = match op {
                    BinOp::Add => true,
                    _ => false,
                };
                let s = src.unwrap();
                let d = dest.unwrap();
                match s {
                    X86Operand::Immediate(i) => {
                        if i.value == 0 {
                            assert(old(self).code() + Seq::<X86InstrV>::empty() =~= old(self).code());
                            return;
                        }
                        if i.value < -2147483648 || i.value > 2147483647 {
                            let scratch = X86Operand::Register(X86WReg::scratch2(i.width));
                            self.emit_move(s, scratch);
                            if is_add {
                                self.push(X86Instr::Add(scratch, d));
                            } else {
                                self.push(X86Instr::Sub(scratch, d));
                            }
                            assert(self.code() =~= old(self).code() + binop_code(op, src, dest));
                            return;
                        }
                    },
                    _ => {},
                }
                if is_add {
                    self.push(X86Instr::Add(s, d));
                } else {
                    self.push(X86Instr::Sub(s, d));
                }
            },
            BinOp::Mul => {
                let s = src.unwrap();
                let d = dest.unwrap();
                match s {
                    X86Operand::Immediate(i) => {
                        if i.value == 1 {
                            assert(old(self).code() + Seq::<X86InstrV>::empty() =~= old(self).code());
                        } else if i.value == -1 {
                            self.push(X86Instr::Neg(d));
                        } else if i.value == 0 {
                            self.emit_move(s, d);
                        } else {
                            self.push(X86Instr::IMul(Some(s), d, d));
                        }
                    },
                    _ => self.push(X86Instr::IMul(None, s, d)),
                }
            },
            BinOp::Div | BinOp::Mod => {
                let s = src.unwrap();
                match s {
                    X86Operand::Immediate(i) => {
                        if i.value == 1 {
                            match op {
                                BinOp::Mod => {
                                    self.emit_move(
                                        X86Operand::Immediate(Immediate { value: 0, width: i.width }),
                                        X86Operand::Register(X86WReg::modulo(i.width)),
                                    );
                                },
                                _ => {
                                    assert(old(self).code() + Seq::<X86InstrV>::empty() =~= old(self).code());
                                },
                            }
                            return;
                        }
                        let scratch = X86Operand::Register(X86WReg::scratch(i.width));
                        self.emit_move(s, scratch);
                        self.push(X86Instr::Cqo(i.width));
                        self.push(X86Instr::IDiv(scratch));
                        assert(self.code() =~= old(self).code() + binop_code(op, src, dest));
                    },
                    _ => {
                        self.push(X86Instr::Cqo(s.width()));
                        self.push(X86Instr::IDiv(s));
                        assert(self.code() =~= old(self).code() + binop_code(op, src, dest));
                    },
                }
            },
            BinOp::And | BinOp::LAnd => self.push(X86Instr::And(src.unwrap(), dest.unwrap())),
            BinOp::Xor => self.push(X86Instr::Xor(src.unwrap(), dest.unwrap())),
            BinOp::Or | BinOp::LOr => self.push(X86Instr::Or(src.unwrap(), dest.unwrap())),
            BinOp::Sal => self.push(X86Instr::Sal(src, dest.unwrap())),
            BinOp::Sar => self.push(X86Instr::Sar(src, dest.unwrap())),
            _ => {
                assert(old(self).code() + Seq::<X86InstrV>::empty() =~= old(self).code());
            },
        }
    }

    /// Emit a comparison of `lhs` with `rhs` that stores its result in the low byte of
    /// `dest`, a register or a stack slot.
    pub fn emit_binary_cmp(&mut self, op: BinOp, lhs: X86Operand, rhs: X86Operand, dest: X86Operand)
        requires
            is_comparator(op),
            dest is Register || dest is Stack,
        ensures
            old(self).emits(final(self), seq![X86InstrV::Cmp(lhs, rhs), setcc(op, low_byte(dest))]),
    {
        self.emit_cmp(lhs, rhs);
        let d = match dest {
            X86Operand::Register(w) => X86Operand::Register(X86WReg { register: w.register, width: Width::W8 }),
            X86Operand::Stack(sv) => X86Operand::Stack(StackVar { offset: sv.offset, width: Width::W8 }),
            _ => dest,
        };
        let instr = match op {
            BinOp::CmpEq => X86Instr::Sete(d),
            BinOp::CmpNeq => X86Instr::Setne(d),
            BinOp::Lt => X86Instr::Setl(d),
            BinOp::Gt => X86Instr::Setg(d),
            BinOp::Lte => X86Instr::Setle(d),
            _ => X86Instr::Setge(d),
        };
        self.push(instr);
        assert(self.code() =~= old(self).code() + seq![X86InstrV::Cmp(lhs, rhs), setcc(op, low_byte(dest))]);
    }
}


/// Registers listed in strictly increasing declaration order are at most sixteen.
proof fn lemma_sorted_regs_no_dup(s: Seq<X86Reg>)
    requires
        sorted_regs(s),
    ensures
        s.no_duplicates(),
{
    assert forall|i: int, j: int| 0 <= i < s.len() && 0 <= j < s.len() && i != j implies s[i] != s[j] by {
        if i < j {
            assert(reg_rank(s[i]) < reg_rank(s[j]));
        } else {
            assert(reg_rank(s[j]) < reg_rank(s[i]));
        }
    }
}

proof fn lemma_sorted_regs_len(s: Seq<X86Reg>)
    requires
        sorted_regs(s),
    ensures
        s.len() <= 16,
{
    assert forall|i: int| 0 <= i < s.len() implies reg_rank(#[trigger] s[i]) >= i by {
        lemma_rank_at_least(s, i);
    }
    if s.len() > 16 {
        assert(reg_rank(s[16]) >= 16);
    }
}

proof fn lemma_rank_at_least(s: Seq<X86Reg>, i: int)
    requires
        sorted_regs(s),
        0 <= i < s.len(),
    ensures
        reg_rank(s[i]) >= i,
    decreases i,
{
    if i > 0 {
        lemma_rank_at_least(s, i - 1);
        assert(reg_rank(s[i - 1]) < reg_rank(s[i]));
    }
}

/// Where a temporary is kept: its stack slot at the width of its type when spilled, its
/// register at that width otherwise.
pub open spec fn temp_location(colors: Seq<Color>, slots: Seq<Option<StackVar>>, temp: Temp) -> X86Operand {
    let c = colors[temp.0 as int];
    let w = width_for_type_spec(temp.1);
    if c == SPILL {
        X86Operand::Stack(StackVar { offset: slots[temp.0 as int]->0.offset, width: w })
    } else {
        X86Operand::Register(X86WReg { register: allocatable_spec()[c - 1], width: w })
    }
}

/// The temporary has a color, a slot when spilled, and a type with a width.
pub open spec fn temp_located(colors: Seq<Color>, slots: Seq<Option<StackVar>>, temp: Temp) -> bool {
    &&& temp.0 < colors.len()
    &&& temp.0 < slots.len()
    &&& has_width(temp.1)
    &&& colors[temp.0 as int] != UNCOLORED
    &&& colors[temp.0 as int] == SPILL ==> slots[temp.0 as int] is Some
    &&& colors[temp.0 as int] != SPILL ==> 1 <= colors[temp.0 as int] <= 14
}

/// The operand has a location: a constant of a type with a width, or a located
/// temporary.
pub open spec fn operand_located(colors: Seq<Color>, slots: Seq<Option<StackVar>>, op: Operand) -> bool {
    match op {
        Operand::Const(c) => has_width(c.1),
        Operand::Temp(t) => temp_located(colors, slots, t),
    }
}

/// Where an operand is: an immediate of the width of its type for a constant, the
/// location of the temporary otherwise.
pub open spec fn operand_location(colors: Seq<Color>, slots: Seq<Option<StackVar>>, op: Operand) -> X86Operand {
    match op {
        Operand::Const(c) => imm(c.0, width_for_type_spec(c.1)),
        Operand::Temp(t) => temp_location(colors, slots, t),
    }
}

/// Code that ends a function: its exit label, the release of its frame and `ret`.
pub open spec fn epilogue(prefix: Seq<char>, frame: nat, callee: Seq<X86Reg>) -> Seq<X86InstrV> {
    seq![X86InstrV::Label(prefix + seq!['e', 'x', 'i', 't'])]
        + (if frame > 0 { seq![X86InstrV::Add(imm(frame as i64, Width::W64), rsp())] } else { Seq::<X86InstrV>::empty() })
        + restore_code(callee) + seq![X86InstrV::Ret]
}

impl X86Context {
    /// Get the location of a temporary; a caller-saved register that it uses is recorded
    /// as used.
    pub fn get_temp_location(&mut self, temp: Temp) -> (r: X86Operand)
        requires
            old(self).wf(),
            temp_located(old(self).colors(), old(self).slots(), temp),
        ensures
            final(self).wf(),
            r == temp_location(old(self).colors(), old(self).slots(), temp),
            final(self).code() == old(self).code(),
            final(self).callee() == old(self).callee(),
            final(self).colors() == old(self).colors(),
            final(self).slots() == old(self).slots(),
            final(self).frame() == old(self).frame(),
            final(self).prefix() == old(self).prefix(),
            forall|x: X86Reg| #[trigger] final(self).caller().contains(x) <==> old(self).caller().contains(x)
                || (r matches X86Operand::Register(w) && w.register == x && caller_saved_spec().contains(x)),
    {
        let color = self.regalloc[temp.0];
        let w = width_for_type(&temp.1);
        if color == SPILL {
            let sv = self.stack_allocation[temp.0].unwrap();
            X86Operand::Stack(sv.as_width(w))
        } else {
            let register = color_to_register(color);
            if contains_reg(&X86Reg::caller_saved(), register) {
                insert_reg(&mut self.used_caller_saved, register);
            }
            X86Operand::Register(X86WReg { register, width: w })
        }
    }

    /// Get the location of an operand: an immediate of the width of its type for a
    /// constant, the location of the temporary otherwise.
    pub fn get_operand_location(&mut self, operand: Operand) -> (r: X86Operand)
        requires
            old(self).wf(),
            operand matches Operand::Const(c) ==> has_width(c.1),
            operand matches Operand::Temp(t) ==> temp_located(old(self).colors(), old(self).slots(), t),
        ensures
            final(self).wf(),
            operand matches Operand::Const(c) ==> r == imm(c.0, width_for_type_spec(c.1)) && *final(self) == *old(self),
            operand matches Operand::Temp(t) ==> r == temp_location(old(self).colors(), old(self).slots(), t),
            final(self).code() == old(self).code(),
            final(self).callee() == old(self).callee(),
            final(self).colors() == old(self).colors(),
            final(self).slots() == old(self).slots(),
            final(self).frame() == old(self).frame(),
            final(self).prefix() == old(self).prefix(),
    {
        match operand {
            Operand::Const(c) => X86Operand::Immediate(Immediate { value: c.0, width: width_for_type(&c.1) }),
            Operand::Temp(t) => self.get_temp_location(t),
        }
    }

    /// Code that leaves the frame: release it and restore the callee-saved registers.
    fn emit_frame_release(&mut self)
        requires
            old(self).wf(),
        ensures
            old(self).emits(final(self), (if old(self).frame() > 0 {
                seq![X86InstrV::Add(imm(old(self).frame() as i64, Width::W64), rsp())]
            } else {
                Seq::<X86InstrV>::empty()
            }) + restore_code(old(self).callee())),
    {
        if self.frame_size > 0 {
            self.push(X86Instr::Add(
                X86Operand::Immediate(Immediate { value: self.frame_size as i64, width: Width::W64 }),
                X86Operand::Register(X86WReg::stack_pointer()),
            ));
        } else {
            assert(old(self).code() + Seq::<X86InstrV>::empty() =~= old(self).code());
        }
        let ghost head: Seq<X86InstrV> = if old(self).frame() > 0 {
            seq![X86InstrV::Add(imm(old(self).frame() as i64, Width::W64), rsp())]
        } else {
            Seq::<X86InstrV>::empty()
        };
        proof {
            lemma_sorted_regs_len(self.used_callee_saved@);
            assert(self.used_callee_saved@.take(0) =~= Seq::<X86Reg>::empty());
            assert(head + restore_code(self.used_callee_saved@.take(0)) =~= head);
        }
        let mut index: usize = 0;
        while index < self.used_callee_saved.len()
            invariant
                self.wf(),
                old(self).emits(&*self, head + restore_code(self.used_callee_saved@.take(index as int))),
                self.used_callee_saved@.len() <= 16,
                index <= self.used_callee_saved@.len(),
            decreases self.used_callee_saved@.len() - index,
        {
            let register = self.used_callee_saved[index];
            let off: i64 = -(((index + 1) * STACK_SLOT_WIDTH) as i64);
            self.push(X86Instr::Mov(
                X86Operand::Stack(StackVar { offset: off, width: Width::W64 }),
                X86Operand::Register(X86WReg { register, width: Width::W64 }),
            ));
            proof {
                let t = self.used_callee_saved@.take(index as int + 1);
                assert(t.drop_last() =~= self.used_callee_saved@.take(index as int));
                assert(t.last() == register);
                assert(self.code() =~= old(self).code() + (head + restore_code(t)));
            }
            index = index + 1;
        }
        proof {
            assert(self.used_callee_saved@.take(self.used_callee_saved@.len() as int) =~= self.used_callee_saved@);
        }
    }

    /// Emit a tail call: the arguments go to the argument registers, the frame is left and
    /// control jumps to the callee. Gives `false`, emitting nothing, when there are more
    /// arguments than argument registers or an argument is held in an argument register.
    pub fn emit_tail_call(&mut self, args: Vec<X86Operand>, name: String) -> (r: bool)
        requires
            old(self).wf(),
        ensures
            r == !(args@.len() > 6 || exists|i: int| 0 <= i < args@.len() && (#[trigger] args@[i] matches X86Operand::Register(w)
                && call_argument_spec().contains(w.register))),
            r ==> old(self).emits(final(self), arg_moves(args@) + (if old(self).frame() > 0 {
                seq![X86InstrV::Add(imm(old(self).frame() as i64, Width::W64), rsp())]
            } else {
                Seq::<X86InstrV>::empty()
            }) + restore_code(old(self).callee()) + seq![X86InstrV::Jmp(name@)]),
            !r ==> *final(self) == *old(self),
    {
        let arg_regs = X86Reg::call_argument();
        if args.len() > arg_regs.len() {
            return false;
        }
        let mut k: usize = 0;
        while k < args.len()
            invariant
                k <= args@.len(),
                arg_regs@ == call_argument_spec(),
                forall|i: int| 0 <= i < k ==> !(#[trigger] args@[i] matches X86Operand::Register(w)
                    && call_argument_spec().contains(w.register)),
            decreases args@.len() - k,
        {
            match args[k] {
                X86Operand::Register(w) => {
                    if contains_reg(&arg_regs, w.register) {
                        return false;
                    }
                },
                _ => {},
            }
            k = k + 1;
        }
        let mut index: usize = 0;
        while index < args.len()
            invariant
                self.wf(),
                arg_regs@ == call_argument_spec(),
                args@.len() <= 6,
                index <= args@.len(),
                old(self).emits(&*self, arg_moves(args@.take(index as int))),
            decreases args@.len() - index,
        {
            let arg = args[index];
            let ghost before = self.code();
            self.emit_move(arg, X86Operand::Register(X86WReg { register: arg_regs[index], width: arg.width() }));
            proof {
                let t = args@.take(index as int + 1);
                assert(t.drop_last() =~= args@.take(index as int));
                assert(t[index as int] == arg);
                assert(self.code() =~= old(self).code() + arg_moves(t));
            }
            index = index + 1;
        }
        proof { assert(args@.take(args@.len() as int) =~= args@); }
        let ghost moved = self.code();
        self.emit_frame_release();
        self.push(X86Instr::Jmp(name));
        proof {
            assert(self.code() =~= old(self).code() + (arg_moves(args@) + (if old(self).frame() > 0 {
                seq![X86InstrV::Add(imm(old(self).frame() as i64, Width::W64), rsp())]
            } else {
                Seq::<X86InstrV>::empty()
            }) + restore_code(old(self).callee()) + seq![X86InstrV::Jmp(name@)]));
        }
        true
    }

    /// Generate the final assembly of this function: its code, the exit label, the
    /// release of the frame and `ret`. The context is left without code.
    pub fn assemble(&mut self) -> (r: Vec<X86Instr>)
        requires
            old(self).wf(),
        ensures
            code_of(r@) == old(self).code() + epilogue(old(self).prefix(), old(self).frame(), old(self).callee()),
            final(self).code().len() == 0,
            final(self).wf(),
    {
        let l = self.exit_label();
        self.push(X86Instr::Label(l));
        self.emit_frame_release();
        self.push(X86Instr::Ret);
        let mut assembly: Vec<X86Instr> = Vec::new();
        std::mem::swap(&mut assembly, &mut self.instructions);
        assert(code_of(assembly@) =~= old(self).code() + seq![X86InstrV::Label(old(self).prefix() + seq!['e', 'x', 'i', 't'])]
            + (if old(self).frame() > 0 {
                seq![X86InstrV::Add(imm(old(self).frame() as i64, Width::W64), rsp())]
            } else {
                Seq::<X86InstrV>::empty()
            }) + restore_code(old(self).callee()) + seq![X86InstrV::Ret]);
        assert(self.code() =~= Seq::<X86InstrV>::empty());
        assembly
    }
}


/// The register is not the one receiving a call's result.
pub open spec fn not_ret(ret: Option<X86Reg>) -> spec_fn(X86Reg) -> bool {
    |r: X86Reg| Some(r) != ret
}

/// Bytes reserved below the stack pointer around a call: a slot for each saved
/// caller-saved register and for each argument beyond the sixth, rounded up to the
/// stack alignment.
pub open spec fn call_offset_spec(saved: nat, nargs: nat) -> nat {
    let base = saved * 8 + if nargs > 6 { ((nargs - 6) * 8) as nat } else { 0nat };
    if base % 16 != 0 { base + 8 } else { base }
}

/// Bytes of the arguments passed on the stack.
pub open spec fn stack_args_bytes(nargs: nat) -> nat {
    if nargs > 6 { ((nargs - 6) * 8) as nat } else { 0nat }
}

/// Position of the first occurrence of `r` in `s`, or the length of `s`.
pub open spec fn reg_pos(s: Seq<X86Reg>, r: X86Reg) -> int {
    if exists|i: int| 0 <= i < s.len() && s[i] == r {
        choose|i: int| 0 <= i < s.len() && s[i] == r && forall|q: int| 0 <= q < i ==> s[q] != r
    } else {
        s.len() as int
    }
}

/// Code that saves the first `k` of the registers `saved` above the stack arguments.
pub open spec fn caller_saves_code(saved: Seq<X86Reg>, ao: nat, k: nat) -> Seq<X86InstrV>
    decreases k,
{
    if k == 0 {
        Seq::empty()
    } else {
        caller_saves_code(saved, ao, (k - 1) as nat) + move_code(
            wreg(saved[k - 1], Width::W64),
            X86Operand::Stack(StackVar { offset: (ao + (k - 1) * 8) as i64, width: Width::W64 }),
        )
    }
}

/// Code that restores the first `k` of the registers `saved`.
pub open spec fn caller_restores_code(saved: Seq<X86Reg>, ao: nat, k: nat) -> Seq<X86InstrV>
    decreases k,
{
    if k == 0 {
        Seq::empty()
    } else {
        caller_restores_code(saved, ao, (k - 1) as nat) + move_code(
            X86Operand::Stack(StackVar { offset: (ao + (k - 1) * 8) as i64, width: Width::W64 }),
            wreg(saved[k - 1], Width::W64),
        )
    }
}

/// Code that passes argument `k`: into its argument register for the first six (read
/// from the saved copy of a saved register other than its own argument register's
/// slot, from above the reserved area for a stack operand, through `r10` for a memory
/// operand), else into its slot on the stack.
pub open spec fn arg_code(arg: X86Operand, k: int, saved: Seq<X86Reg>, ao: nat, off: nat) -> Seq<X86InstrV> {
    let w = width_of(arg);
    if k < 6 {
        let target = wreg(call_argument_spec()[k], w);
        match arg {
            X86Operand::Stack(sv) => move_code(X86Operand::Stack(StackVar { offset: (off + sv.offset) as i64, width: w }), target),
            X86Operand::Register(x) => {
                let p = reg_pos(saved, x.register);
                move_code(
                    if p < saved.len() && p != k { X86Operand::Stack(StackVar { offset: (ao + p * 8) as i64, width: w }) } else { arg },
                    target,
                )
            },
            X86Operand::Immediate(_) => move_code(arg, target),
            X86Operand::Memory(mv) => move_code(arg, wreg(X86Reg::R10, mv.width)) + move_code(wreg(X86Reg::R10, mv.width), target),
        }
    } else {
        let src = match arg {
            X86Operand::Stack(sv) => X86Operand::Stack(StackVar { offset: (off + sv.offset) as i64, width: w }),
            _ => arg,
        };
        move_code(src, X86Operand::Stack(StackVar { offset: ((k - 6) * 8) as i64, width: w }))
    }
}

/// Code that passes the first `k` arguments.
pub open spec fn args_code(args: Seq<X86Operand>, saved: Seq<X86Reg>, ao: nat, off: nat, k: nat) -> Seq<X86InstrV>
    decreases k,
{
    if k == 0 {
        Seq::empty()
    } else {
        args_code(args, saved, ao, off, (k - 1) as nat) + arg_code(args[k - 1], k - 1, saved, ao, off)
    }
}

/// Code that moves the returned value from `rax` to the destination.
pub open spec fn ret_code(dest: Option<X86Operand>, off: nat) -> Seq<X86InstrV> {
    match dest {
        Some(X86Operand::Stack(sv)) => move_code(
            wreg(X86Reg::Rax, width_of(X86Operand::Stack(sv))),
            X86Operand::Stack(StackVar { offset: (sv.offset + off) as i64, width: width_of(X86Operand::Stack(sv)) }),
        ),
        Some(d) => move_code(wreg(X86Reg::Rax, width_of(d)), d),
        None => Seq::empty(),
    }
}

/// Code of a call of `name` with the registers `saved` saved around it: reserve the
/// area, save the registers, pass the arguments, call, take the result, restore the
/// registers, release the area.
pub open spec fn call_code(saved: Seq<X86Reg>, dest: Option<X86Operand>, args: Seq<X86Operand>, name: Seq<char>) -> Seq<X86InstrV> {
    let off = call_offset_spec(saved.len(), args.len());
    let ao = stack_args_bytes(args.len());
    binop_code(BinOp::Sub, Some(imm(off as i64, Width::W64)), Some(rsp()))
        + caller_saves_code(saved, ao, saved.len())
        + args_code(args, saved, ao, off, args.len())
        + seq![X86InstrV::Call(name)]
        + ret_code(dest, off)
        + caller_restores_code(saved, ao, saved.len())
        + binop_code(BinOp::Add, Some(imm(off as i64, Width::W64)), Some(rsp()))
}

/// The code holds no call.
pub open spec fn no_calls(s: Seq<X86InstrV>) -> bool {
    forall|k: int| 0 <= k < s.len() ==> !((#[trigger] s[k]) is Call)
}

/// Every call in the code calls `target`.
pub open spec fn calls_only_to(s: Seq<X86InstrV>, target: Seq<char>) -> bool {
    forall|k: int| 0 <= k < s.len() && (#[trigger] s[k]) is Call ==> s[k] == X86InstrV::Call(target)
}

/// Code without calls followed by code without calls has none; the same for calls to
/// one target.
pub proof fn lemma_calls_concat(a: Seq<X86InstrV>, b: Seq<X86InstrV>, t: Seq<char>)
    ensures
        no_calls(a) && no_calls(b) ==> no_calls(a + b),
        no_calls(a) ==> calls_only_to(a, t),
        calls_only_to(a, t) && calls_only_to(b, t) ==> calls_only_to(a + b, t),
{
    if no_calls(a) && no_calls(b) {
        assert forall|k: int| 0 <= k < (a + b).len() implies !((#[trigger] (a + b)[k]) is Call) by {
            if k < a.len() { assert((a + b)[k] == a[k]); } else { assert((a + b)[k] == b[k - a.len()]); }
        }
    }
    if calls_only_to(a, t) && calls_only_to(b, t) {
        assert forall|k: int| 0 <= k < (a + b).len() && (#[trigger] (a + b)[k]) is Call implies (a + b)[k] == X86InstrV::Call(t) by {
            if k < a.len() { assert((a + b)[k] == a[k]); } else { assert((a + b)[k] == b[k - a.len()]); }
        }
    }
}

/// A move holds no call.
pub proof fn lemma_move_no_calls(src: X86Operand, dest: X86Operand)
    ensures
        no_calls(move_code(src, dest)),
{
}

/// A binary operation holds no call.
pub proof fn lemma_binop_no_calls(op: BinOp, src: Option<X86Operand>, dest: Option<X86Operand>)
    ensures
        no_calls(binop_code(op, src, dest)),
{
    let s = src.unwrap();
    let d = dest.unwrap();
    lemma_move_no_calls(s, d);
    lemma_move_no_calls(s, wreg(X86Reg::R11, width_of(s)));
    lemma_move_no_calls(s, wreg(X86Reg::R10, width_of(s)));
    lemma_move_no_calls(imm(0, width_of(s)), wreg(X86Reg::Rdx, width_of(s)));
    lemma_calls_concat(move_code(s, wreg(X86Reg::R11, width_of(s))), seq![X86InstrV::Add(wreg(X86Reg::R11, width_of(s)), d)], seq![]);
    lemma_calls_concat(move_code(s, wreg(X86Reg::R11, width_of(s))), seq![X86InstrV::Sub(wreg(X86Reg::R11, width_of(s)), d)], seq![]);
    lemma_calls_concat(move_code(s, wreg(X86Reg::R10, width_of(s))),
        seq![X86InstrV::Cqo(width_of(s)), X86InstrV::IDiv(wreg(X86Reg::R10, width_of(s)))], seq![]);
}

/// The traps hold no call.
pub proof fn lemma_traps_no_calls(pred: X86Operand, value: i64, trap: Trap)
    ensures
        no_calls(trap_lesser_code(pred, value, trap)),
        no_calls(trap_greater_code(pred, value, trap)),
        no_calls(trap_zero_code(pred, trap)),
{
}

proof fn lemma_saves_no_calls(saved: Seq<X86Reg>, ao: nat, k: nat)
    ensures
        no_calls(caller_saves_code(saved, ao, k)),
        no_calls(caller_restores_code(saved, ao, k)),
    decreases k,
{
    if k > 0 {
        lemma_saves_no_calls(saved, ao, (k - 1) as nat);
        let st = X86Operand::Stack(StackVar { offset: (ao + (k - 1) * 8) as i64, width: Width::W64 });
        lemma_move_no_calls(wreg(saved[k - 1], Width::W64), st);
        lemma_move_no_calls(st, wreg(saved[k - 1], Width::W64));
        lemma_calls_concat(caller_saves_code(saved, ao, (k - 1) as nat), move_code(wreg(saved[k - 1], Width::W64), st), seq![]);
        lemma_calls_concat(caller_restores_code(saved, ao, (k - 1) as nat), move_code(st, wreg(saved[k - 1], Width::W64)), seq![]);
    }
}

proof fn lemma_args_no_calls(args: Seq<X86Operand>, saved: Seq<X86Reg>, ao: nat, off: nat, k: nat)
    requires
        k <= args.len(),
    ensures
        no_calls(args_code(args, saved, ao, off, k)),
    decreases k,
{
    if k > 0 {
        lemma_args_no_calls(args, saved, ao, off, (k - 1) as nat);
        let arg = args[k - 1];
        let w = width_of(arg);
        assert(no_calls(arg_code(arg, k - 1, saved, ao, off))) by {
            if k - 1 < 6 {
                let target = wreg(call_argument_spec()[k - 1], w);
                match arg {
                    X86Operand::Memory(mv) => {
                        lemma_move_no_calls(arg, wreg(X86Reg::R10, mv.width));
                        lemma_move_no_calls(wreg(X86Reg::R10, mv.width), target);
                        lemma_calls_concat(move_code(arg, wreg(X86Reg::R10, mv.width)), move_code(wreg(X86Reg::R10, mv.width), target), seq![]);
                    },
                    _ => {},
                }
            }
        }
        lemma_calls_concat(args_code(args, saved, ao, off, (k - 1) as nat), arg_code(arg, k - 1, saved, ao, off), seq![]);
    }
}

/// The code of a call calls its target and nothing else.
pub proof fn lemma_call_code_calls(saved: Seq<X86Reg>, dest: Option<X86Operand>, args: Seq<X86Operand>, name: Seq<char>)
    ensures
        calls_only_to(call_code(saved, dest, args, name), name),
        call_code(saved, dest, args, name).contains(X86InstrV::Call(name)),
{
    let off = call_offset_spec(saved.len(), args.len());
    let ao = stack_args_bytes(args.len());
    let a = binop_code(BinOp::Sub, Some(imm(off as i64, Width::W64)), Some(rsp()));
    let b = caller_saves_code(saved, ao, saved.len());
    let c = args_code(args, saved, ao, off, args.len());
    let d = seq![X86InstrV::Call(name)];
    let e = ret_code(dest, off);
    let f = caller_restores_code(saved, ao, saved.len());
    let g = binop_code(BinOp::Add, Some(imm(off as i64, Width::W64)), Some(rsp()));
    lemma_binop_no_calls(BinOp::Sub, Some(imm(off as i64, Width::W64)), Some(rsp()));
    lemma_binop_no_calls(BinOp::Add, Some(imm(off as i64, Width::W64)), Some(rsp()));
    lemma_saves_no_calls(saved, ao, saved.len());
    lemma_args_no_calls(args, saved, ao, off, args.len());
    match dest {
        Some(X86Operand::Stack(sv)) => lemma_move_no_calls(wreg(X86Reg::Rax, width_of(X86Operand::Stack(sv))),
            X86Operand::Stack(StackVar { offset: (sv.offset + off) as i64, width: width_of(X86Operand::Stack(sv)) })),
        Some(dd) => lemma_move_no_calls(wreg(X86Reg::Rax, width_of(dd)), dd),
        None => {},
    }
    lemma_calls_concat(a, b, name);
    lemma_calls_concat(a + b, c, name);
    lemma_calls_concat(d, d, name);
    assert(calls_only_to(d, name));
    lemma_calls_concat(a + b + c, d, name);
    lemma_calls_concat(e, e, name);
    lemma_calls_concat(a + b + c + d, e, name);
    lemma_calls_concat(f, f, name);
    lemma_calls_concat(a + b + c + d + e, f, name);
    lemma_calls_concat(g, g, name);
    lemma_calls_concat(a + b + c + d + e + f, g, name);
    let all = a + b + c + d + e + f + g;
    assert(all[(a + b + c).len() as int] == X86InstrV::Call(name));
}

/// `b` continues the code of `a`, all else unchanged.
pub open spec fn continues(a: X86Context, b: X86Context) -> bool {
    &&& b.code().len() >= a.code().len()
    &&& b.code().take(a.code().len() as int) == a.code()
    &&& b.callee() == a.callee()
    &&& b.caller() == a.caller()
    &&& b.colors() == a.colors()
    &&& b.slots() == a.slots()
    &&& b.frame() == a.frame()
    &&& b.prefix() == a.prefix()
    &&& b.wf() == a.wf()
}

proof fn lemma_emits_continues(a: X86Context, b: X86Context, t: Seq<X86InstrV>)
    requires
        a.emits(&b, t),
    ensures
        continues(a, b),
        b.code().len() == a.code().len() + t.len(),
        forall|i: int| 0 <= i < t.len() ==> b.code()[a.code().len() + i] == t[i],
{
    assert(b.code().take(a.code().len() as int) =~= a.code());
}

proof fn lemma_continues_trans(a: X86Context, b: X86Context, c: X86Context)
    requires
        continues(a, b),
        continues(b, c),
    ensures
        continues(a, c),
        forall|i: int| 0 <= i < b.code().len() ==> c.code()[i] == b.code()[i],
{
    assert forall|i: int| 0 <= i < b.code().len() implies c.code()[i] == b.code()[i] by {
        assert(c.code().take(b.code().len() as int)[i] == c.code()[i]);
    }
    assert(c.code().take(a.code().len() as int) =~= a.code()) by {
        assert forall|i: int| 0 <= i < a.code().len() implies c.code().take(a.code().len() as int)[i] == a.code()[i] by {
            assert(b.code().take(a.code().len() as int)[i] == b.code()[i]);
        }
    }
}

impl X86Context {
    /// Emit a call of `name`: reserve stack for the caller-saved registers in use (other
    /// than the one receiving the result) and for the arguments beyond the sixth, save
    /// those registers, place the arguments, call, move the result to `dest`, restore
    /// the registers and release the stack. The reserved amount keeps the stack aligned.
    #[verifier::rlimit(100)]
    #[verifier::spinoff_prover]
    pub fn emit_call(&mut self, dest: Option<X86Operand>, args: Vec<X86Operand>, name: String)
        requires
            old(self).wf(),
            dest matches Some(d) ==> (d is Register || d is Stack),
            dest matches Some(X86Operand::Stack(sv)) ==> 0 <= sv.offset <= i32::MAX,
            args@.len() <= 65536,
            forall|i: int| 0 <= i < args@.len() ==> (#[trigger] args@[i] matches X86Operand::Stack(sv) ==> 0 <= sv.offset <= i32::MAX),
        ensures
            continues(*old(self), *final(self)),
            ({
                let ret = match dest {
                    Some(X86Operand::Register(w)) => Some(w.register),
                    _ => None,
                };
                let saved = old(self).caller().filter(not_ret(ret));
                let off = call_offset_spec(saved.len(), args@.len());
                let tail = final(self).code().subrange(old(self).code().len() as int, final(self).code().len() as int);
                &&& off % 16 == 0
                &&& tail.contains(X86InstrV::Call(name@))
                &&& off > 0 ==> tail[0] == X86InstrV::Sub(imm(off as i64, Width::W64), rsp())
                    && tail.last() == X86InstrV::Add(imm(off as i64, Width::W64), rsp())
                &&& final(self).code() == old(self).code() + call_code(saved, dest, args@, name@)
            }),
    {
        let return_reg: Option<X86Reg> = match dest {
            Some(X86Operand::Register(w)) => Some(w.register),
            _ => None,
        };
        let ghost ret = return_reg;
        let arg_regs = X86Reg::call_argument();
        let mut caller_saved: Vec<X86Reg> = Vec::new();
        let mut k: usize = 0;
        proof {
            lemma_sorted_regs_len(self.used_caller_saved@);
            reveal(Seq::filter);
            assert(self.used_caller_saved@.take(0) =~= Seq::<X86Reg>::empty());
        }
        while k < self.used_caller_saved.len()
            invariant
                ret == return_reg,
                k <= self.used_caller_saved@.len(),
                self.used_caller_saved@.len() <= 16,
                caller_saved@ == self.used_caller_saved@.take(k as int).filter(not_ret(ret)),
                caller_saved@.len() <= k,
            decreases self.used_caller_saved@.len() - k,
        {
            let r = self.used_caller_saved[k];
            proof {
                let t = self.used_caller_saved@.take(k as int + 1);
                assert(t.drop_last() =~= self.used_caller_saved@.take(k as int));
                assert(t.last() == r);
                reveal(Seq::filter);
                assert(t.filter(not_ret(ret)) == if not_ret(ret)(r) {
                    t.drop_last().filter(not_ret(ret)).push(r)
                } else {
                    t.drop_last().filter(not_ret(ret))
                });
            }
            let keep = match return_reg {
                Some(rr) => rr != r,
                None => true,
            };
            assert(keep == not_ret(ret)(r));
            if keep {
                caller_saved.push(r);
            }
            k = k + 1;
        }
        proof { assert(self.used_caller_saved@.take(self.used_caller_saved@.len() as int) =~= self.used_caller_saved@); }
        let caller_saved_offset = caller_saved.len() * STACK_SLOT_WIDTH;
        let args_offset = if args.len() > arg_regs.len() { (args.len() - arg_regs.len()) * STACK_SLOT_WIDTH } else { 0 };
        let base = caller_saved_offset + args_offset;
        let call_offset = if base % STACK_ALIGNMENT != 0 { base + STACK_SLOT_WIDTH } else { base };
        assert(call_offset % 16 == 0);
        let ghost saved = caller_saved@;
        let ghost off = call_offset as nat;
        let ghost ao = args_offset as nat;
        assert(off == call_offset_spec(saved.len(), args@.len()));
        assert(ao == stack_args_bytes(args@.len()));
        let ghost p0 = old(self).code() + binop_code(BinOp::Sub, Some(imm(off as i64, Width::W64)), Some(rsp()));
        let ghost s0 = *self;
        self.emit_binary_op(
            BinOp::Sub,
            Some(X86Operand::Immediate(Immediate { value: call_offset as i64, width: Width::W64 })),
            Some(X86Operand::Register(X86WReg::stack_pointer())),
        );
        proof { lemma_emits_continues(s0, *self, binop_code(BinOp::Sub,
            Some(X86Operand::Immediate(Immediate { value: call_offset as i64, width: Width::W64 })),
            Some(rsp()))); }
        let ghost s1 = *self;
        assert(self.code().take(self.code().len() as int) =~= self.code());
        assert(self.code() =~= p0 + caller_saves_code(saved, ao, 0));
        let mut index: usize = 0;
        while index < caller_saved.len()
            invariant
                continues(s1, *self),
                caller_saved@ == saved,
                ao == args_offset,
                self.code() == p0 + caller_saves_code(saved, ao, index as nat),
                caller_saved@.len() <= 16,
                args_offset <= 65536 * 8,
                index <= caller_saved@.len(),
            decreases caller_saved@.len() - index,
        {
            let register = caller_saved[index];
            let ghost si = *self;
            self.emit_move(
                X86Operand::Register(X86WReg { register, width: Width::W64 }),
                X86Operand::Stack(StackVar { offset: (args_offset + index * STACK_SLOT_WIDTH) as i64, width: Width::W64 }),
            );
            proof {
                assert(self.code() =~= p0 + caller_saves_code(saved, ao, (index + 1) as nat));
                lemma_emits_continues(si, *self, move_code(X86Operand::Register(X86WReg { register, width: Width::W64 }),
                    X86Operand::Stack(StackVar { offset: (args_offset + index * STACK_SLOT_WIDTH) as i64, width: Width::W64 })));
                lemma_continues_trans(s1, si, *self);
            }
            index = index + 1;
        }
        let ghost p1 = p0 + caller_saves_code(saved, ao, saved.len());
        assert(self.code() =~= p1 + args_code(args@, saved, ao, off, 0));
        let mut index: usize = 0;
        while index < args.len()
            invariant
                continues(s1, *self),
                caller_saved@ == saved,
                ao == args_offset,
                off == call_offset,
                self.code() == p1 + args_code(args@, saved, ao, off, index as nat),
                caller_saved@.len() <= 16,
                arg_regs@ == call_argument_spec(),
                args@.len() <= 65536,
                args_offset <= 65536 * 8,
                call_offset <= 65536 * 8 + 16 * 8 + 8,
                forall|i: int| 0 <= i < args@.len() ==> (#[trigger] args@[i] matches X86Operand::Stack(sv) ==> 0 <= sv.offset <= i32::MAX),
                index <= args@.len(),
            decreases args@.len() - index,
        {
            let arg = args[index];
            let ghost si = *self;
            if index < arg_regs.len() {
                let src = match arg {
                    X86Operand::Stack(sv) => X86Operand::Stack(StackVar { offset: call_offset as i64 + sv.offset, width: arg.width() }),
                    X86Operand::Register(w) => {
                        let mut pos: usize = 0;
                        while pos < caller_saved.len() && caller_saved[pos] != w.register
                            invariant
                                pos <= caller_saved@.len(),
                                forall|q: int| 0 <= q < pos ==> caller_saved@[q] != w.register,
                            decreases caller_saved@.len() - pos,
                        {
                            pos = pos + 1;
                        }
                        proof {
                            let r = w.register;
                            if pos < caller_saved@.len() {
                                assert(saved[pos as int] == r);
                                let c = reg_pos(saved, r);
                                if c < pos {
                                    assert(saved[c] != r);
                                }
                                if c > pos {
                                    assert(saved[pos as int] != r);
                                }
                                assert(c == pos);
                            } else {
                                assert(!exists|i: int| 0 <= i < saved.len() && saved[i] == r);
                                assert(reg_pos(saved, r) == pos);
                            }
                        }
                        if pos < caller_saved.len() && pos != index {
                            X86Operand::Stack(StackVar { offset: (args_offset + pos * STACK_SLOT_WIDTH) as i64, width: arg.width() })
                        } else {
                            arg
                        }
                    },
                    X86Operand::Immediate(_) => arg,
                    X86Operand::Memory(mv) => {
                        let scratch = X86Operand::Register(X86WReg::scratch(mv.width));
                        self.emit_move(arg, scratch);
                        proof {
                            lemma_emits_continues(si, *self, move_code(arg, scratch));
                            lemma_continues_trans(s1, si, *self);
                        }
                        scratch
                    },
                };
                let ghost sj = *self;
                let target = X86Operand::Register(X86WReg { register: arg_regs[index], width: arg.width() });
                self.emit_move(src, target);
                proof {
                    lemma_emits_continues(sj, *self, move_code(src, target));
                    lemma_continues_trans(s1, sj, *self);
                }
            } else {
                let src = match arg {
                    X86Operand::Stack(sv) => X86Operand::Stack(StackVar { offset: call_offset as i64 + sv.offset, width: arg.width() }),
                    _ => arg,
                };
                let d = X86Operand::Stack(StackVar { offset: ((index - arg_regs.len()) * STACK_SLOT_WIDTH) as i64, width: arg.width() });
                self.emit_move(src, d);
                proof {
                    lemma_emits_continues(si, *self, move_code(src, d));
                    lemma_continues_trans(s1, si, *self);
                }
            }
            proof {
                assert(self.code() =~= si.code() + arg_code(args@[index as int], index as int, saved, ao, off));
                assert(self.code() =~= p1 + args_code(args@, saved, ao, off, (index + 1) as nat));
            }
            index = index + 1;
        }
        let ghost s2 = *self;
        self.push(X86Instr::Call(name));
        proof {
            lemma_emits_continues(s2, *self, seq![X86InstrV::Call(name@)]);
            lemma_continues_trans(s1, s2, *self);
        }
        let ghost call_at = s2.code().len();
        let ghost p2 = p1 + args_code(args@, saved, ao, off, args@.len()) + seq![X86InstrV::Call(name@)];
        assert(self.code() =~= p2);
        let ghost s3 = *self;
        assert(self.code().take(self.code().len() as int) =~= self.code());
        match dest {
            Some(d) => {
                match d {
                    X86Operand::Stack(sv) => {
                        let m = X86Operand::Stack(StackVar { offset: sv.offset + call_offset as i64, width: d.width() });
                        let rv = X86Operand::Register(X86WReg::ret(d.width()));
                        self.emit_move(rv, m);
                        proof { lemma_emits_continues(s3, *self, move_code(rv, m)); }
                    },
                    _ => {
                        let rv = X86Operand::Register(X86WReg::ret(d.width()));
                        self.emit_move(rv, d);
                        proof { lemma_emits_continues(s3, *self, move_code(rv, d)); }
                    },
                }
            },
            None => {},
        }
        let ghost p3 = p2 + ret_code(dest, off);
        assert(self.code() =~= p3 + caller_restores_code(saved, ao, 0));
        proof { lemma_continues_trans(s1, s3, *self); }
        let mut index: usize = 0;
        while index < caller_saved.len()
            invariant
                continues(s3, *self),
                continues(s1, s3),
                caller_saved@.len() <= 16,
                args_offset <= 65536 * 8,
                index <= caller_saved@.len(),
                caller_saved@ == saved,
                ao == args_offset,
                self.code() == p3 + caller_restores_code(saved, ao, index as nat),
            decreases caller_saved@.len() - index,
        {
            let register = caller_saved[index];
            let ghost si = *self;
            self.emit_move(
                X86Operand::Stack(StackVar { offset: (args_offset + index * STACK_SLOT_WIDTH) as i64, width: Width::W64 }),
                X86Operand::Register(X86WReg { register, width: Width::W64 }),
            );
            proof {
                assert(self.code() =~= p3 + caller_restores_code(saved, ao, (index + 1) as nat));
                lemma_emits_continues(si, *self, move_code(
                    X86Operand::Stack(StackVar { offset: (args_offset + index * STACK_SLOT_WIDTH) as i64, width: Width::W64 }),
                    X86Operand::Register(X86WReg { register, width: Width::W64 })));
                lemma_continues_trans(s3, si, *self);
            }
            index = index + 1;
        }
        let ghost s4 = *self;
        let ghost p4 = p3 + caller_restores_code(saved, ao, saved.len());
        self.emit_binary_op(
            BinOp::Add,
            Some(X86Operand::Immediate(Immediate { value: call_offset as i64, width: Width::W64 })),
            Some(X86Operand::Register(X86WReg::stack_pointer())),
        );
        proof {
            lemma_emits_continues(s4, *self, binop_code(BinOp::Add,
                Some(X86Operand::Immediate(Immediate { value: call_offset as i64, width: Width::W64 })),
                Some(rsp())));
            lemma_continues_trans(s3, s4, *self);
            lemma_continues_trans(s1, s3, *self);
            lemma_continues_trans(s0, s1, *self);
            assert(self.code() =~= old(self).code() + call_code(saved, dest, args@, name@));
            let tail = self.code().subrange(old(self).code().len() as int, self.code().len() as int);
            assert(tail[call_at - old(self).code().len()] == X86InstrV::Call(name@));
            if call_offset > 0 {
                assert(tail[0] == self.code()[old(self).code().len() as int]);
                assert(tail.last() == self.code().last());
            }
        }
    }
}


/// The instruction becomes a call: a call, a tail call that may not become a jump, or
/// an allocation, which calls `calloc`.
pub open spec fn emits_call(i: Instr) -> bool {
    i is Call || i is TailCall || i is Alloc || i is AllocArray
}

/// Some block of the function makes a call.
pub open spec fn makes_call(ir: IRContext) -> bool {
    exists|l: Label| #[trigger] ir.has_block(l) && ({
        let b = ir.block(l);
        (exists|j: int| 0 <= j < b.body@.len() && emits_call(#[trigger] b.body@[j])) || (b.terminator matches Some(t) && emits_call(t))
    })
}

/// Size of the frame: a slot for each callee-saved register used and each spill slot,
/// plus one slot when needed to keep calls aligned.
pub open spec fn frame_spec(callee_count: nat, spill_slots: nat, calls: bool) -> nat {
    let size = callee_count * 8 + spill_slots * 8;
    if size % 16 == 0 && calls { size + 8 } else { size }
}

/// Slot that a list of spill assignments gives a temporary: the last entry for it.
pub open spec fn spill_slot(spills: Seq<(usize, StackVar)>, t: int) -> Option<StackVar>
    decreases spills.len(),
{
    if spills.len() == 0 {
        None
    } else if spills.last().0 == t {
        Some(spills.last().1)
    } else {
        spill_slot(spills.drop_last(), t)
    }
}

/// A color names a register, a spill, or no color at all.
pub open spec fn color_known(c: Color) -> bool {
    c == UNCOLORED || c == SPILL || c <= 14
}

/// Inputs on which the context of a function can be built: every color is known, the
/// spill area and the parameters passed on the stack fit in the frame, every parameter
/// has a color, and a spilled register parameter has a slot.
pub open spec fn context_ok(
    regalloc: Seq<Color>,
    params_count: int,
    spills: Seq<(usize, StackVar)>,
    spill_slot_count: int,
) -> bool {
    &&& forall|i: int| 0 <= i < regalloc.len() ==> color_known(#[trigger] regalloc[i])
    &&& spill_slot_count <= 16777216
    &&& params_count <= regalloc.len()
    &&& params_count <= 6 + 16777216
    &&& forall|t: int| 0 <= t < params_count ==> #[trigger] regalloc[t] != UNCOLORED
    &&& forall|t: int| 0 <= t < params_count && t < 6 && #[trigger] regalloc[t] == SPILL
        ==> spill_slot(spills, t) is Some
}

/// Callee-saved registers that the colors of a function use.
pub open spec fn used_callee_set(regalloc: Seq<Color>) -> Set<X86Reg> {
    Set::new(|x: X86Reg| callee_saved_spec().contains(x)
        && exists|i: int| 0 <= i < regalloc.len() && 1 <= #[trigger] regalloc[i] <= 14 && allocatable_spec()[regalloc[i] - 1] == x)
}

/// Frame size of the context of a function.
pub open spec fn context_frame(regalloc: Seq<Color>, spill_slot_count: nat, ir: IRContext) -> nat {
    frame_spec(used_callee_set(regalloc).len(), spill_slot_count, makes_call(ir))
}

/// Stack slots of the context of a function: the caller's slot of each parameter passed
/// on the stack (above the frame and the return address), the spill slot of every other
/// temporary.
pub open spec fn context_slots(n: int, params_count: int, spills: Seq<(usize, StackVar)>, frame: nat) -> Seq<Option<StackVar>> {
    Seq::new(n as nat, |t: int| if 6 <= t < params_count {
        Some(StackVar { offset: (frame + (t - 5) * 8) as i64, width: Width::W64 })
    } else {
        spill_slot(spills, t)
    })
}

/// Code that reserves a frame of `frame` bytes, where there is one.
pub open spec fn frame_alloc_code(frame: nat) -> Seq<X86InstrV> {
    if frame > 0 {
        seq![X86InstrV::Sub(imm(frame as i64, Width::W64), rsp())]
    } else {
        Seq::empty()
    }
}

/// Code that saves the first `k` of the callee-saved registers `callee` at the top of
/// the frame, the first one highest.
pub open spec fn saves_code(callee: Seq<X86Reg>, frame: nat, k: nat) -> Seq<X86InstrV>
    decreases k,
{
    if k == 0 {
        Seq::empty()
    } else {
        saves_code(callee, frame, (k - 1) as nat) + move_code(
            wreg(callee[k - 1], Width::W64),
            X86Operand::Stack(StackVar { offset: (frame - k * 8) as i64, width: Width::W64 }),
        )
    }
}

/// Where parameter `t` arrives: its argument register for the first six, else the
/// caller's stack slot.
pub open spec fn param_source(t: int, slots: Seq<Option<StackVar>>) -> X86Operand {
    if t < 6 {
        wreg(call_argument_spec()[t], Width::W64)
    } else {
        X86Operand::Stack(slots[t]->0)
    }
}

/// Where parameter `t` lives in the function: its spill slot, or its register.
pub open spec fn param_dest(t: int, colors: Seq<Color>, slots: Seq<Option<StackVar>>) -> X86Operand {
    if colors[t] == SPILL {
        X86Operand::Stack(slots[t]->0)
    } else {
        wreg(allocatable_spec()[colors[t] - 1], Width::W64)
    }
}

/// Code that moves the first `k` parameters to where they live.
pub open spec fn param_moves_code(colors: Seq<Color>, slots: Seq<Option<StackVar>>, k: nat) -> Seq<X86InstrV>
    decreases k,
{
    if k == 0 {
        Seq::empty()
    } else {
        param_moves_code(colors, slots, (k - 1) as nat) + move_code(
            param_source(k - 1, slots),
            param_dest(k - 1, colors, slots),
        )
    }
}

/// Prologue of a function: the frame reserved, the callee-saved registers it uses saved,
/// and its parameters moved to where they live.
pub open spec fn prologue_code(
    colors: Seq<Color>,
    params_count: nat,
    slots: Seq<Option<StackVar>>,
    frame: nat,
    callee: Seq<X86Reg>,
) -> Seq<X86InstrV> {
    frame_alloc_code(frame) + saves_code(callee, frame, callee.len()) + param_moves_code(colors, slots, params_count)
}

/// Whether a block makes a call.
fn block_makes_call(b: &BasicBlock) -> (r: bool)
    ensures
        r == ((exists|j: int| 0 <= j < b.body@.len() && emits_call(#[trigger] b.body@[j])) || (b.terminator matches Some(t) && emits_call(t))),
{
    let mut j: usize = 0;
    while j < b.body.len()
        invariant
            j <= b.body@.len(),
            forall|q: int| 0 <= q < j ==> !emits_call(#[trigger] b.body@[q]),
        decreases b.body@.len() - j,
    {
        match &b.body[j] {
            Instr::Call { .. } | Instr::TailCall { .. } | Instr::Alloc { .. } | Instr::AllocArray { .. } => return true,
            _ => {},
        }
        j = j + 1;
    }
    match &b.terminator {
        Some(Instr::Call { .. }) | Some(Instr::TailCall { .. }) | Some(Instr::Alloc { .. }) | Some(Instr::AllocArray { .. }) => true,
        _ => false,
    }
}

impl X86Context {
    /// Create the code generation context of a function whose temporaries have the given
    /// colors: reserve the frame (callee-saved registers used, spill slots, alignment),
    /// save the callee-saved registers, find the stack slots of the arguments beyond the
    /// sixth, and move every parameter to its location. Fails when a color is not one of
    /// a register or of a spill, a parameter is uncolored or lacks a slot, or the frame
    /// is too large.
    pub fn new(
        regalloc: Vec<Color>,
        params_count: usize,
        label_prefix: String,
        ir_context: &IRContext,
        spill_allocation: &Vec<(usize, StackVar)>,
        spill_slot_count: usize,
    ) -> (r: Result<X86Context, String>)
        ensures
            r is Ok <==> context_ok(regalloc@, params_count as int, spill_allocation@, spill_slot_count as int),
            r matches Ok(ctx) ==> {
                &&& ctx.wf()
                &&& ctx.colors() == regalloc@
                &&& ctx.prefix() == label_prefix@
                &&& ctx.caller().len() == 0
                &&& forall|x: X86Reg| #[trigger] ctx.callee().contains(x) <==> callee_saved_spec().contains(x)
                    && exists|i: int| 0 <= i < regalloc@.len() && 1 <= #[trigger] regalloc@[i] <= 14 && allocatable_spec()[regalloc@[i] - 1] == x
                &&& ctx.frame() == frame_spec(ctx.callee().len(), spill_slot_count as nat, makes_call(*ir_context))
                &&& ctx.frame() == context_frame(regalloc@, spill_slot_count as nat, *ir_context)
                &&& ctx.slots() == context_slots(regalloc@.len() as int, params_count as int, spill_allocation@, ctx.frame())
                &&& ctx.code() == prologue_code(regalloc@, params_count as nat, ctx.slots(), ctx.frame(), ctx.callee())
                &&& sorted_regs(ctx.callee())
            },
    {
        let n = regalloc.len();
        let mut stack_allocation: Vec<Option<StackVar>> = Vec::new();
        while stack_allocation.len() < n
            invariant
                stack_allocation@.len() <= n,
                forall|t: int| 0 <= t < stack_allocation@.len() ==> #[trigger] stack_allocation@[t] is None,
            decreases n - stack_allocation@.len(),
        {
            stack_allocation.push(None);
        }
        let mut k: usize = 0;
        while k < spill_allocation.len()
            invariant
                stack_allocation@.len() == n,
                k <= spill_allocation@.len(),
                forall|t: int| 0 <= t < n ==> #[trigger] stack_allocation@[t] == spill_slot(spill_allocation@.take(k as int), t),
            decreases spill_allocation@.len() - k,
        {
            let (temp_id, slot) = spill_allocation[k];
            if temp_id < n {
                stack_allocation.set(temp_id, Some(slot));
            }
            proof {
                let s1 = spill_allocation@.take(k + 1);
                assert(s1.drop_last() =~= spill_allocation@.take(k as int));
                assert(s1.last() == spill_allocation@[k as int]);
            }
            k = k + 1;
        }
        proof { assert(spill_allocation@.take(spill_allocation@.len() as int) =~= spill_allocation@); }
        let mut needs_stack_alignment = false;
        let blocks = ir_context.get_blocks();
        let mut b: usize = 0;
        while b < blocks.len()
            invariant
                blocks@ == ir_context.slots(),
                b <= blocks@.len(),
                stack_allocation@.len() == n,
                forall|t: int| 0 <= t < n ==> #[trigger] stack_allocation@[t] == spill_slot(spill_allocation@, t),
                needs_stack_alignment == exists|l: Label| l.0 < b && #[trigger] ir_context.has_block(l) && ({
                    let bl = ir_context.block(l);
                    (exists|j: int| 0 <= j < bl.body@.len() && emits_call(#[trigger] bl.body@[j])) || (bl.terminator matches Some(t) && emits_call(t))
                }),
            decreases blocks@.len() - b,
        {
            match &blocks[b] {
                Some(block) => {
                    if block_makes_call(block) {
                        needs_stack_alignment = true;
                        proof { assert(ir_context.has_block(Label(b))); }
                    }
                },
                None => {},
            }
            proof {
                assert forall|l: Label| l.0 == b && #[trigger] ir_context.has_block(l) implies blocks@[b as int] is Some && ir_context.block(l) == blocks@[b as int]->0 by {}
            }
            b = b + 1;
        }
        proof {
            assert(needs_stack_alignment == makes_call(*ir_context)) by {
                if makes_call(*ir_context) {
                    let l = choose|l: Label| #[trigger] ir_context.has_block(l) && ({
                        let bl = ir_context.block(l);
                        (exists|j: int| 0 <= j < bl.body@.len() && emits_call(#[trigger] bl.body@[j])) || (bl.terminator matches Some(t) && emits_call(t))
                    });
                    assert(l.0 < blocks@.len());
                }
            }
        }
        let callee = X86Reg::callee_saved();
        let mut used_callee_saved: Vec<X86Reg> = Vec::new();
        let mut c: usize = 0;
        while c < n
            invariant
                regalloc@.len() == n,
                callee@ == callee_saved_spec(),
                c <= n,
                stack_allocation@.len() == n,
                forall|t: int| 0 <= t < n ==> #[trigger] stack_allocation@[t] == spill_slot(spill_allocation@, t),
                forall|i: int| 0 <= i < c ==> color_known(#[trigger] regalloc@[i]),
                sorted_regs(used_callee_saved@),
                forall|x: X86Reg| #[trigger] used_callee_saved@.contains(x) <==> callee_saved_spec().contains(x)
                    && exists|i: int| 0 <= i < c && 1 <= #[trigger] regalloc@[i] <= 14 && allocatable_spec()[regalloc@[i] - 1] == x,
            decreases n - c,
        {
            let color = regalloc[c];
            if color != UNCOLORED && color != SPILL {
                if color > 14 {
                    return Err(String::from_str("color of no register"));
                }
                let register = color_to_register(color);
                if contains_reg(&callee, register) {
                    insert_reg(&mut used_callee_saved, register);
                }
            }
            proof {
                assert forall|x: X86Reg| #[trigger] used_callee_saved@.contains(x) <==> callee_saved_spec().contains(x)
                    && exists|i: int| 0 <= i < c + 1 && 1 <= #[trigger] regalloc@[i] <= 14 && allocatable_spec()[regalloc@[i] - 1] == x by {
                    if callee_saved_spec().contains(x) && exists|i: int| 0 <= i < c + 1 && 1 <= #[trigger] regalloc@[i] <= 14 && allocatable_spec()[regalloc@[i] - 1] == x {
                        let i = choose|i: int| 0 <= i < c + 1 && 1 <= #[trigger] regalloc@[i] <= 14 && allocatable_spec()[regalloc@[i] - 1] == x;
                        if i < c {
                            assert(exists|i2: int| 0 <= i2 < c && 1 <= #[trigger] regalloc@[i2] <= 14 && allocatable_spec()[regalloc@[i2] - 1] == x);
                        }
                    }
                    if exists|i: int| 0 <= i < c && 1 <= #[trigger] regalloc@[i] <= 14 && allocatable_spec()[regalloc@[i] - 1] == x {
                        let i = choose|i: int| 0 <= i < c && 1 <= #[trigger] regalloc@[i] <= 14 && allocatable_spec()[regalloc@[i] - 1] == x;
                        assert(exists|i2: int| 0 <= i2 < c + 1 && 1 <= #[trigger] regalloc@[i2] <= 14 && allocatable_spec()[regalloc@[i2] - 1] == x);
                    }
                }
            }
            c = c + 1;
        }
        proof {
            lemma_sorted_regs_len(used_callee_saved@);
            lemma_sorted_regs_no_dup(used_callee_saved@);
            assert(used_callee_saved@.to_set() =~= used_callee_set(regalloc@));
            used_callee_saved@.unique_seq_to_set();
        }
        if spill_slot_count > 16777216 {
            return Err(String::from_str("stack frame too large"));
        }
        let stack_depth = spill_slot_count * STACK_SLOT_WIDTH;
        let mut frame_size = used_callee_saved.len() * STACK_SLOT_WIDTH + stack_depth;
        if frame_size % STACK_ALIGNMENT == 0 && needs_stack_alignment {
            frame_size = frame_size + STACK_SLOT_WIDTH;
        }
        let ghost colors0 = regalloc@;
        let mut ctx = X86Context {
            instructions: Vec::new(),
            used_callee_saved,
            used_caller_saved: Vec::new(),
            regalloc,
            stack_allocation,
            frame_size,
            label_prefix,
        };
        let ghost c0 = ctx;
        if ctx.frame_size > 0 {
            ctx.push(X86Instr::Sub(
                X86Operand::Immediate(Immediate { value: ctx.frame_size as i64, width: Width::W64 }),
                X86Operand::Register(X86WReg::stack_pointer()),
            ));
        }
        proof {
            assert(ctx.code() =~= frame_alloc_code(c0.frame()) + saves_code(c0.callee(), c0.frame(), 0));
        }
        let mut index: usize = 0;
        while index < ctx.used_callee_saved.len()
            invariant
                ctx.wf(),
                ctx.colors() == c0.colors(),
                ctx.prefix() == c0.prefix(),
                ctx.callee() == c0.callee(),
                ctx.caller().len() == 0,
                ctx.frame() == c0.frame(),
                ctx.slots() == c0.slots(),
                ctx.slots().len() == n,
                forall|t: int| 0 <= t < n ==> #[trigger] ctx.slots()[t] == spill_slot(spill_allocation@, t),
                forall|i: int| 0 <= i < n ==> color_known(#[trigger] ctx.colors()[i]),
                spill_slot_count <= 16777216,
                ctx.used_callee_saved@.len() <= 16,
                ctx.frame_size <= 16777216 * 8 + 16 * 8 + 8,
                ctx.frame_size >= ctx.used_callee_saved@.len() * 8,
                index <= ctx.used_callee_saved@.len(),
                ctx.code() == frame_alloc_code(c0.frame()) + saves_code(c0.callee(), c0.frame(), index as nat),
            decreases ctx.used_callee_saved@.len() - index,
        {
            let register = ctx.used_callee_saved[index];
            let off = ctx.frame_size as i64 - ((index + 1) * STACK_SLOT_WIDTH) as i64;
            let ghost before = ctx.code();
            ctx.emit_move(
                X86Operand::Register(X86WReg { register, width: Width::W64 }),
                X86Operand::Stack(StackVar { offset: off, width: Width::W64 }),
            );
            proof {
                assert(register == c0.callee()[index as int]);
                assert(ctx.code() =~= frame_alloc_code(c0.frame()) + saves_code(c0.callee(), c0.frame(), (index + 1) as nat));
            }
            index = index + 1;
        }
        let ghost head = ctx.code();
        let arg_regs = X86Reg::call_argument();
        if params_count > n {
            return Err(String::from_str("parameters without a color"));
        }
        let mut temp_id: usize = arg_regs.len();
        while temp_id < params_count
            invariant
                ctx.wf(),
                ctx.colors() == c0.colors(),
                ctx.prefix() == c0.prefix(),
                ctx.callee() == c0.callee(),
                ctx.caller().len() == 0,
                ctx.frame() == c0.frame(),
                ctx.slots().len() == n,
                params_count <= n,
                arg_regs@ == call_argument_spec(),
                ctx.frame_size <= 16777216 * 8 + 16 * 8 + 8,
                temp_id >= 6,
                temp_id <= 6 + 16777216,
                temp_id <= params_count || temp_id == 6,
                ctx.code() == head,
                forall|t: int| 6 <= t < temp_id && t < n ==> (#[trigger] ctx.slots()[t]) == Some(StackVar { offset: (ctx.frame() + (t - 5) * 8) as i64, width: Width::W64 }),
                forall|t: int| 0 <= t < n && !(6 <= t < temp_id) ==> #[trigger] ctx.slots()[t] == spill_slot(spill_allocation@, t),
                forall|i: int| 0 <= i < n ==> color_known(#[trigger] ctx.colors()[i]),
                spill_slot_count <= 16777216,
            decreases params_count - temp_id,
        {
            if temp_id - 6 >= 16777216 {
                return Err(String::from_str("too many parameters"));
            }
            let off = (ctx.frame_size + (temp_id - 6 + 1) * STACK_SLOT_WIDTH) as i64;
            ctx.stack_allocation.set(temp_id, Some(StackVar { offset: off, width: Width::W64 }));
            temp_id = temp_id + 1;
        }
        let ghost slots6 = ctx.slots();
        proof {
            assert(slots6 =~= context_slots(n as int, params_count as int, spill_allocation@, ctx.frame()));
        }
        let mut temp_id: usize = 0;
        while temp_id < params_count
            invariant
                ctx.slots() == slots6,
                head == frame_alloc_code(c0.frame()) + saves_code(c0.callee(), c0.frame(), c0.callee().len()),
                ctx.code() == head + param_moves_code(colors0, slots6, temp_id as nat),
                ctx.wf(),
                ctx.colors() == c0.colors(),
                ctx.prefix() == c0.prefix(),
                ctx.callee() == c0.callee(),
                ctx.caller().len() == 0,
                ctx.frame() == c0.frame(),
                ctx.slots().len() == n,
                params_count <= n,
                params_count <= 6 + 16777216,
                arg_regs@ == call_argument_spec(),
                temp_id <= params_count,
                forall|t: int| 6 <= t < params_count ==> (#[trigger] ctx.slots()[t]) is Some,
                forall|t: int| 0 <= t < 6 && t < n ==> #[trigger] ctx.slots()[t] == spill_slot(spill_allocation@, t),
                forall|i: int| 0 <= i < n ==> color_known(#[trigger] ctx.colors()[i]),
                spill_slot_count <= 16777216,
                ctx.colors() == colors0,
                colors0 == regalloc@,
                forall|t: int| 0 <= t < temp_id ==> #[trigger] ctx.colors()[t] != UNCOLORED,
                forall|t: int| 0 <= t < temp_id && t < 6 && #[trigger] ctx.colors()[t] == SPILL
                    ==> spill_slot(spill_allocation@, t) is Some,
            decreases params_count - temp_id,
        {
            let arg_src = if temp_id < arg_regs.len() {
                X86Operand::Register(X86WReg { register: arg_regs[temp_id], width: Width::W64 })
            } else {
                match ctx.stack_allocation[temp_id] {
                    Some(sv) => X86Operand::Stack(sv),
                    None => return Err(String::from_str("parameter without a stack slot")),
                }
            };
            proof {
                assert(arg_src == param_source(temp_id as int, slots6));
            }
            let ghost before = ctx.code();
            let color = ctx.regalloc[temp_id];
            if color == UNCOLORED {
                proof { assert(colors0[temp_id as int] == UNCOLORED); }
                return Err(String::from_str("uncolored parameter"));
            } else if color == SPILL {
                match ctx.stack_allocation[temp_id] {
                    Some(sv) => ctx.emit_move(arg_src, X86Operand::Stack(sv)),
                    None => {
                        proof {
                            assert(colors0[temp_id as int] == SPILL);
                            assert(ctx.slots()[temp_id as int] is None);
                        }
                        return Err(String::from_str("parameter without a stack slot"));
                    },
                }
            } else {
                if color > 14 {
                    return Err(String::from_str("color of no register"));
                }
                ctx.emit_move(arg_src, X86Operand::Register(X86WReg { register: color_to_register(color), width: Width::W64 }));
            }
            proof {
                assert(ctx.code() == before + move_code(param_source(temp_id as int, slots6), param_dest(temp_id as int, colors0, slots6)));
                assert(ctx.code() =~= head + param_moves_code(colors0, slots6, (temp_id + 1) as nat));
            }
            temp_id = temp_id + 1;
        }
        Ok(ctx)
    }
}


impl X86Context {
    /// Number of temporaries that have a color.
    pub fn color_count(&self) -> (r: usize)
        ensures
            r == self.colors().len(),
    {
        self.regalloc.len()
    }

    /// Location of a temporary, checking first that it has one: a color, a stack slot
    /// when spilled, and a type with a width.
    pub fn locate(&mut self, temp: &Temp) -> (r: Result<X86Operand, String>)
        requires
            old(self).wf(),
        ensures
            final(self).wf(),
            r is Ok <==> temp_located(old(self).colors(), old(self).slots(), *temp),
            r matches Ok(op) ==> op == temp_location(old(self).colors(), old(self).slots(), *temp),
            r matches Ok(op) ==> op is Register || op is Stack,
            final(self).code() == old(self).code(),
            final(self).callee() == old(self).callee(),
            final(self).colors() == old(self).colors(),
            final(self).slots() == old(self).slots(),
            final(self).frame() == old(self).frame(),
            final(self).prefix() == old(self).prefix(),
    {
        if temp.0 >= self.regalloc.len() {
            return Err(String::from_str("temporary without a color"));
        }
        let ok_width = match temp.1 {
            Typ::Bool | Typ::Int | Typ::Null | Typ::Pointer(..) | Typ::Array(..) => true,
            _ => false,
        };
        if !ok_width {
            return Err(String::from_str("temporary of a type without a width"));
        }
        let color = self.regalloc[temp.0];
        if color == UNCOLORED {
            return Err(String::from_str("uncolored temporary"));
        }
        if color == SPILL {
            if self.stack_allocation[temp.0].is_none() {
                return Err(String::from_str("spilled temporary without a stack slot"));
            }
        } else if color > 14 {
            return Err(String::from_str("color of no register"));
        }
        Ok(self.get_temp_location((temp.0, temp.1.duplicate())))
    }

    /// Location of an operand, checking first that it has one.
    pub fn locate_operand(&mut self, operand: &Operand) -> (r: Result<X86Operand, String>)
        requires
            old(self).wf(),
        ensures
            final(self).wf(),
            r matches Ok(op) ==> !(operand is Temp) || !(op is Immediate),
            r is Ok <==> operand_located(old(self).colors(), old(self).slots(), *operand),
            r matches Ok(op) ==> op == operand_location(old(self).colors(), old(self).slots(), *operand),
            final(self).code() == old(self).code(),
            final(self).callee() == old(self).callee(),
            final(self).colors() == old(self).colors(),
            final(self).slots() == old(self).slots(),
            final(self).frame() == old(self).frame(),
            final(self).prefix() == old(self).prefix(),
    {
        match operand {
            Operand::Const(c) => {
                let ok_width = match c.1 {
                    Typ::Bool | Typ::Int | Typ::Null | Typ::Pointer(..) | Typ::Array(..) => true,
                    _ => false,
                };
                if !ok_width {
                    return Err(String::from_str("constant of a type without a width"));
                }
                Ok(X86Operand::Immediate(Immediate { value: c.0, width: width_for_type(&c.1) }))
            },
            Operand::Temp(t) => self.locate(t),
        }
    }
}


/// A string made of some characters followed by those of `name`.
pub fn prefixed(chars: &[char], name: &String) -> (r: String)
    ensures
        r@ == chars@ + name@,
{
    let mut s = string_of(chars);
    push_str(&mut s, name.as_str());
    s
}


/// Append an underscore.
pub fn push_underscore(s: &mut String)
    ensures
        final(s)@ == old(s)@.push('_'),
{
    push_char(s, '_');
}

} // verus!
