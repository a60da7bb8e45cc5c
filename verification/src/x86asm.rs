//! x86-64 registers, operands and instructions.
use vstd::prelude::*;

verus! {

/// x86-64 general-purpose registers.
#[derive(Copy, Clone, PartialEq, Eq, Structural, Debug, Hash)]
pub enum X86Reg {
    Rax,
    Rbx,
    Rcx,
    Rdx,
    Rdi,
    Rsi,
    R8,
    R9,
    R10,
    R11,
    R12,
    R13,
    R14,
    R15,
    Rbp,
    Rsp,
}

/// Registers that can be allocated to temporaries; the position of a register is its
/// color minus one.
pub open spec fn allocatable_spec() -> Seq<X86Reg> {
    seq![
        X86Reg::Rax, X86Reg::Rbx, X86Reg::Rcx, X86Reg::Rdx, X86Reg::Rdi, X86Reg::Rsi, X86Reg::R8,
        X86Reg::R9, X86Reg::R11, X86Reg::R12, X86Reg::R13, X86Reg::R14, X86Reg::R15, X86Reg::Rbp,
    ]
}

/// Non-volatile registers.
pub open spec fn callee_saved_spec() -> Seq<X86Reg> {
    seq![X86Reg::Rbx, X86Reg::R12, X86Reg::R13, X86Reg::R14, X86Reg::R15, X86Reg::Rbp]
}

/// Volatile (call-clobbered) registers.
pub open spec fn caller_saved_spec() -> Seq<X86Reg> {
    seq![X86Reg::Rax, X86Reg::Rcx, X86Reg::Rdx, X86Reg::Rdi, X86Reg::Rsi, X86Reg::R8, X86Reg::R9, X86Reg::R10, X86Reg::R11]
}

/// Function argument registers, in order.
pub open spec fn call_argument_spec() -> Seq<X86Reg> {
    seq![X86Reg::Rdi, X86Reg::Rsi, X86Reg::Rdx, X86Reg::Rcx, X86Reg::R8, X86Reg::R9]
}

impl X86Reg {
    /// Registers that can be allocated to temporaries, in color order.
    pub fn allocatable() -> (r: Vec<X86Reg>)
        ensures
            r@ == allocatable_spec(),
    {
        let r = vec![
            X86Reg::Rax, X86Reg::Rbx, X86Reg::Rcx, X86Reg::Rdx, X86Reg::Rdi, X86Reg::Rsi, X86Reg::R8,
            X86Reg::R9, X86Reg::R11, X86Reg::R12, X86Reg::R13, X86Reg::R14, X86Reg::R15, X86Reg::Rbp,
        ];
        assert(r@ =~= allocatable_spec());
        r
    }

    /// Non-volatile registers.
    pub fn callee_saved() -> (r: Vec<X86Reg>)
        ensures
            r@ == callee_saved_spec(),
    {
        let r = vec![X86Reg::Rbx, X86Reg::R12, X86Reg::R13, X86Reg::R14, X86Reg::R15, X86Reg::Rbp];
        assert(r@ =~= callee_saved_spec());
        r
    }

    /// Volatile (call-clobbered) registers.
    pub fn caller_saved() -> (r: Vec<X86Reg>)
        ensures
            r@ == caller_saved_spec(),
    {
        let r = vec![
            X86Reg::Rax, X86Reg::Rcx, X86Reg::Rdx, X86Reg::Rdi, X86Reg::Rsi, X86Reg::R8, X86Reg::R9,
            X86Reg::R10, X86Reg::R11,
        ];
        assert(r@ =~= caller_saved_spec());
        r
    }

    /// Function argument registers, in order.
    pub fn call_argument() -> (r: Vec<X86Reg>)
        ensures
            r@ == call_argument_spec(),
    {
        let r = vec![X86Reg::Rdi, X86Reg::Rsi, X86Reg::Rdx, X86Reg::Rcx, X86Reg::R8, X86Reg::R9];
        assert(r@ =~= call_argument_spec());
        r
    }
}

/// Bit-widths of x86-64 operands.
#[derive(Copy, Clone, PartialEq, Eq, Structural, Debug)]
pub enum Width {
    /// 8-bit operand
    W8,
    /// 16-bit operand
    W16,
    /// 32-bit operand
    W32,
    /// 64-bit operand
    W64,
}

/// General-purpose register taken at a width.
#[derive(Copy, Clone, PartialEq, Eq, Structural, Debug)]
pub struct X86WReg {
    /// The register.
    pub register: X86Reg,
    /// Width at which the register is used.
    pub width: Width,
}

impl X86WReg {
    /// Register that receives the quotient of `idiv`.
    pub fn quotient(width: Width) -> (r: X86WReg)
        ensures
            r == (X86WReg { register: X86Reg::Rax, width }),
    {
        X86WReg { register: X86Reg::Rax, width }
    }

    /// Register that receives the remainder of `idiv`.
    pub fn modulo(width: Width) -> (r: X86WReg)
        ensures
            r == (X86WReg { register: X86Reg::Rdx, width }),
    {
        X86WReg { register: X86Reg::Rdx, width }
    }

    /// Register that holds a shift amount.
    pub fn shift() -> (r: X86WReg)
        ensures
            r == (X86WReg { register: X86Reg::Rcx, width: Width::W8 }),
    {
        X86WReg { register: X86Reg::Rcx, width: Width::W8 }
    }

    /// Register that holds the return value of a function.
    pub fn ret(width: Width) -> (r: X86WReg)
        ensures
            r == (X86WReg { register: X86Reg::Rax, width }),
    {
        X86WReg { register: X86Reg::Rax, width }
    }

    /// The stack pointer.
    pub fn stack_pointer() -> (r: X86WReg)
        ensures
            r == (X86WReg { register: X86Reg::Rsp, width: Width::W64 }),
    {
        X86WReg { register: X86Reg::Rsp, width: Width::W64 }
    }

    /// Register reserved for scratch values.
    pub fn scratch(width: Width) -> (r: X86WReg)
        ensures
            r == (X86WReg { register: X86Reg::R10, width }),
    {
        X86WReg { register: X86Reg::R10, width }
    }

    /// Second register reserved for scratch values (not allocatable in spill code).
    pub fn scratch2(width: Width) -> (r: X86WReg)
        ensures
            r == (X86WReg { register: X86Reg::R11, width }),
    {
        X86WReg { register: X86Reg::R11, width }
    }
}

/// Immediate (literal) operand.
#[derive(Copy, Clone, PartialEq, Eq, Structural, Debug)]
pub struct Immediate {
    /// Value of the operand.
    pub value: i64,
    /// Width at which the operand is used.
    pub width: Width,
}

/// Temporary stored on the stack.
#[derive(Copy, Clone, PartialEq, Eq, Structural, Debug)]
pub struct StackVar {
    /// Offset from the stack pointer.
    pub offset: i64,
    /// Width of the temporary.
    pub width: Width,
}

impl StackVar {
    /// The same stack slot taken at another width.
    pub fn as_width(&self, width: Width) -> (r: StackVar)
        ensures
            r == (StackVar { offset: self.offset, width }),
    {
        StackVar { offset: self.offset, width }
    }
}

/// Memory cell addressed from a base register.
#[derive(Copy, Clone, PartialEq, Eq, Structural, Debug)]
pub struct MemVar {
    /// Base register of the address.
    pub base: X86Reg,
    /// Offset from the base register.
    pub offset: i64,
    /// Width of the cell.
    pub width: Width,
}

/// Address computed by `lea`: `base + index * scale + disp`.
#[derive(Copy, Clone, PartialEq, Eq, Structural, Debug)]
pub struct LeaAddr {
    /// Base register, if any.
    pub base: Option<X86Reg>,
    /// Index register, if any.
    pub index: Option<X86Reg>,
    /// Scale of the index.
    pub scale: u8,
    /// Displacement.
    pub disp: i32,
}

/// Operand of x86-64 instructions.
#[derive(Copy, Clone, PartialEq, Eq, Structural, Debug)]
pub enum X86Operand {
    /// Operand held in a register.
    Register(X86WReg),
    /// Operand held on the stack.
    Stack(StackVar),
    /// Operand held in memory at an address in a register.
    Memory(MemVar),
    /// Compile-time constant.
    Immediate(Immediate),
}

/// Width of an operand.
pub open spec fn width_of(op: X86Operand) -> Width {
    match op {
        X86Operand::Register(r) => r.width,
        X86Operand::Stack(s) => s.width,
        X86Operand::Memory(m) => m.width,
        X86Operand::Immediate(i) => i.width,
    }
}

impl X86Operand {
    /// Get the width of an operand.
    pub fn width(&self) -> (r: Width)
        ensures
            r == width_of(*self),
    {
        match self {
            X86Operand::Register(register) => register.width,
            X86Operand::Stack(stack_var) => stack_var.width,
            X86Operand::Memory(mem_var) => mem_var.width,
            X86Operand::Immediate(immediate) => immediate.width,
        }
    }
}

/// x86-64 assembly instructions (AT&T operand order: source, then destination).
#[derive(PartialEq, Eq, Debug)]
pub enum X86Instr {
    /// label
    Label(String),
    /// mov src, dest
    Mov(X86Operand, X86Operand),
    /// lea addr, dest
    Lea(LeaAddr, X86WReg),
    /// add src, dest
    Add(X86Operand, X86Operand),
    /// sub src, dest
    Sub(X86Operand, X86Operand),
    /// imul (imm,)? src, dest
    IMul(Option<X86Operand>, X86Operand, X86Operand),
    /// idiv src
    IDiv(X86Operand),
    /// and src, dest
    And(X86Operand, X86Operand),
    /// xor src, dest
    Xor(X86Operand, X86Operand),
    /// or src, dest
    Or(X86Operand, X86Operand),
    /// sal (imm,)? dest
    Sal(Option<X86Operand>, X86Operand),
    /// sar (imm,)? dest
    Sar(Option<X86Operand>, X86Operand),
    /// not dest
    Not(X86Operand),
    /// neg dest
    Neg(X86Operand),
    /// sign extension before division
    Cqo(Width),
    /// cmp src, dest
    Cmp(X86Operand, X86Operand),
    /// test src, dest
    Test(X86Operand, X86Operand),
    /// sete dest
    Sete(X86Operand),
    /// setne dest
    Setne(X86Operand),
    /// setl dest
    Setl(X86Operand),
    /// setg dest
    Setg(X86Operand),
    /// setle dest
    Setle(X86Operand),
    /// setge dest
    Setge(X86Operand),
    /// push src
    Push(X86Operand),
    /// pop dest
    Pop(X86Operand),
    /// jmp label
    Jmp(String),
    /// jne label
    Jne(String),
    /// je label
    Je(String),
    /// jl label
    Jl(String),
    /// jg label
    Jg(String),
    /// jle label
    Jle(String),
    /// call function
    Call(String),
    /// ret
    Ret,
}

impl Clone for X86Instr {
    fn clone(&self) -> (r: X86Instr)
        ensures
            r == *self,
    {
        match self {
            X86Instr::Label(s) => X86Instr::Label(s.clone()),
            X86Instr::Mov(a, b) => X86Instr::Mov(*a, *b),
            X86Instr::Lea(a, b) => X86Instr::Lea(*a, *b),
            X86Instr::Add(a, b) => X86Instr::Add(*a, *b),
            X86Instr::Sub(a, b) => X86Instr::Sub(*a, *b),
            X86Instr::IMul(a, b, c) => X86Instr::IMul(*a, *b, *c),
            X86Instr::IDiv(a) => X86Instr::IDiv(*a),
            X86Instr::And(a, b) => X86Instr::And(*a, *b),
            X86Instr::Xor(a, b) => X86Instr::Xor(*a, *b),
            X86Instr::Or(a, b) => X86Instr::Or(*a, *b),
            X86Instr::Sal(a, b) => X86Instr::Sal(*a, *b),
            X86Instr::Sar(a, b) => X86Instr::Sar(*a, *b),
            X86Instr::Not(a) => X86Instr::Not(*a),
            X86Instr::Neg(a) => X86Instr::Neg(*a),
            X86Instr::Cqo(w) => X86Instr::Cqo(*w),
            X86Instr::Cmp(a, b) => X86Instr::Cmp(*a, *b),
            X86Instr::Test(a, b) => X86Instr::Test(*a, *b),
            X86Instr::Sete(a) => X86Instr::Sete(*a),
            X86Instr::Setne(a) => X86Instr::Setne(*a),
            X86Instr::Setl(a) => X86Instr::Setl(*a),
            X86Instr::Setg(a) => X86Instr::Setg(*a),
            X86Instr::Setle(a) => X86Instr::Setle(*a),
            X86Instr::Setge(a) => X86Instr::Setge(*a),
            X86Instr::Push(a) => X86Instr::Push(*a),
            X86Instr::Pop(a) => X86Instr::Pop(*a),
            X86Instr::Jmp(s) => X86Instr::Jmp(s.clone()),
            X86Instr::Jne(s) => X86Instr::Jne(s.clone()),
            X86Instr::Je(s) => X86Instr::Je(s.clone()),
            X86Instr::Jl(s) => X86Instr::Jl(s.clone()),
            X86Instr::Jg(s) => X86Instr::Jg(s.clone()),
            X86Instr::Jle(s) => X86Instr::Jle(s.clone()),
            X86Instr::Call(s) => X86Instr::Call(s.clone()),
            X86Instr::Ret => X86Instr::Ret,
        }
    }
}


/// Model of an instruction, its labels taken by their characters.
pub enum X86InstrV {
    Label(Seq<char>),
    Mov(X86Operand, X86Operand),
    Lea(LeaAddr, X86WReg),
    Add(X86Operand, X86Operand),
    Sub(X86Operand, X86Operand),
    IMul(Option<X86Operand>, X86Operand, X86Operand),
    IDiv(X86Operand),
    And(X86Operand, X86Operand),
    Xor(X86Operand, X86Operand),
    Or(X86Operand, X86Operand),
    Sal(Option<X86Operand>, X86Operand),
    Sar(Option<X86Operand>, X86Operand),
    Not(X86Operand),
    Neg(X86Operand),
    Cqo(Width),
    Cmp(X86Operand, X86Operand),
    Test(X86Operand, X86Operand),
    Sete(X86Operand),
    Setne(X86Operand),
    Setl(X86Operand),
    Setg(X86Operand),
    Setle(X86Operand),
    Setge(X86Operand),
    Push(X86Operand),
    Pop(X86Operand),
    Jmp(Seq<char>),
    Jne(Seq<char>),
    Je(Seq<char>),
    Jl(Seq<char>),
    Jg(Seq<char>),
    Jle(Seq<char>),
    Call(Seq<char>),
    Ret,
}

impl View for X86Instr {
    type V = X86InstrV;

    open spec fn view(&self) -> X86InstrV {
        match self {
            X86Instr::Label(s) => X86InstrV::Label(s@),
            X86Instr::Mov(a, b) => X86InstrV::Mov(*a, *b),
            X86Instr::Lea(a, b) => X86InstrV::Lea(*a, *b),
            X86Instr::Add(a, b) => X86InstrV::Add(*a, *b),
            X86Instr::Sub(a, b) => X86InstrV::Sub(*a, *b),
            X86Instr::IMul(a, b, c) => X86InstrV::IMul(*a, *b, *c),
            X86Instr::IDiv(a) => X86InstrV::IDiv(*a),
            X86Instr::And(a, b) => X86InstrV::And(*a, *b),
            X86Instr::Xor(a, b) => X86InstrV::Xor(*a, *b),
            X86Instr::Or(a, b) => X86InstrV::Or(*a, *b),
            X86Instr::Sal(a, b) => X86InstrV::Sal(*a, *b),
            X86Instr::Sar(a, b) => X86InstrV::Sar(*a, *b),
            X86Instr::Not(a) => X86InstrV::Not(*a),
            X86Instr::Neg(a) => X86InstrV::Neg(*a),
            X86Instr::Cqo(w) => X86InstrV::Cqo(*w),
            X86Instr::Cmp(a, b) => X86InstrV::Cmp(*a, *b),
            X86Instr::Test(a, b) => X86InstrV::Test(*a, *b),
            X86Instr::Sete(a) => X86InstrV::Sete(*a),
            X86Instr::Setne(a) => X86InstrV::Setne(*a),
            X86Instr::Setl(a) => X86InstrV::Setl(*a),
            X86Instr::Setg(a) => X86InstrV::Setg(*a),
            X86Instr::Setle(a) => X86InstrV::Setle(*a),
            X86Instr::Setge(a) => X86InstrV::Setge(*a),
            X86Instr::Push(a) => X86InstrV::Push(*a),
            X86Instr::Pop(a) => X86InstrV::Pop(*a),
            X86Instr::Jmp(s) => X86InstrV::Jmp(s@),
            X86Instr::Jne(s) => X86InstrV::Jne(s@),
            X86Instr::Je(s) => X86InstrV::Je(s@),
            X86Instr::Jl(s) => X86InstrV::Jl(s@),
            X86Instr::Jg(s) => X86InstrV::Jg(s@),
            X86Instr::Jle(s) => X86InstrV::Jle(s@),
            X86Instr::Call(s) => X86InstrV::Call(s@),
            X86Instr::Ret => X86InstrV::Ret,
        }
    }
}

/// Models of a sequence of instructions.
pub open spec fn code_of(s: Seq<X86Instr>) -> Seq<X86InstrV> {
    s.map_values(|i: X86Instr| i@)
}

} // verus!
