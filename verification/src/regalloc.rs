//! Register colors: the mapping between colors and allocatable registers, and the
//! allocation that spills every temporary.
use vstd::prelude::*;

use crate::ast::Ident;
use crate::ir::IRContext;
use crate::symbol_table::SymbolTable;
use crate::x86asm::{allocatable_spec, call_argument_spec, X86Reg};

verus! {

/// Colors correspond to registers: colors 1 to 14 are the allocatable registers in
/// order; 0 marks a temporary not yet colored and 15 a spilled one.
pub type Color = usize;

/// Color of a temporary not yet colored.
pub const UNCOLORED: Color = 0;

/// Color of a temporary kept on the stack.
pub const SPILL: Color = 15;

/// Get the color corresponding to an allocatable register.
pub fn register_to_color(register: X86Reg) -> (r: Color)
    requires
        allocatable_spec().contains(register),
    ensures
        1 <= r <= 14,
        r == color_of(register),
        allocatable_spec()[r - 1] == register,
{
    let regs = X86Reg::allocatable();
    let mut i: usize = 0;
    while i < regs.len()
        invariant
            regs@ == allocatable_spec(),
            i <= regs@.len(),
            forall|j: int| 0 <= j < i ==> regs@[j] != register,
        decreases regs@.len() - i,
    {
        if regs[i] == register {
            return i + 1;
        }
        i = i + 1;
    }
    proof {
        let k = choose|k: int| 0 <= k < allocatable_spec().len() && allocatable_spec()[k] == register;
        assert(regs@[k] == register);
    }
    0
}

/// Get the register corresponding to a color of a register.
pub fn color_to_register(color: Color) -> (r: X86Reg)
    requires
        1 <= color <= 14,
    ensures
        r == allocatable_spec()[color - 1],
        color_of(r) == color,
{
    let regs = X86Reg::allocatable();
    regs[color - 1]
}

/// Color of a register: its position among the allocatable registers plus one, and 0
/// for a register that is not allocatable.
pub open spec fn color_of(register: X86Reg) -> int {
    match register {
        X86Reg::Rax => 1,
        X86Reg::Rbx => 2,
        X86Reg::Rcx => 3,
        X86Reg::Rdx => 4,
        X86Reg::Rdi => 5,
        X86Reg::Rsi => 6,
        X86Reg::R8 => 7,
        X86Reg::R9 => 8,
        X86Reg::R11 => 9,
        X86Reg::R12 => 10,
        X86Reg::R13 => 11,
        X86Reg::R14 => 12,
        X86Reg::R15 => 13,
        X86Reg::Rbp => 14,
        _ => 0,
    }
}

/// Taking an allocatable register to its color and back gives the register; taking a
/// register color to its register and back gives the color.
pub proof fn lemma_color_roundtrip(register: X86Reg, color: Color)
    ensures
        allocatable_spec().contains(register) ==> 1 <= color_of(register) <= 14
            && allocatable_spec()[color_of(register) - 1] == register,
        1 <= color <= 14 ==> color_of(allocatable_spec()[color - 1]) == color,
{
    if allocatable_spec().contains(register) {
        let k = choose|k: int| 0 <= k < allocatable_spec().len() && allocatable_spec()[k] == register;
    }
}

/// Every argument register is allocatable.
proof fn lemma_arguments_allocatable()
    ensures
        forall|i: int| 0 <= i < 6 ==> allocatable_spec().contains(#[trigger] call_argument_spec()[i]),
{
    assert(allocatable_spec()[4] == call_argument_spec()[0]);
    assert(allocatable_spec()[5] == call_argument_spec()[1]);
    assert(allocatable_spec()[3] == call_argument_spec()[2]);
    assert(allocatable_spec()[2] == call_argument_spec()[3]);
    assert(allocatable_spec()[6] == call_argument_spec()[4]);
    assert(allocatable_spec()[7] == call_argument_spec()[5]);
}

/// Colors of `n` temporaries of a function with `params_count` parameters at the lowest
/// optimization level: each of the first six parameters in its argument register, every
/// other temporary spilled.
pub open spec fn spill_all_colors(n: nat, params_count: int) -> Seq<Color> {
    Seq::new(n, |t: int| if t < params_count && t < 6 { color_of(call_argument_spec()[t]) as usize } else { SPILL })
}

/// Coloring that keeps the first parameters (up to six) in their argument registers and
/// spills every other temporary.
pub fn spill_all_temps(func_ir: &IRContext, params_count: usize) -> (r: Vec<Color>)
    ensures
        r@.len() == func_ir.temps(),
        forall|i: int| 0 <= i < r@.len() && i < params_count && i < 6
            ==> 1 <= #[trigger] r@[i] <= 14 && allocatable_spec()[r@[i] - 1] == call_argument_spec()[i],
        forall|i: int| 0 <= i < r@.len() && !(i < params_count && i < 6) ==> #[trigger] r@[i] == SPILL,
        r@ == spill_all_colors(func_ir.temps(), params_count as int),
{
    let n = func_ir.get_temps_count();
    let mut coloring: Vec<Color> = Vec::new();
    while coloring.len() < n
        invariant
            coloring@.len() <= n,
            forall|i: int| 0 <= i < coloring@.len() ==> coloring@[i] == SPILL,
        decreases n - coloring@.len(),
    {
        coloring.push(SPILL);
    }
    let arg_registers = X86Reg::call_argument();
    let limit = if params_count < arg_registers.len() { params_count } else { arg_registers.len() };
    proof { lemma_arguments_allocatable(); }
    let mut temp_id: usize = 0;
    while temp_id < limit
        invariant
            coloring@.len() == n,
            arg_registers@ == call_argument_spec(),
            limit <= params_count,
            limit <= 6,
            limit == params_count || limit == 6,
            temp_id <= limit,
            forall|i: int| 0 <= i < 6 ==> allocatable_spec().contains(#[trigger] call_argument_spec()[i]),
            forall|i: int| 0 <= i < coloring@.len() && i < temp_id
                ==> 1 <= #[trigger] coloring@[i] <= 14 && allocatable_spec()[coloring@[i] - 1] == call_argument_spec()[i]
                    && coloring@[i] == color_of(call_argument_spec()[i]),
            forall|i: int| 0 <= i < coloring@.len() && i >= temp_id ==> #[trigger] coloring@[i] == SPILL,
        decreases limit - temp_id,
    {
        if temp_id < coloring.len() {
            let c = register_to_color(arg_registers[temp_id]);
            coloring.set(temp_id, c);
        }
        temp_id = temp_id + 1;
    }
    proof {
        assert(coloring@ =~= spill_all_colors(func_ir.temps(), params_count as int));
    }
    coloring
}

/// Color the temporaries of every function at the lowest optimization level: the
/// parameters passed in registers stay there and every other temporary is spilled.
pub fn register_allocation(program_ir: &Vec<(Ident, IRContext)>, symbol_table: &SymbolTable, optimizer_level: u8)
    -> (r: Result<Vec<(Ident, Vec<Color>)>, String>)
    requires
        symbol_table.wf(),
        optimizer_level == 0,
    ensures
        r matches Ok(c) ==> c@.len() == program_ir@.len()
            && forall|i: int| 0 <= i < c@.len() ==> (#[trigger] c@[i]).0 == program_ir@[i].0
                && c@[i].1@ == spill_all_colors(program_ir@[i].1.temps(),
                    symbol_table@.functions[program_ir@[i].0@].params.len() as int),
        r is Err <==> exists|i: int| 0 <= i < program_ir@.len()
            && !symbol_table@.functions.contains_key(#[trigger] program_ir@[i].0@),
{
    let mut coloring: Vec<(Ident, Vec<Color>)> = Vec::new();
    let mut i: usize = 0;
    while i < program_ir.len()
        invariant
            symbol_table.wf(),
            i <= program_ir@.len(),
            coloring@.len() == i,
            forall|k: int| 0 <= k < i ==> (#[trigger] coloring@[k]).0 == program_ir@[k].0
                && coloring@[k].1@ == spill_all_colors(program_ir@[k].1.temps(),
                    symbol_table@.functions[program_ir@[k].0@].params.len() as int),
            forall|k: int| 0 <= k < i ==> symbol_table@.functions.contains_key(#[trigger] program_ir@[k].0@),
        decreases program_ir@.len() - i,
    {
        let params_count = match symbol_table.get_function_signature(&program_ir[i].0) {
            Some(sig) => sig.1.len(),
            None => return Err(String::from_str("unknown function in register allocation")),
        };
        proof {
            assert(params_count == symbol_table@.functions[program_ir@[i as int].0@].params.len());
        }
        let c = spill_all_temps(&program_ir[i].1, params_count);
        coloring.push((program_ir[i].0.clone(), c));
        i = i + 1;
    }
    Ok(coloring)
}

} // verus!
