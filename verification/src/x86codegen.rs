//! Generation of x86-64 assembly from the linear IR of each function.
use vstd::prelude::*;

use crate::ast::{BinOp, Ident, Typ, TypV, UnOp};
use crate::codegen::type_size_bytes;
use crate::cfg::{reachable, rpo_ok, lemma_closed_contains_reachable};
use crate::ir::{block_instrs, linear, same_instr, same_instrs, Exception, IRContext, Instr, Label, Operand, Temp};
use crate::text::decimal_spec;
use crate::regalloc::Color;
use crate::symbol_table::SymbolTable;
use crate::x86asm::{call_argument_spec, code_of, width_of, Immediate, MemVar, StackVar, Width, X86Instr, X86InstrV, X86Operand, X86Reg, X86WReg};
use crate::x86ctx::{
    context_frame, context_ok, context_slots, prologue_code, used_callee_set, no_calls, calls_only_to, lemma_calls_concat,
    lemma_move_no_calls, lemma_binop_no_calls, lemma_traps_no_calls, lemma_call_code_calls, call_code, not_ret,
    arg_moves, restore_code, rsp,
    binop_code, epilogue, generate_traps, move_code, operand_located, operand_location, setcc, low_byte, trap_bound_code,
    trap_greater_code, trap_label, trap_lesser_code, trap_zero_code, traps_code, wreg, imm, Trap, X86Context,
};

verus! {

/// An x86-64 program: the assembly of each function, by name, and the traps.
pub struct X86Program {
    /// Assembly of each function.
    pub functions: Vec<(String, Vec<X86Instr>)>,
    /// Global trap handlers.
    pub traps: Vec<X86Instr>,
}

/// The context's invariant holds and its frame, prefix and callee-saved registers are
/// those of `c0`.
pub open spec fn same_frame(c0: X86Context, c: X86Context) -> bool {
    &&& c.wf()
    &&& c.callee() == c0.callee()
    &&& c.frame() == c0.frame()
    &&& c.prefix() == c0.prefix()
}

/// Error for code that cannot be generated.
fn x86_error(msg: &str) -> (r: String) {
    String::from_str(msg)
}

/// Move an operand into a register and give back that register at 64 bits.
fn to_w64_reg(ctx: &mut X86Context, src: X86Operand, reg: X86WReg) -> (r: X86Operand)
    requires
        old(ctx).wf(),
    ensures
        same_frame(*old(ctx), *final(ctx)),
        r == X86Operand::Register(X86WReg { register: reg.register, width: Width::W64 }),
        old(ctx).emits(final(ctx), move_code(src, wreg(reg.register, width_of(src)))),
{
    ctx.emit_move(src, X86Operand::Register(X86WReg { register: reg.register, width: src.width() }));
    X86Operand::Register(X86WReg { register: reg.register, width: Width::W64 })
}

/// Size in bytes of the elements of an array type.
fn array_index_elem_size(array_typ: &Typ, symbol_table: &SymbolTable) -> (r: Result<i64, String>)
    requires
        symbol_table.wf(),
    ensures
        array_typ matches Typ::Array(_, d) && d > 1 ==> r == Ok::<i64, String>(8),
        !(array_typ is Array) ==> r is Err,
        r is Ok <==> elem_size(*symbol_table, *array_typ) is Some,
        r matches Ok(n) ==> elem_size(*symbol_table, *array_typ) == Some(n as int),
{
    match array_typ {
        Typ::Array(inner, depth) => {
            if *depth > 1 {
                Ok(8)
            } else {
                type_size_bytes(&**inner, symbol_table)
            }
        },
        _ => Err(x86_error("element size of a type that is not an array")),
    }
}

/// Size in bytes of the elements of an array type: 8 for an array of arrays, the size
/// of the element type otherwise; none for a type that is not an array or an element
/// type without a size.
pub open spec fn elem_size(st: SymbolTable, t: Typ) -> Option<int> {
    match t {
        Typ::Array(inner, d) => if d > 1 {
            Some(8)
        } else {
            crate::codegen::size_of_type(st@, inner@, st.struct_fuel())
        },
        _ => None,
    }
}

/// Width of a value returned by a function of a type with a width.
fn return_type_width(typ: &Typ) -> (r: Result<Width, String>)
    ensures
        *typ is Bool ==> r == Ok::<Width, String>(Width::W8),
        *typ is Int ==> r == Ok::<Width, String>(Width::W32),
        (*typ is Null || *typ is Pointer || *typ is Array) ==> r == Ok::<Width, String>(Width::W64),
        (*typ is Void || *typ is Typedef || *typ is Struct) ==> r is Err,
{
    match typ {
        Typ::Bool => Ok(Width::W8),
        Typ::Int => Ok(Width::W32),
        Typ::Null | Typ::Pointer(..) | Typ::Array(..) => Ok(Width::W64),
        _ => Err(x86_error("return type without a width")),
    }
}

/// Name under which a function is called: functions of the header keep their name, the
/// others get the prefix `_c0_`.
fn callee_name(name: &String, symbol_table: &SymbolTable) -> (r: String)
    requires
        symbol_table.wf(),
    ensures
        symbol_table@.header.contains(name@) ==> r@ == name@,
        !symbol_table@.header.contains(name@) ==> r@ == seq!['_', 'c', '0', '_'] + name@,
{
    if symbol_table.is_header_function(name) {
        name.clone()
    } else {
        crate::x86ctx::prefixed(&['_', 'c', '0', '_'], name)
    }
}

/// The operands of a call are within the limits of `emit_call`.
fn call_ok(dest: &Option<X86Operand>, args: &Vec<X86Operand>) -> (r: bool)
    ensures
        r == ((dest matches Some(d) ==> (d is Register || d is Stack))
            && (dest matches Some(X86Operand::Stack(sv)) ==> 0 <= sv.offset <= i32::MAX)
            && args@.len() <= 65536
            && forall|i: int| 0 <= i < args@.len() ==> (#[trigger] args@[i] matches X86Operand::Stack(sv) ==> 0 <= sv.offset <= i32::MAX)),
{
    match dest {
        Some(X86Operand::Register(_)) => {},
        Some(X86Operand::Stack(sv)) => {
            if sv.offset < 0 || sv.offset > 2147483647 {
                return false;
            }
        },
        Some(_) => return false,
        None => {},
    }
    if args.len() > 65536 {
        return false;
    }
    let mut i: usize = 0;
    while i < args.len()
        invariant
            i <= args@.len(),
            forall|j: int| 0 <= j < i ==> (#[trigger] args@[j] matches X86Operand::Stack(sv) ==> 0 <= sv.offset <= i32::MAX),
        decreases args@.len() - i,
    {
        match args[i] {
            X86Operand::Stack(sv) => {
                if sv.offset < 0 || sv.offset > 2147483647 {
                    return false;
                }
            },
            _ => {},
        }
        i = i + 1;
    }
    true
}

/// Locations of a list of operands.
fn locate_all(ctx: &mut X86Context, args: &Vec<Operand>) -> (r: Result<Vec<X86Operand>, String>)
    requires
        old(ctx).wf(),
    ensures
        same_frame(*old(ctx), *final(ctx)),
        final(ctx).code() == old(ctx).code(),
        final(ctx).colors() == old(ctx).colors(),
        final(ctx).slots() == old(ctx).slots(),
        r matches Ok(v) ==> v@.len() == args@.len(),
        r is Ok <==> forall|i: int| 0 <= i < args@.len() ==> operand_located(old(ctx).colors(), old(ctx).slots(), #[trigger] args@[i]),
        r matches Ok(v) ==> forall|i: int| 0 <= i < args@.len() ==> #[trigger] v@[i] == operand_location(
            old(ctx).colors(),
            old(ctx).slots(),
            args@[i],
        ),
{
    let mut out: Vec<X86Operand> = Vec::new();
    let mut i: usize = 0;
    while i < args.len()
        invariant
            same_frame(*old(ctx), *ctx),
            ctx.code() == old(ctx).code(),
            ctx.colors() == old(ctx).colors(),
            ctx.slots() == old(ctx).slots(),
            i <= args@.len(),
            out@.len() == i,
            forall|j: int| 0 <= j < i ==> operand_located(old(ctx).colors(), old(ctx).slots(), #[trigger] args@[j]),
            forall|j: int| 0 <= j < i ==> #[trigger] out@[j] == operand_location(old(ctx).colors(), old(ctx).slots(), args@[j]),
        decreases args@.len() - i,
    {
        let op = ctx.locate_operand(&args[i])?;
        out.push(op);
        i = i + 1;
    }
    Ok(out)
}


/// Type of an IR operand.
fn operand_typ(op: &Operand) -> (r: Typ)
    ensures
        r == match *op {
            Operand::Const(c) => c.1,
            Operand::Temp(t) => t.1,
        },
{
    crate::codegen::operand_type(op)
}

/// The operand is a register of the given register file entry.
pub open spec fn in_reg(op: X86Operand, r: X86Reg) -> bool {
    op matches X86Operand::Register(w) && w.register == r
}

/// Code of a shift of `lhs` by `rhs` into `dest`: a constant amount outside 0 to 31
/// jumps to the arithmetic trap; a variable amount is first checked (unless unsafe code
/// is allowed) and moved to `cl`, the value shifted in `dest` or, when `dest` is `rcx`,
/// in the scratch register.
pub open spec fn shift_code(op: BinOp, dest: X86Operand, lhs: X86Operand, rhs: X86Operand, allow_unsafe: bool) -> Seq<X86InstrV> {
    match rhs {
        X86Operand::Immediate(i) => if i.value < 0 || i.value > 31 {
            seq![X86InstrV::Jmp(trap_label(Trap::Sigfpe))]
        } else {
            move_code(lhs, dest) + binop_code(op, Some(rhs), Some(dest))
        },
        _ => {
            let checks = if allow_unsafe {
                Seq::<X86InstrV>::empty()
            } else {
                trap_lesser_code(rhs, 0, Trap::Sigfpe) + trap_greater_code(rhs, 31, Trap::Sigfpe)
            };
            checks + variable_shift_code(op, dest, lhs, rhs)
        },
    }
}

/// Code of a shift by an amount held in `rhs`: the amount moved to `cl` and the value
/// shifted in `dest` or, when `dest` is `rcx`, in the scratch register.
pub open spec fn variable_shift_code(op: BinOp, dest: X86Operand, lhs: X86Operand, rhs: X86Operand) -> Seq<X86InstrV> {
    let scratch = wreg(X86Reg::R10, width_of(dest));
    let cl = wreg(X86Reg::Rcx, width_of(rhs));
    let dest_in_shift = in_reg(dest, X86Reg::Rcx);
    let temp_dest = if dest_in_shift { scratch } else { dest };
    shift_moves(lhs, rhs, temp_dest, scratch, cl) + binop_code(op, None, Some(temp_dest)) + if dest_in_shift {
        move_code(temp_dest, dest)
    } else {
        Seq::<X86InstrV>::empty()
    }
}

/// The moves that put the value in `temp_dest` and the amount in `cl`, in an order that
/// overwrites neither too early.
pub open spec fn shift_moves(lhs: X86Operand, rhs: X86Operand, temp_dest: X86Operand, scratch: X86Operand, cl: X86Operand) -> Seq<X86InstrV> {
    shift_moves_by(
        in_reg(lhs, X86Reg::Rcx),
        rhs matches X86Operand::Register(r1) && in_reg(temp_dest, r1.register),
        lhs,
        rhs,
        temp_dest,
        scratch,
        cl,
    )
}

/// The moves of `shift_moves`, given whether the value is in `rcx` and whether the
/// amount is in the register the value goes to.
pub open spec fn shift_moves_by(lhs_in: bool, rhs_in: bool, lhs: X86Operand, rhs: X86Operand, temp_dest: X86Operand, scratch: X86Operand, cl: X86Operand) -> Seq<X86InstrV> {
    if lhs_in && rhs_in {
        move_code(rhs, scratch) + move_code(lhs, temp_dest) + move_code(scratch, cl)
    } else if rhs_in {
        move_code(rhs, cl) + move_code(lhs, temp_dest)
    } else {
        move_code(lhs, temp_dest) + move_code(rhs, cl)
    }
}

/// Emit the moves of `shift_moves_by`.
fn emit_shift_moves(
    ctx: &mut X86Context,
    lhs_in: bool,
    rhs_in: bool,
    lhs: X86Operand,
    rhs: X86Operand,
    temp_dest: X86Operand,
    scratch: X86Operand,
    cl: X86Operand,
)
    requires
        !(temp_dest is Immediate),
        !(scratch is Immediate),
        !(cl is Immediate),
    ensures
        old(ctx).emits(final(ctx), shift_moves_by(lhs_in, rhs_in, lhs, rhs, temp_dest, scratch, cl)),
{
    if lhs_in && rhs_in {
        ctx.emit_move(rhs, scratch);
        ctx.emit_move(lhs, temp_dest);
        ctx.emit_move(scratch, cl);
    } else if rhs_in {
        ctx.emit_move(rhs, cl);
        ctx.emit_move(lhs, temp_dest);
    } else {
        ctx.emit_move(lhs, temp_dest);
        ctx.emit_move(rhs, cl);
    }
    assert(ctx.code() =~= old(ctx).code() + shift_moves_by(lhs_in, rhs_in, lhs, rhs, temp_dest, scratch, cl));
}

/// The comparison operator with its operands swapped.
pub open spec fn flipped_cmp(op: BinOp) -> BinOp {
    match op {
        BinOp::Lt => BinOp::Gt,
        BinOp::Gt => BinOp::Lt,
        BinOp::Lte => BinOp::Gte,
        BinOp::Gte => BinOp::Lte,
        _ => op,
    }
}

/// With the operands swapped, the flipped comparison decides the same thing: after
/// `cmp` sets the flags from destination `b` and source `a`, the `set` instruction of
/// the flipped operator writes one exactly when `a op b` holds.
pub proof fn lemma_flipped_comparison(op: BinOp, dest: X86Operand, a: i32, b: i32)
    requires
        crate::x86ctx::is_comparator(op),
    ensures
        crate::x86ctx::set_condition(setcc(flipped_cmp(op), dest), crate::x86ctx::sub_flags(b, a)) matches Some(h)
            && crate::arith32::c0_binop(op, a, b) == Some(crate::arith32::bool_value(h)),
{
    crate::x86ctx::lemma_sub_flags(b, a);
}

/// Code of a comparison of `lhs` with `rhs` into `dest`: two immediates or two stack
/// operands go through the scratch register; an immediate left operand is compared
/// with the operator flipped.
pub open spec fn compare_code(op: BinOp, dest: X86Operand, lhs: X86Operand, rhs: X86Operand) -> Seq<X86InstrV> {
    let scratch = wreg(X86Reg::R10, width_of(rhs));
    if (lhs is Immediate && rhs is Immediate) || (lhs is Stack && rhs is Stack) {
        move_code(lhs, scratch) + seq![X86InstrV::Cmp(rhs, scratch), setcc(op, low_byte(dest))]
    } else if lhs is Immediate {
        seq![X86InstrV::Cmp(lhs, rhs), setcc(flipped_cmp(op), low_byte(dest))]
    } else {
        seq![X86InstrV::Cmp(rhs, lhs), setcc(op, low_byte(dest))]
    }
}

/// The `set` instruction writes one, for the given flags, exactly when `a op b` holds.
pub open spec fn set_decides(set: X86InstrV, f: (bool, bool, bool), op: BinOp, a: i32, b: i32) -> bool {
    crate::x86ctx::set_condition(set, f) matches Some(h) && crate::arith32::c0_binop(op, a, b) == Some(crate::arith32::bool_value(h))
}

/// The code of a comparison computes it: `cmp x, y` sets the flags from `y - x` (AT&T
/// order), and with `lhs` holding `a` and `rhs` holding `b`, the flags are those of
/// `a - b` (or of `b - a`, with the operator flipped, when `lhs` is an immediate), so the
/// final `set` writes one exactly when `a op b` holds.
pub proof fn lemma_compare_code_computes(op: BinOp, dest: X86Operand, lhs: X86Operand, rhs: X86Operand, a: i32, b: i32)
    requires
        crate::x86ctx::is_comparator(op),
    ensures
        ({
            let code = compare_code(op, dest, lhs, rhs);
            let scratch = wreg(X86Reg::R10, width_of(rhs));
            let set = code.last();
            &&& code.len() >= 2
            &&& ((lhs is Immediate && rhs is Immediate) || (lhs is Stack && rhs is Stack)) ==> (code
                =~= move_code(lhs, scratch) + seq![X86InstrV::Cmp(rhs, scratch), set]
                && set_decides(set, crate::x86ctx::sub_flags(a, b), op, a, b))
            &&& (lhs is Immediate && !(rhs is Immediate)) ==> (code =~= seq![X86InstrV::Cmp(lhs, rhs), set]
                && set_decides(set, crate::x86ctx::sub_flags(b, a), op, a, b))
            &&& (!(lhs is Immediate) && !(lhs is Stack && rhs is Stack)) ==> (code =~= seq![X86InstrV::Cmp(rhs, lhs), set]
                && set_decides(set, crate::x86ctx::sub_flags(a, b), op, a, b))
        }),
{
    crate::x86ctx::lemma_set_condition_matches_comparison(op, low_byte(dest), a, b);
    lemma_flipped_comparison(op, low_byte(dest), a, b);
}

/// Generate the code of a shift of `lhs` by `rhs` into `dest`, trapping on a shift
/// amount outside 0 to 31 unless unsafe code is allowed.
#[verifier::rlimit(50)]
#[verifier::spinoff_prover]
fn gen_shift(ctx: &mut X86Context, op: BinOp, dest: X86Operand, lhs: X86Operand, rhs: X86Operand, allow_unsafe: bool)
    requires
        old(ctx).wf(),
        op is Sal || op is Sar,
        dest is Register || dest is Stack,
    ensures
        same_frame(*old(ctx), *final(ctx)),
        old(ctx).emits(final(ctx), shift_code(op, dest, lhs, rhs, allow_unsafe)),
{
    match rhs {
        X86Operand::Immediate(i) => {
            if i.value < 0 || i.value > 31 {
                ctx.emit_trap_jump(Trap::Sigfpe);
                return;
            }
        },
        _ => {
            if !allow_unsafe {
                ctx.emit_trap_if_lesser(rhs, 0, Trap::Sigfpe);
                ctx.emit_trap_if_greater(rhs, 31, Trap::Sigfpe);
            } else {
                assert(ctx.code() =~= old(ctx).code() + Seq::<X86InstrV>::empty());
            }
        },
    }
    let ghost checked = ctx.code();
    match rhs {
        X86Operand::Immediate(_) => {
            ctx.emit_move(lhs, dest);
            ctx.emit_binary_op(op, Some(rhs), Some(dest));
            assert(ctx.code() =~= old(ctx).code() + shift_code(op, dest, lhs, rhs, allow_unsafe));
        },
        _ => {
            shift_by_register(ctx, op, dest, lhs, rhs);
            assert(ctx.code() =~= old(ctx).code() + shift_code(op, dest, lhs, rhs, allow_unsafe));
        },
    }
}

/// Emit a shift by an amount held in `rhs` (see `variable_shift_code`).
#[verifier::rlimit(100)]
#[verifier::spinoff_prover]
fn shift_by_register(ctx: &mut X86Context, op: BinOp, dest: X86Operand, lhs: X86Operand, rhs: X86Operand)
    requires
        old(ctx).wf(),
        op is Sal || op is Sar,
        dest is Register || dest is Stack,
        !(rhs is Immediate),
    ensures
        same_frame(*old(ctx), *final(ctx)),
        old(ctx).emits(final(ctx), variable_shift_code(op, dest, lhs, rhs)),
{
    let scratch = X86Operand::Register(X86WReg::scratch(dest.width()));
    let shift_reg = X86WReg::shift().register;
    let cl = X86Operand::Register(X86WReg { register: shift_reg, width: rhs.width() });
    let dest_in_shift = match dest {
        X86Operand::Register(r) => r.register == shift_reg,
        _ => false,
    };
    let temp_dest = if dest_in_shift { scratch } else { dest };
    let lhs_in_shift = match lhs {
        X86Operand::Register(r) => r.register == shift_reg,
        _ => false,
    };
    let rhs_in_temp_dest = match (rhs, temp_dest) {
        (X86Operand::Register(r1), X86Operand::Register(r2)) => r1.register == r2.register,
        _ => false,
    };
    assert(lhs_in_shift == in_reg(lhs, X86Reg::Rcx));
    assert(rhs_in_temp_dest == (rhs matches X86Operand::Register(r1) && in_reg(temp_dest, r1.register)));
    emit_shift_moves(ctx, lhs_in_shift, rhs_in_temp_dest, lhs, rhs, temp_dest, scratch, cl);
    let ghost moved = ctx.code();
    ctx.emit_binary_op(op, None, Some(temp_dest));
    let ghost tail = if dest_in_shift { move_code(temp_dest, dest) } else { Seq::<X86InstrV>::empty() };
    if dest_in_shift {
        ctx.emit_move(temp_dest, dest);
    } else {
        assert(ctx.code() =~= ctx.code() + tail);
    }
    proof {
        assert(ctx.code() =~= moved + binop_code(op, None, Some(temp_dest)) + tail);
        assert(ctx.code() =~= old(ctx).code() + variable_shift_code(op, dest, lhs, rhs));
    }
}

/// Generate the code of a comparison of `lhs` with `rhs` whose result goes to `dest`.
fn gen_compare(ctx: &mut X86Context, op: BinOp, dest: X86Operand, lhs: X86Operand, rhs: X86Operand)
    requires
        old(ctx).wf(),
        crate::x86ctx::is_comparator(op),
        dest is Register || dest is Stack,
    ensures
        same_frame(*old(ctx), *final(ctx)),
        old(ctx).emits(final(ctx), compare_code(op, dest, lhs, rhs)),
{
    let scratch = X86Operand::Register(X86WReg::scratch(rhs.width()));
    let both_same_kind = match (lhs, rhs) {
        (X86Operand::Immediate(_), X86Operand::Immediate(_)) => true,
        (X86Operand::Stack(_), X86Operand::Stack(_)) => true,
        _ => false,
    };
    if both_same_kind {
        ctx.emit_move(lhs, scratch);
        ctx.emit_binary_cmp(op, rhs, scratch, dest);
        assert(ctx.code() =~= old(ctx).code() + compare_code(op, dest, lhs, rhs));
    } else {
        match lhs {
            X86Operand::Immediate(_) => {
                let flipped = match op {
                    BinOp::Lt => BinOp::Gt,
                    BinOp::Gt => BinOp::Lt,
                    BinOp::Lte => BinOp::Gte,
                    BinOp::Gte => BinOp::Lte,
                    _ => op,
                };
                ctx.emit_binary_cmp(flipped, lhs, rhs, dest);
            },
            _ => {
                ctx.emit_binary_cmp(op, rhs, lhs, dest);
            },
        }
    }
}

/// An addition of an integer to a pointer or an array.
pub open spec fn pointer_add(op: BinOp, lhs_typ: Typ, rhs_typ: Typ) -> bool {
    op is Add && (lhs_typ is Pointer || lhs_typ is Array) && rhs_typ is Int
}

/// The right operand of a pointer addition at 64 bits, and the code that gets it there.
pub open spec fn widened_rhs(rhs: X86Operand) -> (Seq<X86InstrV>, X86Operand) {
    match rhs {
        X86Operand::Immediate(i) => (Seq::<X86InstrV>::empty(), imm(i.value, Width::W64)),
        X86Operand::Register(w) => (Seq::<X86InstrV>::empty(), wreg(w.register, Width::W64)),
        _ => (move_code(rhs, wreg(X86Reg::R11, width_of(rhs))), wreg(X86Reg::R11, Width::W64)),
    }
}

/// Code that scales the index in `r11` by the element size.
pub open spec fn scale_code(esize: i64) -> Seq<X86InstrV> {
    if esize != 1 {
        binop_code(BinOp::Mul, Some(imm(esize, Width::W64)), Some(wreg(X86Reg::R11, Width::W64)))
    } else {
        Seq::<X86InstrV>::empty()
    }
}

/// The code that prepares the right operand of an arithmetic operation, and the operand
/// it leaves: for a pointer addition, the offset at 64 bits in `r11`, scaled by the
/// element size `esize` for an array; unless unsafe code is allowed, a null base traps,
/// and so does an array index that is negative or not below the length stored before
/// the array.
pub open spec fn arith_prep(op: BinOp, lhs: X86Operand, rhs: X86Operand, lhs_typ: Typ, rhs_typ: Typ, allow_unsafe: bool, esize: i64)
    -> (Seq<X86InstrV>, X86Operand) {
    let pa = pointer_add(op, lhs_typ, rhs_typ);
    let ai = pa && lhs_typ is Array;
    let r11 = wreg(X86Reg::R11, Width::W64);
    let c1 = if pa { widened_rhs(rhs).0 } else { Seq::<X86InstrV>::empty() };
    let rhs1 = if pa { widened_rhs(rhs).1 } else { rhs };
    let to_r11 = move_code(rhs1, wreg(X86Reg::R11, width_of(rhs1)));
    if !allow_unsafe && pa {
        let base_reg = match lhs {
            X86Operand::Register(w) => w.register,
            _ => X86Reg::R10,
        };
        let base = if lhs is Register { lhs } else { wreg(X86Reg::R10, Width::W64) };
        let c2 = if lhs is Register { Seq::<X86InstrV>::empty() } else { move_code(lhs, wreg(X86Reg::R10, Width::W64)) };
        let c3 = trap_zero_code(base, Trap::MemError);
        if ai {
            (c1 + c2 + c3 + to_r11 + trap_lesser_code(r11, 0, Trap::MemError) + scale_code(esize) + trap_bound_code(
                r11,
                X86Operand::Memory(MemVar { base: base_reg, offset: -8i64, width: Width::W64 }),
                Trap::MemError,
            ), r11)
        } else {
            (c1 + c2 + c3 + to_r11, r11)
        }
    } else if ai {
        (c1 + to_r11 + scale_code(esize), r11)
    } else {
        (c1, rhs1)
    }
}

/// Code of the operation itself, with the prepared right operand `rhs`: computed in
/// `dest`, or in the scratch register for a product or a stack operand when `dest` is
/// not a register, then moved to `dest`.
pub open spec fn arith_op_code(op: BinOp, dest: X86Operand, lhs: X86Operand, rhs: X86Operand) -> Seq<X86InstrV> {
    let target = if dest is Register || !(op is Mul || rhs is Stack) { dest } else { wreg(X86Reg::R10, width_of(dest)) };
    if target == rhs && target != lhs {
        if op is Sub {
            let scratch = wreg(X86Reg::R10, width_of(target));
            move_code(lhs, scratch) + binop_code(BinOp::Sub, Some(rhs), Some(scratch)) + move_code(scratch, dest)
        } else {
            binop_code(op, Some(lhs), Some(rhs)) + move_code(target, dest)
        }
    } else {
        move_code(lhs, target) + binop_code(op, Some(rhs), Some(target)) + move_code(target, dest)
    }
}

/// The element size used by an arithmetic operation (0 where none is needed).
pub open spec fn arith_esize(st: SymbolTable, op: BinOp, lhs_typ: Typ, rhs_typ: Typ) -> i64 {
    if pointer_add(op, lhs_typ, rhs_typ) && lhs_typ is Array {
        match elem_size(st, lhs_typ) {
            Some(n) => n as i64,
            None => 0,
        }
    } else {
        0
    }
}

/// Code of an arithmetic or logical operation (see `arith_prep` and `arith_op_code`).
pub open spec fn arith_code(
    op: BinOp,
    dest: X86Operand,
    lhs: X86Operand,
    rhs: X86Operand,
    lhs_typ: Typ,
    rhs_typ: Typ,
    allow_unsafe: bool,
    esize: i64,
) -> Seq<X86InstrV> {
    let prep = arith_prep(op, lhs, rhs, lhs_typ, rhs_typ, allow_unsafe, esize);
    prep.0 + arith_op_code(op, dest, lhs, prep.1)
}

/// Emit the preparation of the right operand of an arithmetic operation (see
/// `arith_prep`); fails when an array's element size is unknown.
#[verifier::rlimit(50)]
#[verifier::spinoff_prover]
fn arith_prepare(
    ctx: &mut X86Context,
    op: BinOp,
    lhs: X86Operand,
    rhs: X86Operand,
    lhs_typ: &Typ,
    rhs_typ: &Typ,
    symbol_table: &SymbolTable,
    allow_unsafe: bool,
) -> (r: Result<X86Operand, String>)
    requires
        old(ctx).wf(),
        symbol_table.wf(),
    ensures
        same_frame(*old(ctx), *final(ctx)),
        final(ctx).colors() == old(ctx).colors(),
        final(ctx).slots() == old(ctx).slots(),
        r is Err <==> pointer_add(op, *lhs_typ, *rhs_typ) && *lhs_typ is Array && elem_size(*symbol_table, *lhs_typ) is None,
        r matches Ok(o) ==> o == arith_prep(op, lhs, rhs, *lhs_typ, *rhs_typ, allow_unsafe, arith_esize(*symbol_table, op, *lhs_typ, *rhs_typ)).1
            && old(ctx).emits(final(ctx), arith_prep(op, lhs, rhs, *lhs_typ, *rhs_typ, allow_unsafe, arith_esize(*symbol_table, op, *lhs_typ, *rhs_typ)).0),
{
    let ghost esize = arith_esize(*symbol_table, op, *lhs_typ, *rhs_typ);
    let ghost prep = arith_prep(op, lhs, rhs, *lhs_typ, *rhs_typ, allow_unsafe, esize);
    let is_pointer_add = match op {
        BinOp::Add => (match lhs_typ {
            Typ::Pointer(..) | Typ::Array(..) => true,
            _ => false,
        }) && (match rhs_typ {
            Typ::Int => true,
            _ => false,
        }),
        _ => false,
    };
    let is_array_index_addr = is_pointer_add && match lhs_typ {
        Typ::Array(..) => true,
        _ => false,
    };
    assert(is_pointer_add == pointer_add(op, *lhs_typ, *rhs_typ));
    let rhs1 = if is_pointer_add {
        match rhs {
            X86Operand::Immediate(i) => X86Operand::Immediate(Immediate { value: i.value, width: Width::W64 }),
            X86Operand::Register(w) => X86Operand::Register(X86WReg { register: w.register, width: Width::W64 }),
            _ => to_w64_reg(ctx, rhs, X86WReg::scratch2(Width::W64)),
        }
    } else {
        rhs
    };
    let ghost c1 = if is_pointer_add { widened_rhs(rhs).0 } else { Seq::<X86InstrV>::empty() };
    proof {
        if !(is_pointer_add && !(rhs is Immediate) && !(rhs is Register)) {
            assert(ctx.code() =~= old(ctx).code() + c1);
        }
        assert(rhs1 == (if is_pointer_add { widened_rhs(rhs).1 } else { rhs }));
    }
    let ghost after1 = ctx.code();
    if !allow_unsafe && is_pointer_add {
        let base = match lhs {
            X86Operand::Register(_) => lhs,
            _ => {
                let b = X86Operand::Register(X86WReg::scratch(Width::W64));
                ctx.emit_move(lhs, b);
                b
            },
        };
        ctx.emit_trap_if_zero(base, Trap::MemError);
        if is_array_index_addr {
            let index = to_w64_reg(ctx, rhs1, X86WReg::scratch2(Width::W64));
            ctx.emit_trap_if_lesser(index, 0, Trap::MemError);
            let elem_size = array_index_elem_size(lhs_typ, symbol_table)?;
            let scaled = index;
            let ghost before_scale = ctx.code();
            if elem_size != 1 {
                ctx.emit_binary_op(BinOp::Mul, Some(X86Operand::Immediate(Immediate { value: elem_size, width: Width::W64 })), Some(scaled));
            }
            proof {
                assert(ctx.code() =~= before_scale + scale_code(esize));
            }
            let base_reg = match base {
                X86Operand::Register(w) => w.register,
                _ => return Err(x86_error("array base outside a register")),
            };
            ctx.emit_trap_if_geq_bound(scaled, X86Operand::Memory(MemVar { base: base_reg, offset: -8, width: Width::W64 }), Trap::MemError);
            proof {
                assert(ctx.code() =~= old(ctx).code() + prep.0);
            }
            Ok(scaled)
        } else {
            let r = to_w64_reg(ctx, rhs1, X86WReg::scratch2(Width::W64));
            proof {
                assert(ctx.code() =~= old(ctx).code() + prep.0);
            }
            Ok(r)
        }
    } else if is_array_index_addr {
        let elem_size = array_index_elem_size(lhs_typ, symbol_table)?;
        let scaled = to_w64_reg(ctx, rhs1, X86WReg::scratch2(Width::W64));
        let ghost before_scale = ctx.code();
        if elem_size != 1 {
            ctx.emit_binary_op(BinOp::Mul, Some(X86Operand::Immediate(Immediate { value: elem_size, width: Width::W64 })), Some(scaled));
        }
        proof {
            assert(ctx.code() =~= before_scale + scale_code(esize));
            assert(ctx.code() =~= old(ctx).code() + prep.0);
        }
        Ok(scaled)
    } else {
        proof {
            assert(ctx.code() =~= old(ctx).code() + prep.0);
        }
        Ok(rhs1)
    }
}

/// Emit the operation itself with the prepared right operand (see `arith_op_code`).
#[verifier::rlimit(50)]
#[verifier::spinoff_prover]
fn arith_operate(ctx: &mut X86Context, op: BinOp, dest: X86Operand, lhs: X86Operand, rhs: X86Operand)
    requires
        old(ctx).wf(),
        op is Add || op is Sub || op is Mul || op is And || op is Xor || op is Or || op is LAnd || op is LOr,
        dest is Register || dest is Stack,
    ensures
        same_frame(*old(ctx), *final(ctx)),
        old(ctx).emits(final(ctx), arith_op_code(op, dest, lhs, rhs)),
{
    let is_mul = match op {
        BinOp::Mul => true,
        _ => false,
    };
    let rhs_on_stack = match rhs {
        X86Operand::Stack(_) => true,
        _ => false,
    };
    let dest_in_reg = match dest {
        X86Operand::Register(_) => true,
        _ => false,
    };
    let target = if dest_in_reg || !(is_mul || rhs_on_stack) {
        dest
    } else {
        X86Operand::Register(X86WReg::scratch(dest.width()))
    };
    if target == rhs && target != lhs {
        match op {
            BinOp::Sub => {
                let scratch = X86Operand::Register(X86WReg::scratch(target.width()));
                ctx.emit_move(lhs, scratch);
                ctx.emit_binary_op(BinOp::Sub, Some(rhs), Some(scratch));
                ctx.emit_move(scratch, dest);
            },
            _ => {
                ctx.emit_binary_op(op, Some(lhs), Some(rhs));
                ctx.emit_move(target, dest);
            },
        }
    } else {
        ctx.emit_move(lhs, target);
        ctx.emit_binary_op(op, Some(rhs), Some(target));
        ctx.emit_move(target, dest);
    }
    assert(ctx.code() =~= old(ctx).code() + arith_op_code(op, dest, lhs, rhs));
}

/// Generate the code of an arithmetic or logical operation of `lhs` and `rhs` into
/// `dest`. Adding an integer to a pointer or an array scales and, unless unsafe code is
/// allowed, checks the address: a null base traps, and so does an array index that is
/// negative or not below the length stored before the array. Fails when an array's
/// element size is unknown.
fn gen_arith(
    ctx: &mut X86Context,
    op: BinOp,
    dest: X86Operand,
    lhs: X86Operand,
    rhs: X86Operand,
    lhs_typ: &Typ,
    rhs_typ: &Typ,
    symbol_table: &SymbolTable,
    allow_unsafe: bool,
) -> (r: Result<(), String>)
    requires
        old(ctx).wf(),
        symbol_table.wf(),
        op is Add || op is Sub || op is Mul || op is And || op is Xor || op is Or || op is LAnd || op is LOr,
        dest is Register || dest is Stack,
    ensures
        same_frame(*old(ctx), *final(ctx)),
        final(ctx).colors() == old(ctx).colors(),
        final(ctx).slots() == old(ctx).slots(),
        r is Err <==> pointer_add(op, *lhs_typ, *rhs_typ) && *lhs_typ is Array && elem_size(*symbol_table, *lhs_typ) is None,
        r is Ok ==> old(ctx).emits(final(ctx), arith_code(op, dest, lhs, rhs, *lhs_typ, *rhs_typ, allow_unsafe, arith_esize(*symbol_table, op, *lhs_typ, *rhs_typ))),
{
    let rhs2 = arith_prepare(ctx, op, lhs, rhs, lhs_typ, rhs_typ, symbol_table, allow_unsafe)?;
    let ghost mid = ctx.code();
    arith_operate(ctx, op, dest, lhs, rhs2);
    assert(ctx.code() =~= old(ctx).code() + arith_code(op, dest, lhs, rhs, *lhs_typ, *rhs_typ, allow_unsafe, arith_esize(*symbol_table, op, *lhs_typ, *rhs_typ)));
    Ok(())
}

/// Type an IR operand carries.
pub open spec fn ir_operand_typ(op: Operand) -> Typ {
    match op {
        Operand::Const(c) => c.1,
        Operand::Temp(t) => t.1,
    }
}

/// Code of a division or remainder: a divisor in `rax` or `rdx` first moved to the
/// scratch register, the dividend moved to `rax`, then `idiv`, and the quotient or the
/// remainder moved to `dest`.
pub open spec fn div_code(op: BinOp, dest: X86Operand, lhs: X86Operand, rhs: X86Operand) -> Seq<X86InstrV> {
    let w = width_of(rhs);
    let moved = rhs == wreg(X86Reg::Rax, w) || rhs == wreg(X86Reg::Rdx, w);
    let divisor = if moved { wreg(X86Reg::R10, w) } else { rhs };
    (if moved { move_code(rhs, wreg(X86Reg::R10, w)) } else { Seq::<X86InstrV>::empty() }) + move_code(
        lhs,
        wreg(X86Reg::Rax, width_of(dest)),
    ) + binop_code(op, Some(divisor), None) + move_code(
        if op is Div { wreg(X86Reg::Rax, width_of(dest)) } else { wreg(X86Reg::Rdx, width_of(dest)) },
        dest,
    )
}

/// Code of a binary operation of the IR once its operands are located.
pub open spec fn binop_ir_code(
    op: BinOp,
    dest: X86Operand,
    lhs: X86Operand,
    rhs: X86Operand,
    lhs_typ: Typ,
    rhs_typ: Typ,
    allow_unsafe: bool,
    esize: i64,
) -> Seq<X86InstrV> {
    if op is Div || op is Mod {
        div_code(op, dest, lhs, rhs)
    } else if op is Sal || op is Sar {
        shift_code(op, dest, lhs, rhs, allow_unsafe)
    } else if crate::x86ctx::is_comparator(op) {
        compare_code(op, dest, lhs, rhs)
    } else {
        arith_code(op, dest, lhs, rhs, lhs_typ, rhs_typ, allow_unsafe, esize)
    }
}

/// Emit a division or remainder (see `div_code`).
#[verifier::rlimit(50)]
#[verifier::spinoff_prover]
fn emit_div(ctx: &mut X86Context, op: BinOp, dest: X86Operand, lhs: X86Operand, rhs: X86Operand)
    requires
        old(ctx).wf(),
        op is Div || op is Mod,
        dest is Register || dest is Stack,
    ensures
        same_frame(*old(ctx), *final(ctx)),
        old(ctx).emits(final(ctx), div_code(op, dest, lhs, rhs)),
{
    let rhs_w = rhs.width();
    let moved = rhs == X86Operand::Register(X86WReg::quotient(rhs_w)) || rhs == X86Operand::Register(X86WReg::modulo(rhs_w));
    let divisor = if moved {
        let scratch = X86Operand::Register(X86WReg::scratch(rhs_w));
        ctx.emit_move(rhs, scratch);
        scratch
    } else {
        assert(ctx.code() =~= old(ctx).code() + Seq::<X86InstrV>::empty());
        rhs
    };
    ctx.emit_move(lhs, X86Operand::Register(X86WReg::quotient(dest.width())));
    ctx.emit_binary_op(op, Some(divisor), None);
    match op {
        BinOp::Div => ctx.emit_move(X86Operand::Register(X86WReg::quotient(dest.width())), dest),
        _ => ctx.emit_move(X86Operand::Register(X86WReg::modulo(dest.width())), dest),
    }
    assert(ctx.code() =~= old(ctx).code() + div_code(op, dest, lhs, rhs));
}

/// Generate the code of a binary operation of the IR.
#[verifier::rlimit(50)]
#[verifier::spinoff_prover]
fn gen_binop(
    ctx: &mut X86Context,
    op: BinOp,
    dest_t: &crate::ir::Temp,
    lhs_o: &Operand,
    rhs_o: &Operand,
    symbol_table: &SymbolTable,
    allow_unsafe: bool,
) -> (r: Result<(), String>)
    requires
        old(ctx).wf(),
        symbol_table.wf(),
    ensures
        same_frame(*old(ctx), *final(ctx)),
        final(ctx).colors() == old(ctx).colors(),
        final(ctx).slots() == old(ctx).slots(),
        r is Ok <==> crate::x86ctx::temp_located(old(ctx).colors(), old(ctx).slots(), *dest_t)
            && operand_located(old(ctx).colors(), old(ctx).slots(), *lhs_o)
            && operand_located(old(ctx).colors(), old(ctx).slots(), *rhs_o)
            && !(pointer_add(op, ir_operand_typ(*lhs_o), ir_operand_typ(*rhs_o)) && ir_operand_typ(*lhs_o) is Array
                && elem_size(*symbol_table, ir_operand_typ(*lhs_o)) is None),
        r is Ok ==> final(ctx).code() == old(ctx).code() + binop_ir_code(
            op,
            crate::x86ctx::temp_location(old(ctx).colors(), old(ctx).slots(), *dest_t),
            operand_location(old(ctx).colors(), old(ctx).slots(), *lhs_o),
            operand_location(old(ctx).colors(), old(ctx).slots(), *rhs_o),
            ir_operand_typ(*lhs_o),
            ir_operand_typ(*rhs_o),
            allow_unsafe,
            arith_esize(*symbol_table, op, ir_operand_typ(*lhs_o), ir_operand_typ(*rhs_o)),
        ),
{
    let lhs_typ = operand_typ(lhs_o);
    let rhs_typ = operand_typ(rhs_o);
    let dest = ctx.locate(dest_t)?;
    let lhs = ctx.locate_operand(lhs_o)?;
    let rhs = ctx.locate_operand(rhs_o)?;
    match op {
        BinOp::Div | BinOp::Mod => {
            emit_div(ctx, op, dest, lhs, rhs);
            Ok(())
        },
        BinOp::Sal | BinOp::Sar => {
            gen_shift(ctx, op, dest, lhs, rhs, allow_unsafe);
            Ok(())
        },
        BinOp::CmpEq | BinOp::CmpNeq | BinOp::Lt | BinOp::Gt | BinOp::Lte | BinOp::Gte => {
            gen_compare(ctx, op, dest, lhs, rhs);
            Ok(())
        },
        _ => gen_arith(ctx, op, dest, lhs, rhs, &lhs_typ, &rhs_typ, symbol_table, allow_unsafe),
    }
}


/// A string holding the name `calloc`.
fn calloc_name() -> (r: String)
    ensures
        r@ == seq!['c', 'a', 'l', 'l', 'o', 'c'],
{
    crate::x86ctx::prefixed(&['c', 'a', 'l', 'l', 'o', 'c'], &String::new())
}

/// Register of a base operand known to be held in a register.
fn base_register(base: X86Operand) -> (r: Result<X86Reg, String>)
    ensures
        base matches X86Operand::Register(w) ==> r == Ok::<X86Reg, String>(w.register),
{
    match base {
        X86Operand::Register(w) => Ok(w.register),
        _ => Err(x86_error("address outside a register")),
    }
}

/// The operands of a call are within the limits of `emit_call`.
pub open spec fn call_operands_ok(dest: Option<X86Operand>, args: Seq<X86Operand>) -> bool {
    &&& (dest matches Some(d) ==> (d is Register || d is Stack))
    &&& (dest matches Some(X86Operand::Stack(sv)) ==> 0 <= sv.offset <= i32::MAX)
    &&& args.len() <= 65536
    &&& forall|i: int| 0 <= i < args.len() ==> (#[trigger] args[i] matches X86Operand::Stack(sv) ==> 0 <= sv.offset <= i32::MAX)
}

/// Locations of a list of IR operands.
pub open spec fn locations(c: Seq<Color>, sl: Seq<Option<StackVar>>, ops: Seq<Operand>) -> Seq<X86Operand> {
    ops.map_values(|o: Operand| operand_location(c, sl, o))
}

/// Every operand of the list has a location.
pub open spec fn all_located(c: Seq<Color>, sl: Seq<Option<StackVar>>, ops: Seq<Operand>) -> bool {
    forall|i: int| 0 <= i < ops.len() ==> operand_located(c, sl, #[trigger] ops[i])
}

/// Where the result of a tail-called function of return type `t` arrives: nowhere for
/// void, `rax` at the width of the type otherwise; none for a type without a width.
pub open spec fn ret_dest(t: TypV) -> Option<Option<X86Operand>> {
    match t {
        TypV::Void => Some(None),
        TypV::Bool => Some(Some(wreg(X86Reg::Rax, Width::W8))),
        TypV::Int => Some(Some(wreg(X86Reg::Rax, Width::W32))),
        TypV::Null | TypV::Pointer(..) | TypV::Array(..) => Some(Some(wreg(X86Reg::Rax, Width::W64))),
        _ => None,
    }
}

/// A jump can take the place of a call: at most six arguments, none held in an
/// argument register.
pub open spec fn tail_jump_ok(args: Seq<X86Operand>) -> bool {
    !(args.len() > 6 || exists|i: int| 0 <= i < args.len() && (#[trigger] args[i] matches X86Operand::Register(w)
        && call_argument_spec().contains(w.register)))
}

/// The size operand of an allocation, in a register.
pub open spec fn alloc_size_operand(sz: X86Operand) -> X86Operand {
    if sz is Immediate { wreg(X86Reg::R10, Width::W64) } else { sz }
}

/// Code generation of instruction `i` succeeds with temporaries colored by `c` and
/// spilled to `sl`: its operands and destination have locations, a binary operation
/// knows its element size, a call's operands are within the limits of a call, a tail
/// call names a known function whose return type has a width or is void; a phi fails.
pub open spec fn instr_ok(c: Seq<Color>, sl: Seq<Option<StackVar>>, st: SymbolTable, i: Instr) -> bool {
    match i {
        Instr::BinOp { op, dest, lhs, rhs } => crate::x86ctx::temp_located(c, sl, dest) && operand_located(c, sl, lhs)
            && operand_located(c, sl, rhs) && !(pointer_add(op, ir_operand_typ(lhs), ir_operand_typ(rhs))
            && ir_operand_typ(lhs) is Array && elem_size(st, ir_operand_typ(lhs)) is None),
        Instr::UnOp { dest, src, .. } => operand_located(c, sl, src) && crate::x86ctx::temp_located(c, sl, dest),
        Instr::Label(_) | Instr::JumpTo(_) | Instr::Throw(_) => true,
        Instr::JumpIf { pred, .. } => operand_located(c, sl, pred),
        Instr::Call { dest, args, .. } => (dest matches Some(t) ==> crate::x86ctx::temp_located(c, sl, t)) && all_located(c, sl, args@)
            && call_operands_ok(
            match dest {
                Some(t) => Some(crate::x86ctx::temp_location(c, sl, t)),
                None => None,
            },
            locations(c, sl, args@),
        ),
        Instr::TailCall { name, args } => all_located(c, sl, args@) && st@.functions.contains_key(name@) && ret_dest(st@.types[name@])
            is Some && (!tail_jump_ok(locations(c, sl, args@)) ==> call_operands_ok(ret_dest(st@.types[name@])->0, locations(c, sl, args@))),
        Instr::Return(src) => src matches Some(o) ==> operand_located(c, sl, o),
        Instr::Move { dest, src } => operand_located(c, sl, src) && crate::x86ctx::temp_located(c, sl, dest),
        Instr::Load { dest, addr } => operand_located(c, sl, addr) && crate::x86ctx::temp_located(c, sl, dest),
        Instr::Store { addr, src } => operand_located(c, sl, addr) && operand_located(c, sl, src),
        Instr::Alloc { dest, size } => operand_located(c, sl, size) && crate::x86ctx::temp_located(c, sl, dest) && call_operands_ok(
            Some(crate::x86ctx::temp_location(c, sl, dest)),
            seq![imm(1, Width::W64), alloc_size_operand(operand_location(c, sl, size))],
        ),
        Instr::AllocArray { dest, size, count } => operand_located(c, sl, size) && operand_located(c, sl, count)
            && crate::x86ctx::temp_located(c, sl, dest),
        Instr::Phi { .. } => false,
    }
}

/// The instruction becomes a call.
pub open spec fn is_call_like(i: Instr) -> bool {
    i is Call || i is TailCall || i is Alloc || i is AllocArray
}

/// Code of a memory access through `a`: the address moved to a register unless it is
/// one, checked against null unless unsafe code is allowed.
pub open spec fn address_code(a: X86Operand, scratch: X86Reg, allow_unsafe: bool) -> (Seq<X86InstrV>, X86Reg) {
    let base = if a is Register { a } else { wreg(scratch, Width::W64) };
    let reg = match a {
        X86Operand::Register(w) => w.register,
        _ => scratch,
    };
    ((if a is Register { Seq::<X86InstrV>::empty() } else { move_code(a, wreg(scratch, Width::W64)) }) + (if allow_unsafe {
        Seq::<X86InstrV>::empty()
    } else {
        trap_zero_code(base, Trap::MemError)
    }), reg)
}

/// Code of an IR instruction that does not become a call, its operands located by `c`
/// and `sl`, its labels prefixed by `prefix`.
pub open spec fn instr_code(c: Seq<Color>, sl: Seq<Option<StackVar>>, st: SymbolTable, prefix: Seq<char>, i: Instr, allow_unsafe: bool)
    -> Seq<X86InstrV> {
    let loc = |o: Operand| operand_location(c, sl, o);
    let tloc = |t: Temp| crate::x86ctx::temp_location(c, sl, t);
    match i {
        Instr::BinOp { op, dest, lhs, rhs } => binop_ir_code(
            op,
            tloc(dest),
            loc(lhs),
            loc(rhs),
            ir_operand_typ(lhs),
            ir_operand_typ(rhs),
            allow_unsafe,
            arith_esize(st, op, ir_operand_typ(lhs), ir_operand_typ(rhs)),
        ),
        Instr::UnOp { op, dest, src } => move_code(loc(src), tloc(dest)) + match op {
            UnOp::Neg => seq![X86InstrV::Neg(tloc(dest))],
            UnOp::Not => seq![X86InstrV::Not(tloc(dest))],
            UnOp::LNot => seq![X86InstrV::Cmp(imm(0, width_of(tloc(dest))), tloc(dest)), X86InstrV::Sete(tloc(dest))],
        },
        Instr::Label(l) => seq![X86InstrV::Label(prefix + decimal_spec(l.0))],
        Instr::JumpTo(l) => seq![X86InstrV::Jmp(prefix + decimal_spec(l.0))],
        Instr::JumpIf { pred, holds, fails } => match loc(pred) {
            X86Operand::Immediate(v) => seq![X86InstrV::Jmp(prefix + decimal_spec(if v.value != 0 { holds.0 } else { fails.0 }))],
            p => seq![
                X86InstrV::Cmp(imm(0, width_of(p)), p),
                X86InstrV::Jne(prefix + decimal_spec(holds.0)),
                X86InstrV::Jmp(prefix + decimal_spec(fails.0)),
            ],
        },
        Instr::Return(src) => (match src {
            Some(o) => move_code(loc(o), wreg(X86Reg::Rax, width_of(loc(o)))),
            None => Seq::<X86InstrV>::empty(),
        }) + seq![X86InstrV::Jmp(prefix + seq!['e', 'x', 'i', 't'])],
        Instr::Throw(_) => seq![X86InstrV::Jmp(trap_label(Trap::Abort))],
        Instr::Move { dest, src } => move_code(loc(src), tloc(dest)),
        Instr::Load { dest, addr } => {
            let a = address_code(loc(addr), X86Reg::R10, allow_unsafe);
            a.0 + move_code(X86Operand::Memory(MemVar { base: a.1, offset: 0, width: width_of(tloc(dest)) }), tloc(dest))
        },
        Instr::Store { addr, src } => {
            let a = address_code(loc(addr), X86Reg::R11, allow_unsafe);
            a.0 + move_code(loc(src), X86Operand::Memory(MemVar { base: a.1, offset: 0, width: width_of(loc(src)) }))
        },
        _ => Seq::<X86InstrV>::empty(),
    }
}

/// Every element of the code is a move.
spec fn only_moves(s: Seq<X86InstrV>) -> bool {
    forall|k: int| 0 <= k < s.len() ==> (#[trigger] s[k]) is Mov || s[k] is Xor
}

proof fn lemma_move_only_moves(src: X86Operand, dest: X86Operand)
    ensures
        only_moves(move_code(src, dest)),
{
}

proof fn lemma_only_moves_concat(a: Seq<X86InstrV>, b: Seq<X86InstrV>)
    requires
        only_moves(a),
        only_moves(b),
    ensures
        only_moves(a + b),
{
    assert forall|k: int| 0 <= k < (a + b).len() implies (#[trigger] (a + b)[k]) is Mov || (a + b)[k] is Xor by {
        if k < a.len() { assert((a + b)[k] == a[k]); } else { assert((a + b)[k] == b[k - a.len()]); }
    }
}

/// Without `-u`, the code of every load and store tests its address against null and
/// jumps to the memory-error trap when it is; with unsafe code allowed, it is only moves
/// and never jumps there.
pub proof fn lemma_memory_access_checks(c: Seq<Color>, sl: Seq<Option<StackVar>>, st: SymbolTable, prefix: Seq<char>, i: Instr)
    requires
        i is Load || i is Store,
    ensures
        instr_code(c, sl, st, prefix, i, false).contains(X86InstrV::Je(trap_label(Trap::MemError))),
        !instr_code(c, sl, st, prefix, i, true).contains(X86InstrV::Je(trap_label(Trap::MemError))),
{
    let (addr, scratch) = match i {
        Instr::Load { addr, .. } => (addr, X86Reg::R10),
        Instr::Store { addr, .. } => (addr, X86Reg::R11),
        _ => (addr_default(), X86Reg::R10),
    };
    let a = operand_location(c, sl, addr);
    let base = if a is Register { a } else { wreg(scratch, Width::W64) };
    let pre = if a is Register { Seq::<X86InstrV>::empty() } else { move_code(a, wreg(scratch, Width::W64)) };
    let safe = address_code(a, scratch, false);
    assert(safe.0 == pre + seq![X86InstrV::Test(base, base), X86InstrV::Je(trap_label(Trap::MemError))]);
    assert(instr_code(c, sl, st, prefix, i, false)[pre.len() as int + 1] == X86InstrV::Je(trap_label(Trap::MemError)));
    let unsafe_code = instr_code(c, sl, st, prefix, i, true);
    lemma_move_only_moves(a, wreg(scratch, Width::W64));
    assert(only_moves(pre));
    assert(address_code(a, scratch, true).0 =~= pre);
    match i {
        Instr::Load { dest, addr } => {
            let t = crate::x86ctx::temp_location(c, sl, dest);
            let m = X86Operand::Memory(MemVar { base: address_code(a, scratch, true).1, offset: 0, width: width_of(t) });
            lemma_move_only_moves(m, t);
            lemma_only_moves_concat(pre, move_code(m, t));
            assert(unsafe_code =~= pre + move_code(m, t));
        },
        Instr::Store { addr, src } => {
            let v = operand_location(c, sl, src);
            let m = X86Operand::Memory(MemVar { base: address_code(a, scratch, true).1, offset: 0, width: width_of(v) });
            lemma_move_only_moves(v, m);
            lemma_only_moves_concat(pre, move_code(v, m));
            assert(unsafe_code =~= pre + move_code(v, m));
        },
        _ => {},
    }
    if unsafe_code.contains(X86InstrV::Je(trap_label(Trap::MemError))) {
        let k = choose|k: int| 0 <= k < unsafe_code.len() && unsafe_code[k] == X86InstrV::Je(trap_label(Trap::MemError));
        assert(unsafe_code[k] is Mov || unsafe_code[k] is Xor);
    }
}

/// Without `-u`, a shift by an amount held in a location first compares the amount with
/// 0 and with 31, jumping to the arithmetic trap when it is out of range; with unsafe
/// code allowed, the shift is done directly.
pub proof fn lemma_shift_checks(op: BinOp, dest: X86Operand, lhs: X86Operand, rhs: X86Operand)
    requires
        !(rhs is Immediate),
    ensures
        shift_code(op, dest, lhs, rhs, false).take(4) == seq![
            X86InstrV::Cmp(crate::x86ctx::imm(0, width_of(rhs)), rhs),
            X86InstrV::Jl(trap_label(Trap::Sigfpe)),
            X86InstrV::Cmp(crate::x86ctx::imm(31, width_of(rhs)), rhs),
            X86InstrV::Jg(trap_label(Trap::Sigfpe)),
        ],
        shift_code(op, dest, lhs, rhs, true) == variable_shift_code(op, dest, lhs, rhs),
{
    assert(shift_code(op, dest, lhs, rhs, false).take(4) =~= seq![
        X86InstrV::Cmp(crate::x86ctx::imm(0, width_of(rhs)), rhs),
        X86InstrV::Jl(trap_label(Trap::Sigfpe)),
        X86InstrV::Cmp(crate::x86ctx::imm(31, width_of(rhs)), rhs),
        X86InstrV::Jg(trap_label(Trap::Sigfpe)),
    ]);
    assert(shift_code(op, dest, lhs, rhs, true) =~= variable_shift_code(op, dest, lhs, rhs));
}

/// An operand, for instructions that have no address.
spec fn addr_default() -> Operand {
    Operand::Const((0, Typ::Int))
}

/// A copy of a list of x86 operands.
fn clone_operands_x86(v: &Vec<X86Operand>) -> (r: Vec<X86Operand>)
    ensures
        r@ == v@,
{
    let mut r: Vec<X86Operand> = Vec::new();
    let mut i: usize = 0;
    while i < v.len()
        invariant
            i <= v@.len(),
            r@ == v@.take(i as int),
        decreases v@.len() - i,
    {
        r.push(v[i]);
        proof {
            assert(v@.take(i + 1) =~= v@.take(i as int).push(v@[i as int]));
        }
        i = i + 1;
    }
    proof {
        assert(v@.take(v@.len() as int) =~= v@);
    }
    r
}

/// Generate the code of a load or store (see `instr_code`).
#[verifier::rlimit(50)]
#[verifier::spinoff_prover]
fn gen_memory_instr(ctx: &mut X86Context, instruction: &Instr, allow_unsafe: bool) -> (r: Result<(), String>)
    requires
        old(ctx).wf(),
        instruction is Load || instruction is Store,
    ensures
        same_frame(*old(ctx), *final(ctx)),
        final(ctx).colors() == old(ctx).colors(),
        final(ctx).slots() == old(ctx).slots(),
        r is Ok <==> match *instruction {
            Instr::Load { dest, addr } => operand_located(old(ctx).colors(), old(ctx).slots(), addr)
                && crate::x86ctx::temp_located(old(ctx).colors(), old(ctx).slots(), dest),
            Instr::Store { addr, src } => operand_located(old(ctx).colors(), old(ctx).slots(), addr)
                && operand_located(old(ctx).colors(), old(ctx).slots(), src),
            _ => false,
        },
        r is Ok ==> final(ctx).code() == old(ctx).code() + match *instruction {
            Instr::Load { dest, addr } => {
                let a = address_code(operand_location(old(ctx).colors(), old(ctx).slots(), addr), X86Reg::R10, allow_unsafe);
                let d = crate::x86ctx::temp_location(old(ctx).colors(), old(ctx).slots(), dest);
                a.0 + move_code(X86Operand::Memory(MemVar { base: a.1, offset: 0, width: width_of(d) }), d)
            },
            Instr::Store { addr, src } => {
                let a = address_code(operand_location(old(ctx).colors(), old(ctx).slots(), addr), X86Reg::R11, allow_unsafe);
                let sv = operand_location(old(ctx).colors(), old(ctx).slots(), src);
                a.0 + move_code(sv, X86Operand::Memory(MemVar { base: a.1, offset: 0, width: width_of(sv) }))
            },
            _ => Seq::<X86InstrV>::empty(),
        },
{
    match instruction {
        Instr::Load { dest, addr } => {
            let a = ctx.locate_operand(addr)?;
            let d = ctx.locate(dest)?;
            let base = match a {
                X86Operand::Register(_) => a,
                _ => {
                    let b = X86Operand::Register(X86WReg::scratch(Width::W64));
                    ctx.emit_move(a, b);
                    b
                },
            };
            if !allow_unsafe {
                ctx.emit_trap_if_zero(base, Trap::MemError);
            }
            let reg = base_register(base)?;
            ctx.emit_move(X86Operand::Memory(MemVar { base: reg, offset: 0, width: d.width() }), d);
            Ok(())
        },
        Instr::Store { addr, src } => {
            let a = ctx.locate_operand(addr)?;
            let s = ctx.locate_operand(src)?;
            let base = match a {
                X86Operand::Register(_) => a,
                _ => {
                    let b = X86Operand::Register(X86WReg::scratch2(Width::W64));
                    ctx.emit_move(a, b);
                    b
                },
            };
            if !allow_unsafe {
                ctx.emit_trap_if_zero(base, Trap::MemError);
            }
            let reg = base_register(base)?;
            ctx.emit_move(s, X86Operand::Memory(MemVar { base: reg, offset: 0, width: s.width() }));
            Ok(())
        },
        _ => Err(x86_error("not a memory access")),
    }
}

/// Name under which a function is called: a header function under its own name, a
/// function of the source under `_c0_` and its name.
pub open spec fn call_target(st: SymbolTable, name: Seq<char>) -> Seq<char> {
    if st@.header.contains(name) {
        name
    } else {
        seq!['_', 'c', '0', '_'] + name
    }
}

/// The code of a call-like instruction calls its target, and nothing else: the called
/// function (or, for a tail call, jumps to it), or `calloc` for an allocation.
pub open spec fn call_seg_ok(st: SymbolTable, i: Instr, seg: Seq<X86InstrV>) -> bool {
    match i {
        Instr::Call { name, .. } => seg.contains(X86InstrV::Call(call_target(st, name@)))
            && calls_only_to(seg, call_target(st, name@)),
        Instr::TailCall { name, .. } => (seg.contains(X86InstrV::Call(call_target(st, name@)))
            || seg.contains(X86InstrV::Jmp(call_target(st, name@)))) && calls_only_to(seg, call_target(st, name@)),
        Instr::Alloc { .. } | Instr::AllocArray { .. } => seg.contains(X86InstrV::Call(seq!['c', 'a', 'l', 'l', 'o', 'c']))
            && calls_only_to(seg, seq!['c', 'a', 'l', 'l', 'o', 'c']),
        _ => true,
    }
}

/// What code `a` gained on the way to `b`, beyond `c0`, calls only `target`.
proof fn lemma_step_calls(c0: Seq<X86InstrV>, a: Seq<X86InstrV>, t: Seq<X86InstrV>, b: Seq<X86InstrV>, target: Seq<char>)
    requires
        b == a + t,
        c0.len() <= a.len(),
        calls_only_to(a.subrange(c0.len() as int, a.len() as int), target),
        no_calls(t) || calls_only_to(t, target),
    ensures
        calls_only_to(b.subrange(c0.len() as int, b.len() as int), target),
{
    lemma_calls_concat(t, t, target);
    let x = a.subrange(c0.len() as int, a.len() as int);
    lemma_calls_concat(x, t, target);
    assert(b.subrange(c0.len() as int, b.len() as int) =~= x + t);
}

/// Nothing gained calls anything.
proof fn lemma_start_calls(c0: Seq<X86InstrV>, target: Seq<char>)
    ensures
        calls_only_to(c0.subrange(c0.len() as int, c0.len() as int), target),
{
}

/// A tail jump holds no call.
proof fn lemma_tail_no_calls(args: Seq<X86Operand>, regs: Seq<X86Reg>)
    ensures
        no_calls(arg_moves(args)),
        no_calls(restore_code(regs)),
    decreases args.len() + regs.len(),
{
    if args.len() > 0 {
        lemma_tail_no_calls(args.drop_last(), regs);
        let i = args.len() - 1;
        lemma_move_no_calls(args[i], wreg(call_argument_spec()[i], width_of(args[i])));
        lemma_calls_concat(arg_moves(args.drop_last()), move_code(args[i], wreg(call_argument_spec()[i], width_of(args[i]))), seq![]);
    }
    if regs.len() > 0 {
        lemma_tail_no_calls(Seq::empty(), regs.drop_last());
        let m = seq![X86InstrV::Mov(
            X86Operand::Stack(StackVar { offset: (-((regs.len() as int) * 8)) as i64, width: Width::W64 }),
            wreg(regs.last(), Width::W64),
        )];
        lemma_calls_concat(restore_code(regs.drop_last()), m, seq![]);
    }
}

/// Code `a` grows into `d` through `b` and `c`; what `c` added to `b` is in what `d`
/// added to `a`.
proof fn lemma_widen(a: Seq<X86InstrV>, b: Seq<X86InstrV>, c: Seq<X86InstrV>, d: Seq<X86InstrV>, x: X86InstrV)
    requires
        a.is_prefix_of(b),
        b.is_prefix_of(c),
        c.is_prefix_of(d),
        c.subrange(b.len() as int, c.len() as int).contains(x),
    ensures
        a.is_prefix_of(d),
        d.subrange(a.len() as int, d.len() as int).contains(x),
{
    let k = choose|k: int| 0 <= k < c.subrange(b.len() as int, c.len() as int).len()
        && c.subrange(b.len() as int, c.len() as int)[k] == x;
    assert(c[b.len() + k] == x);
    assert(d[b.len() + k] == c[b.len() + k]);
    assert(d.subrange(a.len() as int, d.len() as int)[b.len() + k - a.len()] == x);
    assert forall|j: int| 0 <= j < a.len() implies d[j] == a[j] by {
        assert(b[j] == a[j]);
        assert(c[j] == b[j]);
        assert(d[j] == c[j]);
    }
    assert(a =~= d.subrange(0, a.len() as int));
}

/// Code `a` grows into `c` through `b`.
proof fn lemma_prefix_trans(a: Seq<X86InstrV>, b: Seq<X86InstrV>, c: Seq<X86InstrV>)
    requires
        a.is_prefix_of(b),
        b.is_prefix_of(c),
    ensures
        a.is_prefix_of(c),
{
    assert forall|j: int| 0 <= j < a.len() implies c[j] == a[j] by {
        assert(b[j] == a[j]);
        assert(c[j] == b[j]);
    }
    assert(a =~= c.subrange(0, a.len() as int));
}

/// Emitting code makes the code grow.
proof fn lemma_grows(a: X86Context, b: X86Context)
    requires
        exists|t: Seq<X86InstrV>| #[trigger] a.emits(&b, t),
    ensures
        a.code().is_prefix_of(b.code()),
{
    let t = choose|t: Seq<X86InstrV>| #[trigger] a.emits(&b, t);
    lemma_prefix_append(a.code(), t);
}

/// Code grows into itself.
proof fn lemma_prefix_refl(a: Seq<X86InstrV>)
    ensures
        a.is_prefix_of(a),
{
    assert(a =~= a.subrange(0, a.len() as int));
}

/// Code grows by what is appended to it.
proof fn lemma_prefix_append(a: Seq<X86InstrV>, t: Seq<X86InstrV>)
    ensures
        a.is_prefix_of(a + t),
{
    assert(a =~= (a + t).subrange(0, a.len() as int));
}

/// Generate the code of a call: the destination and arguments located, then the call.
#[verifier::rlimit(50)]
#[verifier::spinoff_prover]
fn gen_call(ctx: &mut X86Context, instruction: &Instr, symbol_table: &SymbolTable, allow_unsafe: bool) -> (r: Result<(), String>)
    requires
        old(ctx).wf(),
        symbol_table.wf(),
        instruction is Call,
    ensures
        same_frame(*old(ctx), *final(ctx)),
        final(ctx).colors() == old(ctx).colors(),
        final(ctx).slots() == old(ctx).slots(),
        r is Ok <==> instr_ok(old(ctx).colors(), old(ctx).slots(), *symbol_table, *instruction),
        r is Ok ==> old(ctx).code().is_prefix_of(final(ctx).code()) && call_seg_ok(*symbol_table, *instruction,
            final(ctx).code().subrange(old(ctx).code().len() as int, final(ctx).code().len() as int)),
{
    let ghost c0 = ctx.code();
    match instruction {
        Instr::Call { dest, name, args } => {
            let d = match dest {
                Some(t) => Some(ctx.locate(t)?),
                None => None,
            };
            let a = locate_all(ctx, args)?;
            assert(a@ =~= locations(old(ctx).colors(), old(ctx).slots(), args@));
            let callee = callee_name(name, symbol_table);
            if !call_ok(&d, &a) {
                return Err(x86_error("call operands out of range"));
            }
            let ghost cb = ctx.code();
            let ghost sb = *ctx;
            let ghost dv = d;
            let ghost av = a@;
            let ghost target = callee@;
            ctx.emit_call(d, a, callee);
            proof {
                lemma_prefix_refl(c0);
                assert(cb =~= ctx.code().subrange(0, cb.len() as int));
                lemma_prefix_refl(ctx.code());
                lemma_widen(c0, cb, ctx.code(), ctx.code(), X86InstrV::Call(target));
                let ret = match dv { Some(X86Operand::Register(w)) => Some(w.register), _ => None };
                let saved = sb.caller().filter(not_ret(ret));
                lemma_call_code_calls(saved, dv, av, target);
                lemma_start_calls(c0, target);
                lemma_step_calls(c0, cb, call_code(saved, dv, av, target), ctx.code(), target);
            }
            Ok(())
        },
        _ => Err(x86_error("not a call")),
    }
}

/// Generate the code of a tail call: a jump where the arguments allow one, else a call
/// followed by a return.
#[verifier::rlimit(50)]
#[verifier::spinoff_prover]
fn gen_tail_call(ctx: &mut X86Context, instruction: &Instr, symbol_table: &SymbolTable, allow_unsafe: bool) -> (r: Result<(), String>)
    requires
        old(ctx).wf(),
        symbol_table.wf(),
        instruction is TailCall,
    ensures
        same_frame(*old(ctx), *final(ctx)),
        final(ctx).colors() == old(ctx).colors(),
        final(ctx).slots() == old(ctx).slots(),
        r is Ok <==> instr_ok(old(ctx).colors(), old(ctx).slots(), *symbol_table, *instruction),
        r is Ok ==> old(ctx).code().is_prefix_of(final(ctx).code()) && call_seg_ok(*symbol_table, *instruction,
            final(ctx).code().subrange(old(ctx).code().len() as int, final(ctx).code().len() as int)),
{
    let ghost c0 = ctx.code();
    match instruction {
        Instr::TailCall { name, args } => {
            let a = locate_all(ctx, args)?;
            let return_typ = match symbol_table.get_function_signature(name) {
                Some(sig) => sig.0,
                None => return Err(x86_error("call of an unknown function")),
            };
            let call_dest = match return_typ {
                Typ::Void => None,
                _ => Some(X86Operand::Register(X86WReg::ret(return_type_width(&return_typ)?))),
            };
            let callee = callee_name(name, symbol_table);
            let a2 = clone_operands_x86(&a);
            assert(a@ =~= locations(old(ctx).colors(), old(ctx).slots(), args@));
            let ghost target = callee@;
            let callee2 = callee.clone();
            let ghost s_before = *ctx;
            let ghost av = a@;
            if !ctx.emit_tail_call(a, callee2) {
                if !call_ok(&call_dest, &a2) {
                    return Err(x86_error("call operands out of range"));
                }
                let ghost cb = ctx.code();
                let ghost sb = *ctx;
                let ghost dv = call_dest;
                let ghost av2 = a2@;
                ctx.emit_call(call_dest, a2, callee);
                let ghost s_call = *ctx;
                ctx.emit_return(None);
                proof {
                    lemma_prefix_refl(c0);
                    assert(cb =~= s_call.code().subrange(0, cb.len() as int));
                    lemma_grows(s_call, *ctx);
                    lemma_widen(c0, cb, s_call.code(), ctx.code(), X86InstrV::Call(target));
                    let ret = match dv { Some(X86Operand::Register(w)) => Some(w.register), _ => None };
                    let saved = sb.caller().filter(not_ret(ret));
                    lemma_call_code_calls(saved, dv, av2, target);
                    lemma_start_calls(c0, target);
                    lemma_step_calls(c0, cb, call_code(saved, dv, av2, target), s_call.code(), target);
                    let rt = seq![X86InstrV::Jmp(s_call.prefix() + seq!['e', 'x', 'i', 't'])];
                    assert(no_calls(rt));
                    assert(ctx.code() == s_call.code() + Seq::<X86InstrV>::empty() + rt);
                    assert(Seq::<X86InstrV>::empty() + rt =~= rt);
                    lemma_step_calls(c0, s_call.code(), rt, ctx.code(), target);
                }
            } else {
                proof {
                    lemma_grows(s_before, *ctx);
                    let tail = ctx.code().subrange(c0.len() as int, ctx.code().len() as int);
                    assert(tail[tail.len() - 1] == X86InstrV::Jmp(target));
                    let fr = if s_before.frame() > 0 {
                        seq![X86InstrV::Add(imm(s_before.frame() as i64, Width::W64), rsp())]
                    } else {
                        Seq::<X86InstrV>::empty()
                    };
                    let t = arg_moves(av) + fr + restore_code(s_before.callee()) + seq![X86InstrV::Jmp(target)];
                    lemma_tail_no_calls(av, s_before.callee());
                    lemma_calls_concat(arg_moves(av), fr, target);
                    lemma_calls_concat(arg_moves(av) + fr, restore_code(s_before.callee()), target);
                    lemma_calls_concat(arg_moves(av) + fr + restore_code(s_before.callee()), seq![X86InstrV::Jmp(target)], target);
                    lemma_start_calls(c0, target);
                    lemma_step_calls(c0, s_before.code(), t, ctx.code(), target);
                }
            }
            Ok(())
        },
        _ => Err(x86_error("not a call")),
    }
}

/// Generate the code of an allocation of one element: a call of `calloc`.
#[verifier::rlimit(50)]
#[verifier::spinoff_prover]
fn gen_alloc(ctx: &mut X86Context, instruction: &Instr, symbol_table: &SymbolTable, allow_unsafe: bool) -> (r: Result<(), String>)
    requires
        old(ctx).wf(),
        symbol_table.wf(),
        instruction is Alloc,
    ensures
        same_frame(*old(ctx), *final(ctx)),
        final(ctx).colors() == old(ctx).colors(),
        final(ctx).slots() == old(ctx).slots(),
        r is Ok <==> instr_ok(old(ctx).colors(), old(ctx).slots(), *symbol_table, *instruction),
        r is Ok ==> old(ctx).code().is_prefix_of(final(ctx).code()) && call_seg_ok(*symbol_table, *instruction,
            final(ctx).code().subrange(old(ctx).code().len() as int, final(ctx).code().len() as int)),
{
    let ghost c0 = ctx.code();
    match instruction {
        Instr::Alloc { dest, size } => {
            let sz = ctx.locate_operand(size)?;
            proof { lemma_start_calls(c0, seq!['c', 'a', 'l', 'l', 'o', 'c']); }
            let sz = match sz {
                X86Operand::Immediate(_) => {
                    let tmp = X86Operand::Register(X86WReg::scratch(Width::W64));
                    let ghost sm = *ctx;
                    ctx.emit_move(sz, tmp);
                    proof {
                        lemma_grows(sm, *ctx);
                        lemma_move_no_calls(sz, tmp);
                        lemma_step_calls(c0, sm.code(), move_code(sz, tmp), ctx.code(), seq!['c', 'a', 'l', 'l', 'o', 'c']);
                    }
                    tmp
                },
                _ => {
                    proof { lemma_prefix_refl(c0); }
                    sz
                },
            };
            let d = ctx.locate(dest)?;
            let args = vec![X86Operand::Immediate(Immediate { value: 1, width: Width::W64 }), sz];
            if !call_ok(&Some(d), &args) {
                return Err(x86_error("call operands out of range"));
            }
            let ghost cb = ctx.code();
            let ghost sb = *ctx;
            let ghost av = args@;
            let name = calloc_name();
            let ghost target = name@;
            ctx.emit_call(Some(d), args, name);
            proof {
                let dv = Some(d);
                let ret = match dv { Some(X86Operand::Register(w)) => Some(w.register), _ => None };
                let saved = sb.caller().filter(not_ret(ret));
                lemma_call_code_calls(saved, dv, av, target);
                lemma_step_calls(c0, cb, call_code(saved, dv, av, target), ctx.code(), target);
                assert(cb =~= ctx.code().subrange(0, cb.len() as int));
                assert(c0.is_prefix_of(cb));
                lemma_prefix_refl(ctx.code());
                lemma_widen(c0, cb, ctx.code(), ctx.code(), X86InstrV::Call(target));
            }
            Ok(())
        },
        _ => Err(x86_error("not a call")),
    }
}

/// Generate the code of an array allocation: the count checked unless unsafe code is
/// allowed, a call of `calloc` for the elements and a header with the length.
#[verifier::rlimit(50)]
#[verifier::spinoff_prover]
fn gen_alloc_array(ctx: &mut X86Context, instruction: &Instr, symbol_table: &SymbolTable, allow_unsafe: bool) -> (r: Result<(), String>)
    requires
        old(ctx).wf(),
        symbol_table.wf(),
        instruction is AllocArray,
    ensures
        same_frame(*old(ctx), *final(ctx)),
        final(ctx).colors() == old(ctx).colors(),
        final(ctx).slots() == old(ctx).slots(),
        r is Ok <==> instr_ok(old(ctx).colors(), old(ctx).slots(), *symbol_table, *instruction),
        r is Ok ==> old(ctx).code().is_prefix_of(final(ctx).code()) && call_seg_ok(*symbol_table, *instruction,
            final(ctx).code().subrange(old(ctx).code().len() as int, final(ctx).code().len() as int)),
{
    let ghost c0 = ctx.code();
    match instruction {
        Instr::AllocArray { dest, size, count } => {
            let sz = ctx.locate_operand(size)?;
            let cnt = ctx.locate_operand(count)?;
            proof { lemma_prefix_refl(c0); lemma_start_calls(c0, seq!['c', 'a', 'l', 'l', 'o', 'c']); }
            if !allow_unsafe {
                let ghost s1 = *ctx;
                ctx.emit_trap_if_lesser(cnt, 0, Trap::MemError);
                proof { lemma_grows(s1, *ctx); lemma_traps_no_calls(cnt, 0, Trap::MemError); lemma_step_calls(c0, s1.code(), trap_lesser_code(cnt, 0, Trap::MemError), ctx.code(), seq!['c', 'a', 'l', 'l', 'o', 'c']); lemma_prefix_trans(c0, s1.code(), ctx.code()); }
            }
            let bytes = X86Operand::Register(X86WReg { register: X86WReg::scratch2(Width::W64).register, width: Width::W64 });
            let ghost s2 = *ctx;
            let count_wide = to_w64_reg(ctx, cnt, X86WReg::scratch2(Width::W64));
            proof { lemma_grows(s2, *ctx); lemma_move_no_calls(cnt, wreg(X86Reg::R11, width_of(cnt))); lemma_step_calls(c0, s2.code(), move_code(cnt, wreg(X86Reg::R11, width_of(cnt))), ctx.code(), seq!['c', 'a', 'l', 'l', 'o', 'c']); lemma_prefix_trans(c0, s2.code(), ctx.code()); }
            let ghost s3 = *ctx;
            ctx.emit_move(count_wide, bytes);
            proof { lemma_grows(s3, *ctx); lemma_move_no_calls(count_wide, bytes); lemma_step_calls(c0, s3.code(), move_code(count_wide, bytes), ctx.code(), seq!['c', 'a', 'l', 'l', 'o', 'c']); lemma_prefix_trans(c0, s3.code(), ctx.code()); }
            let ghost s4 = *ctx;
            ctx.emit_binary_op(BinOp::Mul, Some(sz), Some(bytes));
            proof { lemma_grows(s4, *ctx); lemma_binop_no_calls(BinOp::Mul, Some(sz), Some(bytes)); lemma_step_calls(c0, s4.code(), binop_code(BinOp::Mul, Some(sz), Some(bytes)), ctx.code(), seq!['c', 'a', 'l', 'l', 'o', 'c']); lemma_prefix_trans(c0, s4.code(), ctx.code()); }
            let alloc_size = X86Operand::Register(X86WReg::scratch(Width::W64));
            let ghost s5 = *ctx;
            ctx.emit_move(bytes, alloc_size);
            proof { lemma_grows(s5, *ctx); lemma_move_no_calls(bytes, alloc_size); lemma_step_calls(c0, s5.code(), move_code(bytes, alloc_size), ctx.code(), seq!['c', 'a', 'l', 'l', 'o', 'c']); lemma_prefix_trans(c0, s5.code(), ctx.code()); }
            let ghost s6 = *ctx;
            ctx.emit_binary_op(BinOp::Add, Some(X86Operand::Immediate(Immediate { value: 8, width: Width::W64 })), Some(alloc_size));
            proof { lemma_grows(s6, *ctx); lemma_binop_no_calls(BinOp::Add, Some(imm(8, Width::W64)), Some(alloc_size)); lemma_step_calls(c0, s6.code(), binop_code(BinOp::Add, Some(imm(8, Width::W64)), Some(alloc_size)), ctx.code(), seq!['c', 'a', 'l', 'l', 'o', 'c']); lemma_prefix_trans(c0, s6.code(), ctx.code()); }
            let ghost s7 = *ctx;
            ctx.emit_binary_op(
                BinOp::Sub,
                Some(X86Operand::Immediate(Immediate { value: 16, width: Width::W64 })),
                Some(X86Operand::Register(X86WReg::stack_pointer())),
            );
            proof { lemma_grows(s7, *ctx); lemma_binop_no_calls(BinOp::Sub, Some(imm(16, Width::W64)), Some(rsp())); lemma_step_calls(c0, s7.code(), binop_code(BinOp::Sub, Some(imm(16, Width::W64)), Some(rsp())), ctx.code(), seq!['c', 'a', 'l', 'l', 'o', 'c']); lemma_prefix_trans(c0, s7.code(), ctx.code()); }
            let ghost s8 = *ctx;
            ctx.emit_move(bytes, X86Operand::Memory(MemVar { base: X86WReg::stack_pointer().register, offset: 0, width: Width::W64 }));
            proof { lemma_grows(s8, *ctx); lemma_move_no_calls(bytes, X86Operand::Memory(MemVar { base: X86Reg::Rsp, offset: 0, width: Width::W64 })); lemma_step_calls(c0, s8.code(), move_code(bytes, X86Operand::Memory(MemVar { base: X86Reg::Rsp, offset: 0, width: Width::W64 })), ctx.code(), seq!['c', 'a', 'l', 'l', 'o', 'c']); lemma_prefix_trans(c0, s8.code(), ctx.code()); }
            let pointer = X86Operand::Register(X86WReg::scratch(Width::W64));
            let args = vec![X86Operand::Immediate(Immediate { value: 1, width: Width::W64 }), alloc_size];
            if !call_ok(&Some(pointer), &args) {
                return Err(x86_error("call operands out of range"));
            }
            let ghost s9 = *ctx;
            let ghost av = args@;
            let name = calloc_name();
            let ghost target = name@;
            ctx.emit_call(Some(pointer), args, name);
            let ghost ca = ctx.code();
            proof {
                let saved = s9.caller().filter(not_ret(Some(X86Reg::R10)));
                lemma_call_code_calls(saved, Some(pointer), av, target);
                lemma_step_calls(c0, s9.code(), call_code(saved, Some(pointer), av, target), ctx.code(), target);
                assert(s9.code() =~= ca.subrange(0, s9.code().len() as int));
                lemma_prefix_refl(ca);
            }
            let ghost s10 = *ctx;
            ctx.emit_move(X86Operand::Memory(MemVar { base: X86WReg::stack_pointer().register, offset: 0, width: Width::W64 }), bytes);
            proof { lemma_grows(s10, *ctx); lemma_move_no_calls(X86Operand::Memory(MemVar { base: X86Reg::Rsp, offset: 0, width: Width::W64 }), bytes); lemma_step_calls(c0, s10.code(), move_code(X86Operand::Memory(MemVar { base: X86Reg::Rsp, offset: 0, width: Width::W64 }), bytes), ctx.code(), seq!['c', 'a', 'l', 'l', 'o', 'c']); lemma_prefix_trans(ca, s10.code(), ctx.code()); }
            let ghost s11 = *ctx;
            ctx.emit_binary_op(
                BinOp::Add,
                Some(X86Operand::Immediate(Immediate { value: 16, width: Width::W64 })),
                Some(X86Operand::Register(X86WReg::stack_pointer())),
            );
            proof { lemma_grows(s11, *ctx); lemma_binop_no_calls(BinOp::Add, Some(imm(16, Width::W64)), Some(rsp())); lemma_step_calls(c0, s11.code(), binop_code(BinOp::Add, Some(imm(16, Width::W64)), Some(rsp())), ctx.code(), seq!['c', 'a', 'l', 'l', 'o', 'c']); lemma_prefix_trans(ca, s11.code(), ctx.code()); }
            let ghost s12 = *ctx;
            ctx.emit_move(bytes, X86Operand::Memory(MemVar { base: X86WReg::scratch(Width::W64).register, offset: 0, width: Width::W64 }));
            proof { lemma_grows(s12, *ctx); lemma_move_no_calls(bytes, X86Operand::Memory(MemVar { base: X86Reg::R10, offset: 0, width: Width::W64 })); lemma_step_calls(c0, s12.code(), move_code(bytes, X86Operand::Memory(MemVar { base: X86Reg::R10, offset: 0, width: Width::W64 })), ctx.code(), seq!['c', 'a', 'l', 'l', 'o', 'c']); lemma_prefix_trans(ca, s12.code(), ctx.code()); }
            let ghost s13 = *ctx;
            ctx.emit_binary_op(BinOp::Add, Some(X86Operand::Immediate(Immediate { value: 8, width: Width::W64 })), Some(pointer));
            proof { lemma_grows(s13, *ctx); lemma_binop_no_calls(BinOp::Add, Some(imm(8, Width::W64)), Some(pointer)); lemma_step_calls(c0, s13.code(), binop_code(BinOp::Add, Some(imm(8, Width::W64)), Some(pointer)), ctx.code(), seq!['c', 'a', 'l', 'l', 'o', 'c']); lemma_prefix_trans(ca, s13.code(), ctx.code()); }
            let d = ctx.locate(dest)?;
            let ghost s14 = *ctx;
            ctx.emit_move(pointer, d);
            proof {
                lemma_grows(s14, *ctx);
                lemma_move_no_calls(pointer, d);
                lemma_step_calls(c0, s14.code(), move_code(pointer, d), ctx.code(), seq!['c', 'a', 'l', 'l', 'o', 'c']);
                lemma_prefix_trans(ca, s14.code(), ctx.code());
                lemma_widen(c0, s9.code(), ca, ctx.code(), X86InstrV::Call(target));
            }
            Ok(())
        },
        _ => Err(x86_error("not a call")),
    }
}

/// Generate the code of an instruction that becomes a call.
fn gen_call_instr(ctx: &mut X86Context, instruction: &Instr, symbol_table: &SymbolTable, allow_unsafe: bool) -> (r: Result<(), String>)
    requires
        old(ctx).wf(),
        symbol_table.wf(),
        is_call_like(*instruction),
    ensures
        same_frame(*old(ctx), *final(ctx)),
        final(ctx).colors() == old(ctx).colors(),
        final(ctx).slots() == old(ctx).slots(),
        r is Ok <==> instr_ok(old(ctx).colors(), old(ctx).slots(), *symbol_table, *instruction),
        r is Ok ==> old(ctx).code().is_prefix_of(final(ctx).code()) && call_seg_ok(*symbol_table, *instruction,
            final(ctx).code().subrange(old(ctx).code().len() as int, final(ctx).code().len() as int)),
{
    match instruction {
        Instr::Call { .. } => gen_call(ctx, instruction, symbol_table, allow_unsafe),
        Instr::TailCall { .. } => gen_tail_call(ctx, instruction, symbol_table, allow_unsafe),
        Instr::Alloc { .. } => gen_alloc(ctx, instruction, symbol_table, allow_unsafe),
        Instr::AllocArray { .. } => gen_alloc_array(ctx, instruction, symbol_table, allow_unsafe),
        _ => Err(x86_error("not a call")),
    }
}

/// Generate the code of one IR instruction.
fn gen_instr(ctx: &mut X86Context, instruction: &Instr, symbol_table: &SymbolTable, allow_unsafe: bool) -> (r: Result<(), String>)
    requires
        old(ctx).wf(),
        symbol_table.wf(),
    ensures
        same_frame(*old(ctx), *final(ctx)),
        final(ctx).colors() == old(ctx).colors(),
        final(ctx).slots() == old(ctx).slots(),
        r is Ok <==> instr_ok(old(ctx).colors(), old(ctx).slots(), *symbol_table, *instruction),
        r is Ok && !is_call_like(*instruction) ==> final(ctx).code() == old(ctx).code() + instr_code(
            old(ctx).colors(),
            old(ctx).slots(),
            *symbol_table,
            old(ctx).prefix(),
            *instruction,
            allow_unsafe,
        ),
        r is Ok && is_call_like(*instruction) ==> old(ctx).code().is_prefix_of(final(ctx).code()) && call_seg_ok(
            *symbol_table,
            *instruction,
            final(ctx).code().subrange(old(ctx).code().len() as int, final(ctx).code().len() as int),
        ),
{
    match instruction {
        Instr::BinOp { op, dest, lhs: l, rhs: r } => gen_binop(ctx, *op, dest, l, r, symbol_table, allow_unsafe),
        Instr::UnOp { op, dest, src } => {
            let s = ctx.locate_operand(src)?;
            let d = ctx.locate(dest)?;
            ctx.emit_move(s, d);
            ctx.emit_unary_op(*op, d);
            Ok(())
        },
        Instr::Label(label) => {
            ctx.emit_label(label.0);
            Ok(())
        },
        Instr::JumpTo(label) => {
            ctx.emit_jump(label.0);
            Ok(())
        },
        Instr::JumpIf { pred, holds, fails } => {
            let p = ctx.locate_operand(pred)?;
            match p {
                X86Operand::Immediate(i) => ctx.emit_jump(if i.value != 0 { holds.0 } else { fails.0 }),
                _ => ctx.emit_conditional(p, holds.0, fails.0),
            }
            Ok(())
        },
        Instr::Return(src) => {
            let s = match src {
                Some(o) => Some(ctx.locate_operand(o)?),
                None => None,
            };
            ctx.emit_return(s);
            Ok(())
        },
        Instr::Throw(exception) => {
            match exception {
                Exception::Abort => ctx.emit_trap_jump(Trap::Abort),
            }
            Ok(())
        },
        Instr::Move { dest, src } => {
            let s = ctx.locate_operand(src)?;
            let d = ctx.locate(dest)?;
            ctx.emit_move(s, d);
            Ok(())
        },
        Instr::Load { .. } | Instr::Store { .. } => gen_memory_instr(ctx, instruction, allow_unsafe),
        Instr::Call { .. } | Instr::TailCall { .. } | Instr::Alloc { .. } | Instr::AllocArray { .. } => gen_call_instr(
            ctx,
            instruction,
            symbol_table,
            allow_unsafe,
        ),
        Instr::Phi { .. } => Err(x86_error("phi instruction in code generation")),
    }
}

/// Generate the x86-64 code of a function from its linear IR: the code of each
/// instruction in order, then the epilogue (exit label, release of the frame, `ret`).
pub fn generate_function(ctx: &mut X86Context, ir_instructions: Vec<Instr>, symbol_table: &SymbolTable, allow_unsafe: bool)
    -> (r: Result<Vec<X86Instr>, String>)
    requires
        old(ctx).wf(),
        symbol_table.wf(),
    ensures
        r matches Ok(v) ==> exists|segs: Seq<Seq<X86InstrV>>|
            #[trigger] segments_ok(old(ctx).colors(), old(ctx).slots(), *symbol_table, old(ctx).prefix(), ir_instructions@, segs, allow_unsafe)
            && code_of(v@) == old(ctx).code() + flatten_code(segs) + epilogue(old(ctx).prefix(), old(ctx).frame(), old(ctx).callee()),
        r is Ok <==> forall|i: int| 0 <= i < ir_instructions@.len() ==> instr_ok(
            old(ctx).colors(),
            old(ctx).slots(),
            *symbol_table,
            #[trigger] ir_instructions@[i],
        ),
{
    let ghost mut segs: Seq<Seq<X86InstrV>> = Seq::empty();
    let mut i: usize = 0;
    while i < ir_instructions.len()
        invariant
            symbol_table.wf(),
            same_frame(*old(ctx), *ctx),
            ctx.colors() == old(ctx).colors(),
            ctx.slots() == old(ctx).slots(),
            i <= ir_instructions@.len(),
            forall|j: int| 0 <= j < i ==> instr_ok(old(ctx).colors(), old(ctx).slots(), *symbol_table, #[trigger] ir_instructions@[j]),
            segments_ok(old(ctx).colors(), old(ctx).slots(), *symbol_table, old(ctx).prefix(), ir_instructions@.take(i as int), segs, allow_unsafe),
            ctx.code() == old(ctx).code() + flatten_code(segs),
        decreases ir_instructions@.len() - i,
    {
        let ghost before = *ctx;
        gen_instr(ctx, &ir_instructions[i], symbol_table, allow_unsafe)?;
        proof {
            let seg = ctx.code().subrange(before.code().len() as int, ctx.code().len() as int);
            if !is_call_like(ir_instructions@[i as int]) {
                lemma_prefix_append(before.code(), instr_code(old(ctx).colors(), old(ctx).slots(), *symbol_table,
                    old(ctx).prefix(), ir_instructions@[i as int], allow_unsafe));
                assert(seg =~= instr_code(old(ctx).colors(), old(ctx).slots(), *symbol_table,
                    old(ctx).prefix(), ir_instructions@[i as int], allow_unsafe));
            }
            assert(ctx.code() =~= before.code() + seg);
            let segs2 = segs.push(seg);
            assert(segs2.drop_last() =~= segs);
            assert(segs2.last() == seg);
            assert(flatten_code(segs2) == flatten_code(segs) + seg);
            assert(ctx.code() =~= old(ctx).code() + flatten_code(segs2));
            let pre = ir_instructions@.take(i as int + 1);
            assert(pre.drop_last() =~= ir_instructions@.take(i as int));
            assert forall|j: int| 0 <= j < pre.len() implies #[trigger] seg_ok(old(ctx).colors(), old(ctx).slots(), *symbol_table,
                old(ctx).prefix(), pre[j], segs2[j], allow_unsafe) by {
                if j < i {
                    assert(pre[j] == ir_instructions@.take(i as int)[j]);
                    assert(segs2[j] == segs[j]);
                }
            }
            segs = segs2;
        }
        i = i + 1;
    }
    proof {
        assert(ir_instructions@.take(ir_instructions@.len() as int) =~= ir_instructions@);
    }
    let v = ctx.assemble();
    Ok(v)
}

/// The code of the instructions, one after the other.
pub open spec fn flatten_code(segs: Seq<Seq<X86InstrV>>) -> Seq<X86InstrV>
    decreases segs.len(),
{
    if segs.len() == 0 {
        Seq::empty()
    } else {
        flatten_code(segs.drop_last()) + segs.last()
    }
}

/// `seg` is the code of instruction `i`: exactly `instr_code` for an instruction that
/// does not become a call, and code that calls the target otherwise.
pub open spec fn seg_ok(c: Seq<Color>, sl: Seq<Option<StackVar>>, st: SymbolTable, prefix: Seq<char>, i: Instr,
    seg: Seq<X86InstrV>, allow_unsafe: bool) -> bool {
    if is_call_like(i) {
        call_seg_ok(st, i, seg)
    } else {
        seg == instr_code(c, sl, st, prefix, i, allow_unsafe)
    }
}

/// `segs` holds the code of each instruction of `xs`, in order.
pub open spec fn segments_ok(c: Seq<Color>, sl: Seq<Option<StackVar>>, st: SymbolTable, prefix: Seq<char>, xs: Seq<Instr>,
    segs: Seq<Seq<X86InstrV>>, allow_unsafe: bool) -> bool {
    &&& segs.len() == xs.len()
    &&& forall|j: int| 0 <= j < xs.len() ==> #[trigger] seg_ok(c, sl, st, prefix, xs[j], segs[j], allow_unsafe)
}

/// Code generation succeeds on every instruction of the list.
pub open spec fn all_instrs_ok(c: Seq<Color>, sl: Seq<Option<StackVar>>, st: SymbolTable, xs: Seq<Instr>) -> bool {
    forall|j: int| 0 <= j < xs.len() ==> instr_ok(c, sl, st, #[trigger] xs[j])
}

/// Code generation succeeds on every instruction of every block reachable from the entry.
pub open spec fn reachable_instrs_ok(ir: IRContext, c: Seq<Color>, sl: Seq<Option<StackVar>>, st: SymbolTable) -> bool {
    forall|l: Label| #[trigger] ir.has_block(l) && reachable(ir, l) ==> all_instrs_ok(c, sl, st, block_instrs(ir.block(l)))
}

/// `code` is the assembly of function `name`: the prologue of its context, the code of
/// each instruction of its blocks laid out in a reverse post-order, and the epilogue.
pub open spec fn function_code(
    code: Seq<X86InstrV>,
    name: Seq<char>,
    ir: IRContext,
    colors: Seq<Color>,
    spills: Seq<(usize, StackVar)>,
    spill_slot_count: usize,
    st: SymbolTable,
    allow_unsafe: bool,
) -> bool {
    let pc = st@.functions[name].params.len() as int;
    let frame = context_frame(colors, spill_slot_count as nat, ir);
    let slots = context_slots(colors.len() as int, pc, spills, frame);
    let prefix = seq!['.', 'L', '_', 'c', '0', '_'] + name + seq!['_'];
    exists|lin: Seq<Instr>, callee: Seq<X86Reg>, segs: Seq<Seq<X86InstrV>>|
        #![trigger segments_ok(colors, slots, st, prefix, lin, segs, allow_unsafe), prologue_code(colors, pc as nat, slots, frame, callee)]
    {
        &&& exists|order: Seq<Label>| rpo_ok(ir, order) && same_instrs(lin, #[trigger] linear(ir, order))
        &&& crate::x86ctx::sorted_regs(callee)
        &&& forall|x: X86Reg| callee.contains(x) <==> #[trigger] used_callee_set(colors).contains(x)
        &&& segments_ok(colors, slots, st, prefix, lin, segs, allow_unsafe)
        &&& code == prologue_code(colors, pc as nat, slots, frame, callee) + flatten_code(segs) + epilogue(prefix, frame, callee)
    }
}

/// Assembly of the function `name` succeeds with the colors and spill slots given for it:
/// they are given under its name, it is declared, its context can be built, and code
/// generation succeeds on every reachable instruction.
pub open spec fn function_ok(
    name: Seq<char>,
    ir: IRContext,
    colored_name: Seq<char>,
    colors: Seq<Color>,
    spills: Seq<(usize, StackVar)>,
    spill_slot_count: usize,
    st: SymbolTable,
) -> bool {
    let pc = st@.functions[name].params.len() as int;
    &&& colored_name == name
    &&& st@.functions.contains_key(name)
    &&& context_ok(colors, pc, spills, spill_slot_count as int)
    &&& reachable_instrs_ok(ir, colors, context_slots(colors.len() as int, pc, spills,
        context_frame(colors, spill_slot_count as nat, ir)), st)
}

proof fn lemma_instr_ok_same(c: Seq<Color>, sl: Seq<Option<StackVar>>, st: SymbolTable, a: Instr, b: Instr)
    requires
        same_instr(a, b),
    ensures
        instr_ok(c, sl, st, a) == instr_ok(c, sl, st, b),
{
}

proof fn lemma_all_ok_same(c: Seq<Color>, sl: Seq<Option<StackVar>>, st: SymbolTable, a: Seq<Instr>, b: Seq<Instr>)
    requires
        same_instrs(a, b),
    ensures
        all_instrs_ok(c, sl, st, a) == all_instrs_ok(c, sl, st, b),
{
    assert forall|j: int| 0 <= j < a.len() implies instr_ok(c, sl, st, a[j]) == instr_ok(c, sl, st, b[j]) by {
        lemma_instr_ok_same(c, sl, st, a[j], b[j]);
    }
    if all_instrs_ok(c, sl, st, a) {
        assert forall|j: int| 0 <= j < b.len() implies instr_ok(c, sl, st, #[trigger] b[j]) by {
            assert(instr_ok(c, sl, st, a[j]));
        }
    }
    if all_instrs_ok(c, sl, st, b) {
        assert forall|j: int| 0 <= j < a.len() implies instr_ok(c, sl, st, #[trigger] a[j]) by {
            assert(instr_ok(c, sl, st, b[j]));
        }
    }
}

proof fn lemma_all_ok_concat(c: Seq<Color>, sl: Seq<Option<StackVar>>, st: SymbolTable, a: Seq<Instr>, b: Seq<Instr>)
    ensures
        all_instrs_ok(c, sl, st, a + b) == (all_instrs_ok(c, sl, st, a) && all_instrs_ok(c, sl, st, b)),
{
    let ab = a + b;
    if all_instrs_ok(c, sl, st, ab) {
        assert forall|j: int| 0 <= j < a.len() implies instr_ok(c, sl, st, #[trigger] a[j]) by {
            assert(ab[j] == a[j]);
        }
        assert forall|j: int| 0 <= j < b.len() implies instr_ok(c, sl, st, #[trigger] b[j]) by {
            assert(ab[a.len() + j] == b[j]);
        }
    }
    if all_instrs_ok(c, sl, st, a) && all_instrs_ok(c, sl, st, b) {
        assert forall|j: int| 0 <= j < ab.len() implies instr_ok(c, sl, st, #[trigger] ab[j]) by {
            if j < a.len() {
                assert(ab[j] == a[j]);
            } else {
                assert(ab[j] == b[j - a.len()]);
            }
        }
    }
}

proof fn lemma_linear_ok(ir: IRContext, order: Seq<Label>, c: Seq<Color>, sl: Seq<Option<StackVar>>, st: SymbolTable)
    ensures
        all_instrs_ok(c, sl, st, linear(ir, order)) == (forall|i: int| 0 <= i < order.len()
            ==> all_instrs_ok(c, sl, st, block_instrs(ir.block(#[trigger] order[i])))),
    decreases order.len(),
{
    if order.len() > 0 {
        let init = order.drop_last();
        lemma_linear_ok(ir, init, c, sl, st);
        lemma_all_ok_concat(c, sl, st, linear(ir, init), block_instrs(ir.block(order.last())));
        if all_instrs_ok(c, sl, st, linear(ir, order)) {
            assert forall|i: int| 0 <= i < order.len() implies all_instrs_ok(c, sl, st, block_instrs(ir.block(#[trigger] order[i]))) by {
                if i < order.len() - 1 {
                    assert(init[i] == order[i]);
                }
            }
        }
        if forall|i: int| 0 <= i < order.len() ==> all_instrs_ok(c, sl, st, block_instrs(ir.block(#[trigger] order[i]))) {
            assert forall|i: int| 0 <= i < init.len() implies all_instrs_ok(c, sl, st, block_instrs(ir.block(#[trigger] init[i]))) by {
                assert(init[i] == order[i]);
            }
            assert(order[order.len() - 1] == order.last());
        }
    }
}

/// Code generation succeeds on the linear code of a function, laid out in any reverse
/// post-order, exactly when it succeeds on every reachable instruction.
proof fn lemma_rpo_ok_instrs(ir: IRContext, order: Seq<Label>, lin: Seq<Instr>, c: Seq<Color>, sl: Seq<Option<StackVar>>, st: SymbolTable)
    requires
        rpo_ok(ir, order),
        same_instrs(lin, linear(ir, order)),
    ensures
        all_instrs_ok(c, sl, st, lin) == reachable_instrs_ok(ir, c, sl, st),
{
    lemma_all_ok_same(c, sl, st, lin, linear(ir, order));
    lemma_linear_ok(ir, order, c, sl, st);
    if all_instrs_ok(c, sl, st, lin) {
        assert forall|l: Label| #[trigger] ir.has_block(l) && reachable(ir, l) implies all_instrs_ok(c, sl, st, block_instrs(ir.block(l))) by {
            let p = choose|p: Seq<crate::ir::Label>| crate::cfg::is_path(ir, p) && p.last() == l;
            assert(ir.has_block(Label(0)));
            assert(order[0] == Label(0));
            assert(order.contains(Label(0)));
            lemma_closed_contains_reachable(ir, order, l);
            let i = choose|i: int| 0 <= i < order.len() && order[i] == l;
            assert(all_instrs_ok(c, sl, st, block_instrs(ir.block(order[i]))));
        }
    }
    if reachable_instrs_ok(ir, c, sl, st) {
        assert forall|i: int| 0 <= i < order.len() implies all_instrs_ok(c, sl, st, block_instrs(ir.block(#[trigger] order[i]))) by {
            assert(ir.has_block(order[i]) && reachable(ir, order[i]));
        }
    }
}


/// Generate the x86-64 program of the IR of each function, given the color of each
/// temporary and the stack slots of the spilled temporaries (with their count) of each
/// function, in the order of the functions. Function `f` is emitted as `_c0_f` with
/// labels prefixed by `.L_c0_f_`.
#[verifier::rlimit(100)]
#[verifier::spinoff_prover]
pub fn generate_assembly(
    program: &Vec<(Ident, IRContext)>,
    regalloc: &Vec<(Ident, Vec<Color>)>,
    spills: &Vec<(Vec<(usize, StackVar)>, usize)>,
    symbol_table: &SymbolTable,
    allow_unsafe: bool,
) -> (r: Result<X86Program, String>)
    requires
        symbol_table.wf(),
    ensures
        r matches Ok(p) ==> p.functions@.len() == program@.len()
            && code_of(p.traps@) == traps_code()
            && forall|i: int| 0 <= i < program@.len() ==> (#[trigger] p.functions@[i]).0@ == seq!['_', 'c', '0', '_'] + program@[i].0@
                && function_code(code_of(p.functions@[i].1@), program@[i].0@, program@[i].1, regalloc@[i].1@,
                    spills@[i].0@, spills@[i].1, *symbol_table, allow_unsafe),
        r is Ok <==> regalloc@.len() == program@.len() && spills@.len() == program@.len()
            && forall|i: int| 0 <= i < program@.len() ==> #[trigger] function_ok(program@[i].0@, program@[i].1,
                regalloc@[i].0@, regalloc@[i].1@, spills@[i].0@, spills@[i].1, *symbol_table),
{
    if regalloc.len() != program.len() || spills.len() != program.len() {
        return Err(x86_error("missing register allocation"));
    }
    let mut functions: Vec<(String, Vec<X86Instr>)> = Vec::new();
    let mut i: usize = 0;
    while i < program.len()
        invariant
            symbol_table.wf(),
            regalloc@.len() == program@.len(),
            spills@.len() == program@.len(),
            i <= program@.len(),
            functions@.len() == i,
            forall|k: int| 0 <= k < i ==> (#[trigger] functions@[k]).0@ == seq!['_', 'c', '0', '_'] + program@[k].0@
                && function_code(code_of(functions@[k].1@), program@[k].0@, program@[k].1, regalloc@[k].1@,
                    spills@[k].0@, spills@[k].1, *symbol_table, allow_unsafe),
            forall|k: int| 0 <= k < i ==> #[trigger] function_ok(program@[k].0@, program@[k].1,
                regalloc@[k].0@, regalloc@[k].1@, spills@[k].0@, spills@[k].1, *symbol_table),
        decreases program@.len() - i,
    {
        let name = &program[i].0;
        let ir_context = &program[i].1;
        if regalloc[i].0 != *name {
            proof {
                assert(regalloc@[i as int].0@ != name@);
                assert(!function_ok(program@[i as int].0@, program@[i as int].1, regalloc@[i as int].0@,
                    regalloc@[i as int].1@, spills@[i as int].0@, spills@[i as int].1, *symbol_table));
            }
            return Err(x86_error("register allocation of another function"));
        }
        let coloring = regalloc[i].1.clone();
        let params_count = match symbol_table.get_function_signature(name) {
            Some(sig) => sig.1.len(),
            None => {
                proof {
                    assert(!function_ok(program@[i as int].0@, program@[i as int].1, regalloc@[i as int].0@,
                        regalloc@[i as int].1@, spills@[i as int].0@, spills@[i as int].1, *symbol_table));
                }
                return Err(x86_error("unknown function"));
            },
        };
        let label_prefix = crate::x86ctx::prefixed(&['.', 'L', '_', 'c', '0', '_'], name);
        let mut label_prefix2 = label_prefix;
        crate::x86ctx::push_underscore(&mut label_prefix2);
        proof {
            assert(coloring@ == regalloc@[i as int].1@);
            assert(params_count == symbol_table@.functions[name@].params.len());
        }
        let mut ctx = match X86Context::new(coloring, params_count, label_prefix2, ir_context, &spills[i].0, spills[i].1) {
            Ok(c) => c,
            Err(e) => {
                proof {
                    assert(!function_ok(program@[i as int].0@, program@[i as int].1, regalloc@[i as int].0@,
                        regalloc@[i as int].1@, spills@[i as int].0@, spills@[i as int].1, *symbol_table));
                }
                return Err(e);
            },
        };
        let lin = ir_context.linearize();
        proof {
            let order = choose|order: Seq<Label>| rpo_ok(*ir_context, order) && same_instrs(lin@, linear(*ir_context, order));
            lemma_rpo_ok_instrs(*ir_context, order, lin@, ctx.colors(), ctx.slots(), *symbol_table);
        }
        let ghost ctx0 = ctx;
        let code = match generate_function(&mut ctx, lin, symbol_table, allow_unsafe) {
            Ok(c) => c,
            Err(e) => {
                proof { assert(!all_instrs_ok(ctx0.colors(), ctx0.slots(), *symbol_table, lin@)); }
                proof {
                    assert(!function_ok(program@[i as int].0@, program@[i as int].1, regalloc@[i as int].0@,
                        regalloc@[i as int].1@, spills@[i as int].0@, spills@[i as int].1, *symbol_table));
                }
                return Err(e);
            },
        };
        proof {
            assert(all_instrs_ok(ctx0.colors(), ctx0.slots(), *symbol_table, lin@));
            assert(function_ok(program@[i as int].0@, program@[i as int].1, regalloc@[i as int].0@,
                regalloc@[i as int].1@, spills@[i as int].0@, spills@[i as int].1, *symbol_table));
            let segs = choose|segs: Seq<Seq<X86InstrV>>| #[trigger] segments_ok(ctx0.colors(), ctx0.slots(), *symbol_table,
                ctx0.prefix(), lin@, segs, allow_unsafe)
                && code_of(code@) == ctx0.code() + flatten_code(segs) + epilogue(ctx0.prefix(), ctx0.frame(), ctx0.callee());
            assert(ctx0.prefix() == seq!['.', 'L', '_', 'c', '0', '_'] + name@ + seq!['_']);
            assert(forall|x: X86Reg| ctx0.callee().contains(x) <==> #[trigger] used_callee_set(regalloc@[i as int].1@).contains(x));
            let colors = regalloc@[i as int].1@;
            let ir = program@[i as int].1;
            let pc = symbol_table@.functions[program@[i as int].0@].params.len() as int;
            let frame = context_frame(colors, spills@[i as int].1 as nat, ir);
            let slots = context_slots(colors.len() as int, pc, spills@[i as int].0@, frame);
            let prefix = seq!['.', 'L', '_', 'c', '0', '_'] + program@[i as int].0@ + seq!['_'];
            assert(ctx0.colors() == colors);
            assert(ctx0.frame() == frame);
            assert(ctx0.slots() == slots);
            assert(ctx0.prefix() == prefix);
            assert(segments_ok(colors, slots, *symbol_table, prefix, lin@, segs, allow_unsafe));
            assert(ctx0.code() == prologue_code(colors, pc as nat, slots, frame, ctx0.callee()));
            let order = choose|order: Seq<Label>| rpo_ok(*ir_context, order) && same_instrs(lin@, linear(*ir_context, order));
            assert(rpo_ok(ir, order) && same_instrs(lin@, linear(ir, order)));
            assert(function_code(code_of(code@), program@[i as int].0@, program@[i as int].1, regalloc@[i as int].1@,
                spills@[i as int].0@, spills@[i as int].1, *symbol_table, allow_unsafe));
        }
        let fname = crate::x86ctx::prefixed(&['_', 'c', '0', '_'], name);
        let ghost functions0 = functions@;
        functions.push((fname, code));
        proof {
            assert forall|k: int| 0 <= k < i + 1 implies (#[trigger] functions@[k]).0@ == seq!['_', 'c', '0', '_'] + program@[k].0@
                && function_code(code_of(functions@[k].1@), program@[k].0@, program@[k].1, regalloc@[k].1@,
                    spills@[k].0@, spills@[k].1, *symbol_table, allow_unsafe) by {
                if k < i {
                    assert(functions@[k] == functions0[k]);
                }
            }
        }
        i = i + 1;
    }
    Ok(X86Program { functions, traps: generate_traps() })
}

} // verus!
