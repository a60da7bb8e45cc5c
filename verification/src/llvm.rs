//! LLVM IR text of a compiled program, with runtime checks emitted as calls to
//! internal helper functions.
use vstd::prelude::*;

use crate::arith32::{bool_value, c0_binop, div_traps, tdiv, trem, wrap32};
use crate::ast::{BinOp, GlobalDeclaration, Ident, ProgramAST, Typ, TypV, UnOp, Variable};
use crate::codegen::{operand_type, size_of_type, type_size_bytes};
use crate::function_context::{typ_views, var_typ_views};
use crate::cfg::rpo_ok;
use crate::ir::{linear, same_instrs, Exception, IRContext, Instr, Label, Operand, Temp};
use crate::symbol_table::{SymbolModel, SymbolTable};
use crate::text::{decimal_spec, push_decimal, push_signed_decimal, push_str, signed_decimal_spec};

verus! {

/// An LLVM function signature.
pub struct FunctionSignature {
    /// Function return type.
    pub return_typ: Typ,
    /// Function parameter types in order.
    pub param_typs: Vec<Typ>,
}

/// Which runtime helpers the emitted code calls, so that only those are emitted.
#[derive(Copy, Clone, PartialEq, Eq, Structural, Debug)]
pub struct HelpersContext {
    pub needs_abort: bool,
    pub needs_alloc: bool,
    pub needs_alloc_array: bool,
    pub needs_null_check: bool,
    pub needs_div_check: bool,
    pub needs_shift_check: bool,
    pub needs_array_check: bool,
}

/// Model of a signature table: name, return type and parameter types of each entry.
pub type SignaturesV = Seq<(Seq<char>, (TypV, Seq<TypV>))>;

/// Model of a table of signatures.
pub open spec fn signatures_view(v: Seq<(Ident, FunctionSignature)>) -> SignaturesV {
    v.map_values(|e: (Ident, FunctionSignature)| (e.0@, (e.1.return_typ@, typ_views(e.1.param_typs@))))
}

/// Model of a list of names.
pub open spec fn names_view(v: Seq<Ident>) -> Seq<Seq<char>> {
    v.map_values(|s: Ident| s@)
}

/// The signature recorded last under a name: a later entry overrides an earlier one.
pub open spec fn sig_lookup(sigs: SignaturesV, name: Seq<char>) -> Option<(TypV, Seq<TypV>)>
    decreases sigs.len(),
{
    if sigs.len() == 0 {
        None
    } else if sigs.last().0 == name {
        Some(sigs.last().1)
    } else {
        sig_lookup(sigs.drop_last(), name)
    }
}

/// LLVM type of a C0 type; none for an unresolved alias.
pub open spec fn llvm_type_text(t: TypV) -> Option<Seq<char>> {
    match t {
        TypV::Void => Some("void"@),
        TypV::Int => Some("i32"@),
        TypV::Bool => Some("i1"@),
        TypV::Typedef(_) => None,
        _ => Some("ptr"@),
    }
}

/// Types lowered to LLVM pointers.
pub open spec fn ptr_like(t: TypV) -> bool {
    t is Null || t is Pointer || t is Array || t is Struct
}

/// Types usable as offsets in pointer arithmetic.
pub open spec fn int_like(t: TypV) -> bool {
    t is Int || t is Bool
}

/// Type carried by an operand.
pub open spec fn operand_typ(op: Operand) -> TypV {
    match op {
        Operand::Const(c) => c.1@,
        Operand::Temp(t) => t.1@,
    }
}

/// `%t<id>`: the LLVM value of a temporary.
pub open spec fn temp_text(id: usize) -> Seq<char> {
    "%t"@ + decimal_spec(id)
}

/// `%aux<n>`: an auxiliary LLVM value.
pub open spec fn aux_text(n: usize) -> Seq<char> {
    "%aux"@ + decimal_spec(n)
}

/// `\t%t<id> = `: the start of an instruction defining a temporary.
pub open spec fn dest_text(d: Temp) -> Seq<char> {
    "\t"@ + temp_text(d.0) + " = "@
}

/// A boolean operand as an `i1` value.
pub open spec fn i1_text(op: Operand) -> Option<Seq<char>> {
    match op {
        Operand::Const(c) => Some(if c.0 == 0 { "false"@ } else { "true"@ }),
        Operand::Temp(t) => if t.1@ == TypV::Bool { Some(temp_text(t.0)) } else { None },
    }
}

/// An integer operand as an `i32` value.
pub open spec fn i32_text(op: Operand) -> Option<Seq<char>> {
    match op {
        Operand::Const(c) => Some(signed_decimal_spec(c.0)),
        Operand::Temp(t) => if t.1@ == TypV::Int { Some(temp_text(t.0)) } else { None },
    }
}

/// An operand as a pointer value: `null`, an integer cast to a pointer, or a temporary.
pub open spec fn ptr_text(op: Operand) -> Seq<char> {
    match op {
        Operand::Const(c) => if c.0 == 0 {
            "null"@
        } else {
            "inttoptr (i64 "@ + signed_decimal_spec(c.0) + " to ptr)"@
        },
        Operand::Temp(t) => temp_text(t.0),
    }
}

/// An immediate taken at a type.
pub open spec fn const_of_typ_text(v: i64, t: TypV) -> Option<Seq<char>> {
    match t {
        TypV::Bool => Some(if v == 0 { "false"@ } else { "true"@ }),
        TypV::Int => Some(signed_decimal_spec(v)),
        TypV::Void | TypV::Typedef(_) => None,
        _ => Some("null"@),
    }
}

/// An operand taken at a type.
pub open spec fn operand_of_typ_text(op: Operand, t: TypV) -> Option<Seq<char>> {
    match t {
        TypV::Bool => i1_text(op),
        TypV::Int => i32_text(op),
        TypV::Void | TypV::Typedef(_) => None,
        _ => Some(ptr_text(op)),
    }
}

/// An operand widened to `i32`: its value, the instructions computing it, and the next
/// auxiliary number.
pub open spec fn cast_i32_text(op: Operand, aux: usize) -> Option<(Seq<char>, Seq<char>, usize)> {
    match op {
        Operand::Const(c) => Some((signed_decimal_spec(c.0), Seq::empty(), aux)),
        Operand::Temp(t) => match t.1@ {
            TypV::Bool => Some(
                (
                    aux_text(aux),
                    "\t"@ + aux_text(aux) + " = zext i1 "@ + temp_text(t.0) + " to i32\n"@,
                    (aux + 1) as usize,
                ),
            ),
            TypV::Int => Some((temp_text(t.0), Seq::empty(), aux)),
            _ => None,
        },
    }
}

/// An operand widened to `i64` (see `cast_i32_text`); integers are sign-extended.
pub open spec fn cast_i64_text(op: Operand, aux: usize) -> Option<(Seq<char>, Seq<char>, usize)> {
    match op {
        Operand::Const(c) => Some((signed_decimal_spec(c.0), Seq::empty(), aux)),
        Operand::Temp(t) => match t.1@ {
            TypV::Bool => Some(
                (
                    aux_text(aux),
                    "\t"@ + aux_text(aux) + " = zext i1 "@ + temp_text(t.0) + " to i64\n"@,
                    (aux + 1) as usize,
                ),
            ),
            TypV::Int => Some(
                (
                    aux_text(aux),
                    "\t"@ + aux_text(aux) + " = sext i32 "@ + temp_text(t.0) + " to i64\n"@,
                    (aux + 1) as usize,
                ),
            ),
            _ => None,
        },
    }
}

/// Size of an element reached by indexing an array: 8 for a nested array, else the size
/// of the element type.
pub open spec fn elem_size_spec(m: SymbolModel, t: TypV, fuel: nat) -> Option<int> {
    match t {
        TypV::Array(inner, depth) => if depth > 1 { Some(8) } else { size_of_type(m, *inner, fuel) },
        _ => None,
    }
}

/// Mnemonic condition of a comparison.
pub open spec fn cmp_name(op: BinOp) -> Seq<char> {
    match op {
        BinOp::CmpEq => "eq"@,
        BinOp::CmpNeq => "ne"@,
        BinOp::Lt => "slt"@,
        BinOp::Gt => "sgt"@,
        BinOp::Lte => "sle"@,
        _ => "sge"@,
    }
}

/// Mnemonic of an arithmetic or bitwise operator; none for the others.
pub open spec fn arith_name(op: BinOp) -> Option<Seq<char>> {
    match op {
        BinOp::Add => Some("add"@),
        BinOp::Sub => Some("sub"@),
        BinOp::Mul => Some("mul"@),
        BinOp::Div => Some("sdiv"@),
        BinOp::Mod => Some("srem"@),
        BinOp::And => Some("and"@),
        BinOp::Xor => Some("xor"@),
        BinOp::Or => Some("or"@),
        BinOp::Sal => Some("shl"@),
        BinOp::Sar => Some("ashr"@),
        _ => None,
    }
}

/// Value of the LLVM integer instruction `n` on two `i32` operands (per the LLVM
/// reference: wrapping arithmetic; `sdiv`/`srem` truncate toward zero and are undefined
/// on a zero divisor or the least value by minus one; `udiv`/`urem` and `lshr` read
/// the operands as unsigned; `ashr` shifts in the sign; shifts of 32 or more, or of a
/// negative amount, give poison). `None` where the result is undefined or poison, or
/// `n` is no such instruction.
pub open spec fn llvm_int_op(n: Seq<char>, a: i32, b: i32) -> Option<int> {
    let shift_ok = 0 <= b < 32;
    if n == "add"@ {
        Some(wrap32(a + b))
    } else if n == "sub"@ {
        Some(wrap32(a - b))
    } else if n == "mul"@ {
        Some(wrap32(a * b))
    } else if n == "sdiv"@ {
        if div_traps(a, b) { None } else { Some(tdiv(a as int, b as int)) }
    } else if n == "srem"@ {
        if div_traps(a, b) { None } else { Some(trem(a as int, b as int)) }
    } else if n == "udiv"@ {
        if b == 0 { None } else { Some(wrap32(((a as u32) / (b as u32)) as int)) }
    } else if n == "urem"@ {
        if b == 0 { None } else { Some(wrap32(((a as u32) % (b as u32)) as int)) }
    } else if n == "and"@ {
        Some((a & b) as int)
    } else if n == "or"@ {
        Some((a | b) as int)
    } else if n == "xor"@ {
        Some((a ^ b) as int)
    } else if n == "shl"@ {
        if shift_ok { Some((a << (b as u32)) as int) } else { None }
    } else if n == "ashr"@ {
        if shift_ok { Some((a >> (b as u32)) as int) } else { None }
    } else if n == "lshr"@ {
        if shift_ok { Some(wrap32(((a as u32) >> (b as u32)) as int)) } else { None }
    } else {
        None
    }
}

/// Whether the LLVM `icmp` predicate `p` holds of two `i32` operands (`s` predicates
/// compare as signed, `u` predicates as unsigned).
pub open spec fn llvm_compare(p: Seq<char>, a: i32, b: i32) -> Option<bool> {
    if p == "eq"@ {
        Some(a == b)
    } else if p == "ne"@ {
        Some(a != b)
    } else if p == "slt"@ {
        Some(a < b)
    } else if p == "sgt"@ {
        Some(a > b)
    } else if p == "sle"@ {
        Some(a <= b)
    } else if p == "sge"@ {
        Some(a >= b)
    } else if p == "ult"@ {
        Some((a as u32) < (b as u32))
    } else if p == "ugt"@ {
        Some((a as u32) > (b as u32))
    } else if p == "ule"@ {
        Some((a as u32) <= (b as u32))
    } else if p == "uge"@ {
        Some((a as u32) >= (b as u32))
    } else {
        None
    }
}

/// The LLVM instruction chosen for each arithmetic or bitwise operator computes the
/// operator's value: on every pair of `i32` operands the instruction's result is the
/// value of `a op b`, and it is undefined exactly where evaluating `a op b` traps.
pub proof fn lemma_arith_instruction_matches_operator(op: BinOp, a: i32, b: i32)
    requires
        arith_name(op) is Some,
    ensures
        llvm_int_op(arith_name(op)->0, a, b) == c0_binop(op, a, b),
{
    reveal_strlit("add");
    assert("add"@.len() == 3 && "add"@[0] == 'a' && "add"@[1] == 'd' && "add"@[2] == 'd');
    reveal_strlit("sub");
    assert("sub"@.len() == 3 && "sub"@[0] == 's' && "sub"@[1] == 'u' && "sub"@[2] == 'b');
    reveal_strlit("mul");
    assert("mul"@.len() == 3 && "mul"@[0] == 'm' && "mul"@[1] == 'u' && "mul"@[2] == 'l');
    reveal_strlit("sdiv");
    assert("sdiv"@.len() == 4 && "sdiv"@[0] == 's' && "sdiv"@[1] == 'd' && "sdiv"@[2] == 'i' && "sdiv"@[3] == 'v');
    reveal_strlit("srem");
    assert("srem"@.len() == 4 && "srem"@[0] == 's' && "srem"@[1] == 'r' && "srem"@[2] == 'e' && "srem"@[3] == 'm');
    reveal_strlit("udiv");
    assert("udiv"@.len() == 4 && "udiv"@[0] == 'u' && "udiv"@[1] == 'd' && "udiv"@[2] == 'i' && "udiv"@[3] == 'v');
    reveal_strlit("urem");
    assert("urem"@.len() == 4 && "urem"@[0] == 'u' && "urem"@[1] == 'r' && "urem"@[2] == 'e' && "urem"@[3] == 'm');
    reveal_strlit("and");
    assert("and"@.len() == 3 && "and"@[0] == 'a' && "and"@[1] == 'n' && "and"@[2] == 'd');
    reveal_strlit("or");
    assert("or"@.len() == 2 && "or"@[0] == 'o' && "or"@[1] == 'r');
    reveal_strlit("xor");
    assert("xor"@.len() == 3 && "xor"@[0] == 'x' && "xor"@[1] == 'o' && "xor"@[2] == 'r');
    reveal_strlit("shl");
    assert("shl"@.len() == 3 && "shl"@[0] == 's' && "shl"@[1] == 'h' && "shl"@[2] == 'l');
    reveal_strlit("ashr");
    assert("ashr"@.len() == 4 && "ashr"@[0] == 'a' && "ashr"@[1] == 's' && "ashr"@[2] == 'h' && "ashr"@[3] == 'r');
    reveal_strlit("lshr");
    assert("lshr"@.len() == 4 && "lshr"@[0] == 'l' && "lshr"@[1] == 's' && "lshr"@[2] == 'h' && "lshr"@[3] == 'r');
}

/// The `icmp` predicate chosen for each comparison holds exactly when the comparison
/// does, as signed 32-bit values.
pub proof fn lemma_cmp_predicate_matches_operator(op: BinOp, a: i32, b: i32)
    requires
        is_cmp(op),
    ensures
        llvm_compare(cmp_name(op), a, b) matches Some(h) && c0_binop(op, a, b) == Some(bool_value(h)),
{
    reveal_strlit("eq");
    assert("eq"@.len() == 2 && "eq"@[0] == 'e' && "eq"@[1] == 'q');
    reveal_strlit("ne");
    assert("ne"@.len() == 2 && "ne"@[0] == 'n' && "ne"@[1] == 'e');
    reveal_strlit("slt");
    assert("slt"@.len() == 3 && "slt"@[0] == 's' && "slt"@[1] == 'l' && "slt"@[2] == 't');
    reveal_strlit("sgt");
    assert("sgt"@.len() == 3 && "sgt"@[0] == 's' && "sgt"@[1] == 'g' && "sgt"@[2] == 't');
    reveal_strlit("sle");
    assert("sle"@.len() == 3 && "sle"@[0] == 's' && "sle"@[1] == 'l' && "sle"@[2] == 'e');
    reveal_strlit("sge");
    assert("sge"@.len() == 3 && "sge"@[0] == 's' && "sge"@[1] == 'g' && "sge"@[2] == 'e');
    reveal_strlit("ult");
    assert("ult"@.len() == 3 && "ult"@[0] == 'u' && "ult"@[1] == 'l' && "ult"@[2] == 't');
    reveal_strlit("ugt");
    assert("ugt"@.len() == 3 && "ugt"@[0] == 'u' && "ugt"@[1] == 'g' && "ugt"@[2] == 't');
    reveal_strlit("ule");
    assert("ule"@.len() == 3 && "ule"@[0] == 'u' && "ule"@[1] == 'l' && "ule"@[2] == 'e');
    reveal_strlit("uge");
    assert("uge"@.len() == 3 && "uge"@[0] == 'u' && "uge"@[1] == 'g' && "uge"@[2] == 'e');
}

/// Whether an operator compares.
pub open spec fn is_cmp(op: BinOp) -> bool {
    op is CmpEq || op is CmpNeq || op is Lt || op is Gt || op is Lte || op is Gte
}

/// One step of translation: the text, the helpers needed afterwards, and the next
/// auxiliary number.
pub type Step = (Seq<char>, HelpersContext, usize);

/// Text of a comparison.
pub open spec fn cmp_text(op: BinOp, d: Temp, l: Operand, r: Operand, h: HelpersContext, aux: usize) -> Option<Step> {
    let lt = operand_typ(l);
    let rt = operand_typ(r);
    if ptr_like(lt) || ptr_like(rt) {
        if op is CmpEq || op is CmpNeq {
            Some((dest_text(d) + "icmp "@ + cmp_name(op) + " ptr "@ + ptr_text(l) + ", "@ + ptr_text(r) + "\n"@, h, aux))
        } else {
            None
        }
    } else if lt == TypV::Bool && rt == TypV::Bool {
        match (i1_text(l), i1_text(r)) {
            (Some(a), Some(b)) => Some((dest_text(d) + "icmp "@ + cmp_name(op) + " i1 "@ + a + ", "@ + b + "\n"@, h, aux)),
            _ => None,
        }
    } else {
        match cast_i32_text(l, aux) {
            Some((a, pa, aux1)) => match cast_i32_text(r, aux1) {
                Some((b, pb, aux2)) => Some(
                    (pa + pb + dest_text(d) + "icmp "@ + cmp_name(op) + " i32 "@ + a + ", "@ + b + "\n"@, h, aux2),
                ),
                None => None,
            },
            None => None,
        }
    }
}

/// Which operand of pointer arithmetic is the pointer: whether the operands are swapped
/// (an integer plus a pointer), and whether the offset is negated (a pointer minus an
/// integer); none for other combinations.
pub open spec fn ptr_select(op: BinOp, l: Operand, r: Operand) -> Option<(bool, bool)> {
    if ptr_like(operand_typ(l)) && int_like(operand_typ(r)) {
        Some((false, op is Sub))
    } else if op is Add && int_like(operand_typ(l)) && ptr_like(operand_typ(r)) {
        Some((true, false))
    } else {
        None
    }
}

/// An offset widened to `i64` and negated where asked: its value, the instructions
/// computing it, and the next auxiliary number.
pub open spec fn offset_text(o: Operand, negate: bool, aux: usize) -> Option<(Seq<char>, Seq<char>, usize)> {
    match cast_i64_text(o, aux) {
        None => None,
        Some((off, pre, aux1)) => if negate {
            Some((aux_text(aux1), pre + "\t"@ + aux_text(aux1) + " = sub i64 0, "@ + off + "\n"@, (aux1 + 1) as usize))
        } else {
            Some((off, pre, aux1))
        },
    }
}

/// The offset of pointer arithmetic in bytes: scaled by the element size for an array,
/// unscaled for other pointers (see `offset_text`).
pub open spec fn scaled_offset_text(
    o: Operand,
    negate: bool,
    pt: TypV,
    m: SymbolModel,
    fuel: nat,
    aux: usize,
) -> Option<(Seq<char>, Seq<char>, usize)> {
    let es: Option<int> = if pt is Array { elem_size_spec(m, pt, fuel) } else { Some(1) };
    match (offset_text(o, negate, aux), es) {
        (Some((off, pre, aux1)), Some(e)) => if e == 1 {
            Some((off, pre, aux1))
        } else {
            Some(
                (
                    aux_text(aux1),
                    pre + "\t"@ + aux_text(aux1) + " = mul i64 "@ + off + ", "@ + signed_decimal_spec(e as i64) + "\n"@,
                    (aux1 + 1) as usize,
                ),
            )
        },
        _ => None,
    }
}

/// Text of pointer arithmetic: a byte offset scaled by the element size, checked for a
/// null base (and, for arrays, for bounds) unless checks are off.
pub open spec fn ptr_arith_text(
    op: BinOp,
    d: Temp,
    l: Operand,
    r: Operand,
    m: SymbolModel,
    fuel: nat,
    unsafe_ok: bool,
    h: HelpersContext,
    aux: usize,
) -> Option<Step> {
    match ptr_select(op, l, r) {
        None => None,
        Some((swapped, negate)) => {
            let p = if swapped { r } else { l };
            let o = if swapped { l } else { r };
            let pt = operand_typ(p);
            let pv = ptr_text(p);
            match scaled_offset_text(o, negate, pt, m, fuel, aux) {
                None => None,
                Some((sc, pre, aux3)) => Some(ptr_finish_text(pre, pv, sc, pt is Array, d, unsafe_ok, h, aux3)),
            }
        },
    }
}

/// The end of pointer arithmetic, after the offset: the address computation, behind a
/// null check (and, for an array, a bounds check) unless checks are off.
pub open spec fn ptr_finish_text(
    pre: Seq<char>,
    pv: Seq<char>,
    sc: Seq<char>,
    is_array: bool,
    d: Temp,
    unsafe_ok: bool,
    h: HelpersContext,
    aux: usize,
) -> Step {
    if unsafe_ok {
        (pre + dest_text(d) + "getelementptr inbounds i8, ptr "@ + pv + ", i64 "@ + sc + "\n"@, h, aux)
    } else {
        let c = aux_text(aux);
        let check = pre + "\t"@ + c + " = call ptr @_c0_llvm_check_not_null(ptr "@ + pv + ")\n"@;
        let gep = dest_text(d) + "getelementptr inbounds i8, ptr "@ + c + ", i64 "@ + sc + "\n"@;
        if is_array {
            (
                check + "\tcall void @_c0_llvm_check_array(ptr "@ + c + ", i64 "@ + sc + ")\n"@ + gep,
                HelpersContext { needs_null_check: true, needs_array_check: true, ..h },
                (aux + 1) as usize,
            )
        } else {
            (check + gep, HelpersContext { needs_null_check: true, ..h }, (aux + 1) as usize)
        }
    }
}

/// Text of an arithmetic or bitwise operation: division and shifts are checked first
/// unless checks are off, and additions involving a pointer are pointer arithmetic.
pub open spec fn arith_text(
    op: BinOp,
    d: Temp,
    l: Operand,
    r: Operand,
    m: SymbolModel,
    fuel: nat,
    unsafe_ok: bool,
    h: HelpersContext,
    aux: usize,
) -> Option<Step> {
    if (op is Div || op is Mod) && !unsafe_ok {
        match (i32_text(l), i32_text(r), arith_name(op)) {
            (Some(a), Some(b), Some(n)) => Some(
                (
                    "\tcall void @_c0_llvm_check_div(i32 "@ + a + ", i32 "@ + b + ")\n"@ + dest_text(d) + n + " i32 "@ + a
                        + ", "@ + b + "\n"@,
                    HelpersContext { needs_div_check: true, ..h },
                    aux,
                ),
            ),
            _ => None,
        }
    } else if (op is Sal || op is Sar) && !unsafe_ok {
        match (i32_text(l), i32_text(r), arith_name(op)) {
            (Some(a), Some(b), Some(n)) => Some(
                (
                    "\tcall void @_c0_llvm_check_shift(i32 "@ + b + ")\n"@ + dest_text(d) + n + " i32 "@ + a + ", "@ + b
                        + "\n"@,
                    HelpersContext { needs_shift_check: true, ..h },
                    aux,
                ),
            ),
            _ => None,
        }
    } else if (op is Add || op is Sub) && (ptr_like(operand_typ(l)) || ptr_like(operand_typ(r))) {
        ptr_arith_text(op, d, l, r, m, fuel, unsafe_ok, h, aux)
    } else {
        match (i32_text(l), i32_text(r), arith_name(op)) {
            (Some(a), Some(b), Some(n)) => Some((dest_text(d) + n + " i32 "@ + a + ", "@ + b + "\n"@, h, aux)),
            _ => None,
        }
    }
}

/// Text of a binary operation.
pub open spec fn binop_text(
    op: BinOp,
    d: Temp,
    l: Operand,
    r: Operand,
    m: SymbolModel,
    fuel: nat,
    unsafe_ok: bool,
    h: HelpersContext,
    aux: usize,
) -> Option<Step> {
    if op is LAnd || op is LOr {
        match (i1_text(l), i1_text(r)) {
            (Some(a), Some(b)) => Some(
                (dest_text(d) + (if op is LAnd { "and"@ } else { "or"@ }) + " i1 "@ + a + ", "@ + b + "\n"@, h, aux),
            ),
            _ => None,
        }
    } else if is_cmp(op) {
        cmp_text(op, d, l, r, h, aux)
    } else {
        arith_text(op, d, l, r, m, fuel, unsafe_ok, h, aux)
    }
}

/// Arguments of a call, each at its parameter's type: `<type> <value>` joined by `, `;
/// none when an argument is missing or does not have its parameter's type.
pub open spec fn args_text(args: Seq<Operand>, params: Seq<TypV>) -> Option<Seq<char>>
    decreases params.len(),
{
    if params.len() == 0 {
        Some(Seq::empty())
    } else if params.len() > args.len() {
        None
    } else {
        match (
            args_text(args, params.drop_last()),
            llvm_type_text(params.last()),
            operand_of_typ_text(args[params.len() - 1], params.last()),
        ) {
            (Some(prev), Some(ty), Some(a)) => Some(
                (if params.len() == 1 { Seq::empty() } else { prev + ", "@ }) + ty + " "@ + a,
            ),
            _ => None,
        }
    }
}

/// Name a call goes to: functions of the source file carry the `_c0_` prefix.
pub open spec fn callee_text(defined: Seq<Seq<char>>, name: Seq<char>) -> Seq<char> {
    if defined.contains(name) { "_c0_"@ + name } else { name }
}

/// Text of a call, or of a tail call followed by the return of its result.
pub open spec fn call_text(
    i: Instr,
    sigs: SignaturesV,
    defined: Seq<Seq<char>>,
    ret: TypV,
    h: HelpersContext,
    aux: usize,
) -> Option<Step> {
    match i {
        Instr::Call { dest, name, args } => match sig_lookup(sigs, name@) {
            None => None,
            Some(sig) => match (args_text(args@, sig.1), llvm_type_text(sig.0)) {
                (Some(at), Some(rt)) => {
                    let call = "call "@ + rt + " @"@ + callee_text(defined, name@) + "("@ + at + ")\n"@;
                    match dest {
                        Some(t) => Some((dest_text(t) + call, h, aux)),
                        None => Some(("\t"@ + call, h, aux)),
                    }
                },
                _ => None,
            },
        },
        Instr::TailCall { name, args } => match sig_lookup(sigs, name@) {
            None => None,
            Some(sig) => match (args_text(args@, sig.1), llvm_type_text(sig.0)) {
                (Some(at), Some(rt)) => {
                    let call = "tail call "@ + rt + " @"@ + callee_text(defined, name@) + "("@ + at + ")\n"@;
                    if sig.0 == TypV::Void {
                        Some(("\t"@ + call + "\tret void\n"@, h, aux))
                    } else {
                        match llvm_type_text(ret) {
                            Some(rty) => Some(
                                (
                                    "\t"@ + aux_text(aux) + " = "@ + call + "\tret "@ + rty + " "@ + aux_text(aux) + "\n"@,
                                    h,
                                    (aux + 1) as usize,
                                ),
                            ),
                            None => None,
                        }
                    }
                },
                _ => None,
            },
        },
        _ => None,
    }
}

/// Text of a memory operation: loads and stores go through a null check unless checks
/// are off; allocations call `calloc`, or the checked array allocator.
pub open spec fn memory_text(i: Instr, unsafe_ok: bool, h: HelpersContext, aux: usize) -> Option<Step> {
    let check = |a: Seq<char>| "\t"@ + aux_text(aux) + " = call ptr @_c0_llvm_check_not_null(ptr "@ + a + ")\n"@;
    match i {
        Instr::Load { dest, addr } => match llvm_type_text(dest.1@) {
            None => None,
            Some(ty) => if unsafe_ok {
                Some((dest_text(dest) + "load "@ + ty + ", ptr "@ + ptr_text(addr) + "\n"@, h, aux))
            } else {
                Some(
                    (
                        check(ptr_text(addr)) + dest_text(dest) + "load "@ + ty + ", ptr "@ + aux_text(aux) + "\n"@,
                        HelpersContext { needs_null_check: true, ..h },
                        (aux + 1) as usize,
                    ),
                )
            },
        },
        Instr::Store { addr, src } => match (llvm_type_text(operand_typ(src)), operand_of_typ_text(src, operand_typ(src))) {
            (Some(ty), Some(v)) => if unsafe_ok {
                Some(("\tstore "@ + ty + " "@ + v + ", ptr "@ + ptr_text(addr) + "\n"@, h, aux))
            } else {
                Some(
                    (
                        check(ptr_text(addr)) + "\tstore "@ + ty + " "@ + v + ", ptr "@ + aux_text(aux) + "\n"@,
                        HelpersContext { needs_null_check: true, ..h },
                        (aux + 1) as usize,
                    ),
                )
            },
            _ => None,
        },
        Instr::Alloc { dest, size } => match cast_i64_text(size, aux) {
            Some((s, p, aux1)) => Some(
                (
                    p + dest_text(dest) + "call ptr @calloc(i64 1, i64 "@ + s + ")\n"@,
                    HelpersContext { needs_alloc: true, ..h },
                    aux1,
                ),
            ),
            None => None,
        },
        Instr::AllocArray { dest, size, count } => match cast_i64_text(size, aux) {
            Some((s, p1, aux1)) => match cast_i64_text(count, aux1) {
                Some((c, p2, aux2)) => if unsafe_ok {
                    Some(
                        (
                            p1 + p2 + dest_text(dest) + "call ptr @calloc(i64 "@ + c + ", i64 "@ + s + ")\n"@,
                            HelpersContext { needs_alloc: true, ..h },
                            aux2,
                        ),
                    )
                } else {
                    Some(
                        (
                            p1 + p2 + dest_text(dest) + "call ptr @_c0_llvm_alloc_array(i64 "@ + c + ", i64 "@ + s + ")\n"@,
                            HelpersContext { needs_alloc: true, needs_alloc_array: true, ..h },
                            aux2,
                        ),
                    )
                },
                None => None,
            },
            None => None,
        },
        _ => None,
    }
}

/// Value of a phi source at the phi's type.
pub open spec fn phi_value_text(op: Operand, t: TypV) -> Option<Seq<char>> {
    match op {
        Operand::Const(c) => const_of_typ_text(c.0, t),
        Operand::Temp(x) => Some(temp_text(x.0)),
    }
}

/// Sources of a phi: `[ <value>, %L<label> ]` joined by `, `.
pub open spec fn phi_srcs_text(srcs: Seq<(Label, Operand)>, t: TypV) -> Option<Seq<char>>
    decreases srcs.len(),
{
    if srcs.len() == 0 {
        Some(Seq::empty())
    } else {
        match (phi_srcs_text(srcs.drop_last(), t), phi_value_text(srcs.last().1, t)) {
            (Some(prev), Some(v)) => Some(
                (if srcs.len() == 1 { Seq::empty() } else { prev + ", "@ }) + "[ "@ + v + ", %L"@ + decimal_spec(
                    srcs.last().0.0,
                ) + " ]"@,
            ),
            _ => None,
        }
    }
}

/// Text of the other instructions: unary operations, labels, jumps, returns, throws,
/// phis and moves.
pub open spec fn plain_text(i: Instr, ret: TypV, h: HelpersContext, aux: usize) -> Option<Step> {
    match i {
        Instr::UnOp { op, dest, src } => match op {
            UnOp::Neg => match i32_text(src) {
                Some(s) => Some((dest_text(dest) + "sub i32 0, "@ + s + "\n"@, h, aux)),
                None => None,
            },
            UnOp::Not => match i32_text(src) {
                Some(s) => Some((dest_text(dest) + "xor i32 "@ + s + ", -1\n"@, h, aux)),
                None => None,
            },
            UnOp::LNot => match i1_text(src) {
                Some(s) => Some((dest_text(dest) + "xor i1 "@ + s + ", true\n"@, h, aux)),
                None => None,
            },
        },
        Instr::Label(l) => Some(("L"@ + decimal_spec(l.0) + ":\n"@, h, aux)),
        Instr::JumpTo(l) => Some(("\tbr label %L"@ + decimal_spec(l.0) + "\n"@, h, aux)),
        Instr::JumpIf { pred, holds, fails } => match i1_text(pred) {
            Some(p) => Some(
                (
                    "\tbr i1 "@ + p + ", label %L"@ + decimal_spec(holds.0) + ", label %L"@ + decimal_spec(fails.0) + "\n"@,
                    h,
                    aux,
                ),
            ),
            None => None,
        },
        Instr::Return(v) => match v {
            Some(v) => match (llvm_type_text(ret), operand_of_typ_text(v, ret)) {
                (Some(ty), Some(s)) => Some(("\tret "@ + ty + " "@ + s + "\n"@, h, aux)),
                _ => None,
            },
            None => Some(("\tret void\n"@, h, aux)),
        },
        Instr::Throw(_) => Some(("\tcall void @abort()\n\tunreachable\n"@, HelpersContext { needs_abort: true, ..h }, aux)),
        Instr::Phi { dest, srcs } => match (llvm_type_text(dest.1@), phi_srcs_text(srcs@, dest.1@)) {
            (Some(ty), Some(ops)) => Some((dest_text(dest) + "phi "@ + ty + " "@ + ops + "\n"@, h, aux)),
            _ => None,
        },
        Instr::Move { dest, src } => match operand_of_typ_text(src, dest.1@) {
            None => None,
            Some(s) => match dest.1@ {
                TypV::Bool => Some((dest_text(dest) + "or i1 "@ + s + ", false\n"@, h, aux)),
                TypV::Int => Some((dest_text(dest) + "add i32 "@ + s + ", 0\n"@, h, aux)),
                _ => Some((dest_text(dest) + "select i1 true, ptr "@ + s + ", ptr null\n"@, h, aux)),
            },
        },
        _ => None,
    }
}

/// LLVM text of one IR instruction, with the helpers it needs and the next auxiliary
/// number; none where the instruction is ill-typed, calls an unknown function, or has
/// fewer arguments than its callee has parameters.
#[verifier::opaque]
pub open spec fn instr_text(
    i: Instr,
    sigs: SignaturesV,
    defined: Seq<Seq<char>>,
    m: SymbolModel,
    fuel: nat,
    ret: TypV,
    unsafe_ok: bool,
    h: HelpersContext,
    aux: usize,
) -> Option<Step> {
    match i {
        Instr::BinOp { op, dest, lhs, rhs } => binop_text(op, dest, lhs, rhs, m, fuel, unsafe_ok, h, aux),
        Instr::Call { .. } | Instr::TailCall { .. } => call_text(i, sigs, defined, ret, h, aux),
        Instr::Load { .. } | Instr::Store { .. } | Instr::Alloc { .. } | Instr::AllocArray { .. } => memory_text(
            i,
            unsafe_ok,
            h,
            aux,
        ),
        _ => plain_text(i, ret, h, aux),
    }
}

/// An optional string holds the given optional text.
pub open spec fn text_is(r: Option<String>, t: Option<Seq<char>>) -> bool {
    match r {
        Some(s) => t == Some(s@),
        None => t is None,
    }
}

/// The outcome of a translation step agrees with its model: the text, the helpers and
/// the auxiliary number afterwards on success, and an error exactly where the model has
/// no text.
pub open spec fn step_is(r: Result<String, String>, expected: Option<Step>, h: HelpersContext, aux: usize) -> bool {
    match r {
        Ok(s) => expected == Some((s@, h, aux)),
        Err(_) => expected is None,
    }
}

fn llvm_error(msg: &str) -> (r: String) {
    String::from_str(msg)
}

/// Transform a C0 type to its LLVM type; none for an unresolved alias.
pub fn llvm_type(typ: &Typ) -> (r: Option<&'static str>)
    ensures
        match r {
            Some(s) => llvm_type_text(typ@) == Some(s@),
            None => llvm_type_text(typ@) is None,
        },
{
    match typ {
        Typ::Void => Some("void"),
        Typ::Int => Some("i32"),
        Typ::Bool => Some("i1"),
        Typ::Typedef(_) => None,
        _ => Some("ptr"),
    }
}

fn push_temp(out: &mut String, id: usize)
    ensures
        final(out)@ == old(out)@ + temp_text(id),
{
    push_str(out, "%t");
    push_decimal(out, id);
    proof {
        assert(old(out)@ + "%t"@ + decimal_spec(id) =~= old(out)@ + temp_text(id));
    }
}

fn push_aux(out: &mut String, n: usize)
    ensures
        final(out)@ == old(out)@ + aux_text(n),
{
    push_str(out, "%aux");
    push_decimal(out, n);
    proof {
        assert(old(out)@ + "%aux"@ + decimal_spec(n) =~= old(out)@ + aux_text(n));
    }
}

fn push_dest(out: &mut String, d: &Temp)
    ensures
        final(out)@ == old(out)@ + dest_text(*d),
{
    push_str(out, "\t");
    push_temp(out, d.0);
    push_str(out, " = ");
    proof {
        assert(old(out)@ + "\t"@ + temp_text(d.0) + " = "@ =~= old(out)@ + dest_text(*d));
    }
}

fn temp_string(id: usize) -> (r: String)
    ensures
        r@ == temp_text(id),
{
    let mut s = String::new();
    push_temp(&mut s, id);
    assert(s@ =~= temp_text(id));
    s
}

fn aux_string(n: usize) -> (r: String)
    ensures
        r@ == aux_text(n),
{
    let mut s = String::new();
    push_aux(&mut s, n);
    assert(s@ =~= aux_text(n));
    s
}

fn signed_string(v: i64) -> (r: String)
    ensures
        r@ == signed_decimal_spec(v),
{
    let mut s = String::new();
    push_signed_decimal(&mut s, v);
    assert(s@ =~= signed_decimal_spec(v));
    s
}

/// Stringify a boolean operand; none for a temporary of another type.
pub fn emit_i1(op: &Operand) -> (r: Option<String>)
    ensures
        text_is(r, i1_text(*op)),
{
    match op {
        Operand::Const(c) => if c.0 == 0 {
            Some(String::from_str("false"))
        } else {
            Some(String::from_str("true"))
        },
        Operand::Temp(t) => match t.1 {
            Typ::Bool => Some(temp_string(t.0)),
            _ => None,
        },
    }
}

/// Stringify an integer operand; none for a temporary of another type.
pub fn emit_i32(op: &Operand) -> (r: Option<String>)
    ensures
        text_is(r, i32_text(*op)),
{
    match op {
        Operand::Const(c) => Some(signed_string(c.0)),
        Operand::Temp(t) => match t.1 {
            Typ::Int => Some(temp_string(t.0)),
            _ => None,
        },
    }
}

/// Stringify a pointer-like operand.
pub fn emit_ptr(op: &Operand) -> (r: String)
    ensures
        r@ == ptr_text(*op),
{
    match op {
        Operand::Const(c) => if c.0 == 0 {
            String::from_str("null")
        } else {
            let mut s = String::from_str("inttoptr (i64 ");
            push_signed_decimal(&mut s, c.0);
            push_str(&mut s, " to ptr)");
            assert(s@ =~= ptr_text(*op));
            s
        },
        Operand::Temp(t) => temp_string(t.0),
    }
}

/// Stringify an immediate of a given type; none for void and unresolved aliases.
pub fn emit_const_of_typ(value: i64, typ: &Typ) -> (r: Option<String>)
    ensures
        text_is(r, const_of_typ_text(value, typ@)),
{
    match typ {
        Typ::Bool => if value == 0 {
            Some(String::from_str("false"))
        } else {
            Some(String::from_str("true"))
        },
        Typ::Int => Some(signed_string(value)),
        Typ::Void | Typ::Typedef(_) => None,
        _ => Some(String::from_str("null")),
    }
}

/// Stringify an operand of a given type.
pub fn emit_operand_of_typ(op: &Operand, typ: &Typ) -> (r: Option<String>)
    ensures
        text_is(r, operand_of_typ_text(*op, typ@)),
{
    match typ {
        Typ::Bool => emit_i1(op),
        Typ::Int => emit_i32(op),
        Typ::Void | Typ::Typedef(_) => None,
        _ => Some(emit_ptr(op)),
    }
}

/// Stringify an operand as an `i32`, widening a boolean temporary through an auxiliary
/// value: the value and the instructions computing it.
pub fn cast_to_i32(op: &Operand, aux_counter: &mut usize) -> (r: Option<(String, String)>)
    requires
        *old(aux_counter) < usize::MAX,
    ensures
        match r {
            Some(p) => cast_i32_text(*op, *old(aux_counter)) == Some((p.0@, p.1@, *final(aux_counter))),
            None => cast_i32_text(*op, *old(aux_counter)) is None,
        },
{
    match op {
        Operand::Const(c) => {
            let e = String::new();
            assert(e@ =~= Seq::<char>::empty());
            Some((signed_string(c.0), e))
        },
        Operand::Temp(t) => match t.1 {
            Typ::Bool => {
                let n = *aux_counter;
                *aux_counter = n + 1;
                let mut pre = String::from_str("\t");
                push_aux(&mut pre, n);
                push_str(&mut pre, " = zext i1 ");
                push_temp(&mut pre, t.0);
                push_str(&mut pre, " to i32\n");
                assert(pre@ =~= "\t"@ + aux_text(n) + " = zext i1 "@ + temp_text(t.0) + " to i32\n"@);
                Some((aux_string(n), pre))
            },
            Typ::Int => {
                let e = String::new();
                assert(e@ =~= Seq::<char>::empty());
                Some((temp_string(t.0), e))
            },
            _ => None,
        },
    }
}

/// Stringify an operand as an `i64`: booleans are zero-extended and integers
/// sign-extended through an auxiliary value; the value and the instructions computing it.
pub fn cast_to_i64(op: &Operand, aux_counter: &mut usize) -> (r: Option<(String, String)>)
    requires
        *old(aux_counter) < usize::MAX,
    ensures
        match r {
            Some(p) => cast_i64_text(*op, *old(aux_counter)) == Some((p.0@, p.1@, *final(aux_counter))),
            None => cast_i64_text(*op, *old(aux_counter)) is None,
        },
{
    match op {
        Operand::Const(c) => {
            let e = String::new();
            assert(e@ =~= Seq::<char>::empty());
            Some((signed_string(c.0), e))
        },
        Operand::Temp(t) => match t.1 {
            Typ::Bool => {
                let n = *aux_counter;
                *aux_counter = n + 1;
                let mut pre = String::from_str("\t");
                push_aux(&mut pre, n);
                push_str(&mut pre, " = zext i1 ");
                push_temp(&mut pre, t.0);
                push_str(&mut pre, " to i64\n");
                assert(pre@ =~= "\t"@ + aux_text(n) + " = zext i1 "@ + temp_text(t.0) + " to i64\n"@);
                Some((aux_string(n), pre))
            },
            Typ::Int => {
                let n = *aux_counter;
                *aux_counter = n + 1;
                let mut pre = String::from_str("\t");
                push_aux(&mut pre, n);
                push_str(&mut pre, " = sext i32 ");
                push_temp(&mut pre, t.0);
                push_str(&mut pre, " to i64\n");
                assert(pre@ =~= "\t"@ + aux_text(n) + " = sext i32 "@ + temp_text(t.0) + " to i64\n"@);
                Some((aux_string(n), pre))
            },
            _ => None,
        },
    }
}

/// Whether a type is treated as a pointer in LLVM lowering.
pub fn is_ptr_like(typ: &Typ) -> (r: bool)
    ensures
        r == ptr_like(typ@),
{
    match typ {
        Typ::Null | Typ::Pointer(..) | Typ::Array(..) | Typ::Struct(_) => true,
        _ => false,
    }
}

/// Whether a type is integer-like for pointer arithmetic.
pub fn is_int_like(typ: &Typ) -> (r: bool)
    ensures
        r == int_like(typ@),
{
    match typ {
        Typ::Int | Typ::Bool => true,
        _ => false,
    }
}

/// Size of the data stored at an index of an array: 8 for a nested array, else the size
/// of the element type. Fails for a type that is no array or an element without a size.
pub fn array_index_elem_size(array_typ: &Typ, symbol_table: &SymbolTable) -> (r: Result<i64, String>)
    requires
        symbol_table.wf(),
    ensures
        r is Ok <==> elem_size_spec(symbol_table@, array_typ@, symbol_table.struct_fuel()) is Some,
        r matches Ok(n) ==> elem_size_spec(symbol_table@, array_typ@, symbol_table.struct_fuel()) == Some(n as int),
{
    match array_typ {
        Typ::Array(inner, depth) => if *depth > 1 {
            Ok(8)
        } else {
            type_size_bytes(&**inner, symbol_table)
        },
        _ => Err(llvm_error("element size of a type that is no array")),
    }
}

fn push_string(out: &mut String, s: &String)
    ensures
        final(out)@ == old(out)@ + s@,
{
    push_str(out, s.as_str());
}

fn cmp_mnemonic(op: BinOp) -> (r: &'static str)
    ensures
        r@ == cmp_name(op),
{
    match op {
        BinOp::CmpEq => "eq",
        BinOp::CmpNeq => "ne",
        BinOp::Lt => "slt",
        BinOp::Gt => "sgt",
        BinOp::Lte => "sle",
        _ => "sge",
    }
}

fn arith_mnemonic(op: BinOp) -> (r: Option<&'static str>)
    ensures
        match r {
            Some(n) => arith_name(op) == Some(n@),
            None => arith_name(op) is None,
        },
{
    match op {
        BinOp::Add => Some("add"),
        BinOp::Sub => Some("sub"),
        BinOp::Mul => Some("mul"),
        BinOp::Div => Some("sdiv"),
        BinOp::Mod => Some("srem"),
        BinOp::And => Some("and"),
        BinOp::Xor => Some("xor"),
        BinOp::Or => Some("or"),
        BinOp::Sal => Some("shl"),
        BinOp::Sar => Some("ashr"),
        _ => None,
    }
}

fn ill_typed() -> (r: String) {
    llvm_error("ill-typed instruction in LLVM lowering")
}

/// LLVM text of a comparison.
fn generate_cmp(
    op: BinOp,
    dest: &Temp,
    lhs: &Operand,
    rhs: &Operand,
    helpers_ctx: &mut HelpersContext,
    aux_counter: &mut usize,
) -> (r: Result<String, String>)
    requires
        is_cmp(op),
        *old(aux_counter) + 2 <= usize::MAX,
    ensures
        step_is(r, cmp_text(op, *dest, *lhs, *rhs, *old(helpers_ctx), *old(aux_counter)), *final(helpers_ctx), *final(aux_counter)),
{
    let lt = operand_type(lhs);
    let rt = operand_type(rhs);
    let mut out = String::new();
    if is_ptr_like(&lt) || is_ptr_like(&rt) {
        match op {
            BinOp::CmpEq | BinOp::CmpNeq => {},
            _ => return Err(llvm_error("pointers compare only for equality")),
        }
        let a = emit_ptr(lhs);
        let b = emit_ptr(rhs);
        push_dest(&mut out, dest);
        push_str(&mut out, "icmp ");
        push_str(&mut out, cmp_mnemonic(op));
        push_str(&mut out, " ptr ");
        push_string(&mut out, &a);
        push_str(&mut out, ", ");
        push_string(&mut out, &b);
        push_str(&mut out, "\n");
        assert(out@ =~= dest_text(*dest) + "icmp "@ + cmp_name(op) + " ptr "@ + a@ + ", "@ + b@ + "\n"@);
        return Ok(out);
    }
    let both_bool = match (&lt, &rt) {
        (Typ::Bool, Typ::Bool) => true,
        _ => false,
    };
    if both_bool {
        let a = match emit_i1(lhs) {
            Some(a) => a,
            None => return Err(ill_typed()),
        };
        let b = match emit_i1(rhs) {
            Some(b) => b,
            None => return Err(ill_typed()),
        };
        push_dest(&mut out, dest);
        push_str(&mut out, "icmp ");
        push_str(&mut out, cmp_mnemonic(op));
        push_str(&mut out, " i1 ");
        push_string(&mut out, &a);
        push_str(&mut out, ", ");
        push_string(&mut out, &b);
        push_str(&mut out, "\n");
        assert(out@ =~= dest_text(*dest) + "icmp "@ + cmp_name(op) + " i1 "@ + a@ + ", "@ + b@ + "\n"@);
        return Ok(out);
    }
    let (a, pa) = match cast_to_i32(lhs, aux_counter) {
        Some(p) => p,
        None => return Err(ill_typed()),
    };
    let (b, pb) = match cast_to_i32(rhs, aux_counter) {
        Some(p) => p,
        None => return Err(ill_typed()),
    };
    push_string(&mut out, &pa);
    push_string(&mut out, &pb);
    push_dest(&mut out, dest);
    push_str(&mut out, "icmp ");
    push_str(&mut out, cmp_mnemonic(op));
    push_str(&mut out, " i32 ");
    push_string(&mut out, &a);
    push_str(&mut out, ", ");
    push_string(&mut out, &b);
    push_str(&mut out, "\n");
    assert(out@ =~= pa@ + pb@ + dest_text(*dest) + "icmp "@ + cmp_name(op) + " i32 "@ + a@ + ", "@ + b@ + "\n"@);
    Ok(out)
}

/// An offset widened to `i64`, negated where asked: the value and the instructions
/// computing it.
fn negated_offset(offset_op: &Operand, negate: bool, aux_counter: &mut usize) -> (r: Result<(String, String), String>)
    requires
        *old(aux_counter) + 2 <= usize::MAX,
    ensures
        match r {
            Ok(p) => offset_text(*offset_op, negate, *old(aux_counter)) == Some((p.0@, p.1@, *final(aux_counter))),
            Err(_) => offset_text(*offset_op, negate, *old(aux_counter)) is None,
        },
{
    let (off, mut prefix) = match cast_to_i64(offset_op, aux_counter) {
        Some(p) => p,
        None => return Err(ill_typed()),
    };
    if negate {
        let n = *aux_counter;
        *aux_counter = n + 1;
        let ghost pre0 = prefix@;
        push_str(&mut prefix, "\t");
        push_aux(&mut prefix, n);
        push_str(&mut prefix, " = sub i64 0, ");
        push_string(&mut prefix, &off);
        push_str(&mut prefix, "\n");
        assert(prefix@ =~= pre0 + "\t"@ + aux_text(n) + " = sub i64 0, "@ + off@ + "\n"@);
        Ok((aux_string(n), prefix))
    } else {
        Ok((off, prefix))
    }
}

/// The byte offset of pointer arithmetic: scaled by the element size for an array.
fn scaled_offset(
    offset_op: &Operand,
    negate: bool,
    ptr_typ: &Typ,
    symbol_table: &SymbolTable,
    aux_counter: &mut usize,
) -> (r: Result<(String, String), String>)
    requires
        symbol_table.wf(),
        *old(aux_counter) + 3 <= usize::MAX,
    ensures
        match r {
            Ok(p) => scaled_offset_text(*offset_op, negate, ptr_typ@, symbol_table@, symbol_table.struct_fuel(), *old(aux_counter))
                == Some((p.0@, p.1@, *final(aux_counter))),
            Err(_) => scaled_offset_text(*offset_op, negate, ptr_typ@, symbol_table@, symbol_table.struct_fuel(), *old(aux_counter)) is None,
        },
{
    let is_array = match ptr_typ {
        Typ::Array(..) => true,
        _ => false,
    };
    let elem_size: i64 = if is_array {
        match array_index_elem_size(ptr_typ, symbol_table) {
            Ok(e) => e,
            Err(e) => return Err(e),
        }
    } else {
        1
    };
    let (offset, mut prefix) = negated_offset(offset_op, negate, aux_counter)?;
    if elem_size == 1 {
        Ok((offset, prefix))
    } else {
        let n = *aux_counter;
        *aux_counter = n + 1;
        let ghost pre0 = prefix@;
        push_str(&mut prefix, "\t");
        push_aux(&mut prefix, n);
        push_str(&mut prefix, " = mul i64 ");
        push_string(&mut prefix, &offset);
        push_str(&mut prefix, ", ");
        push_signed_decimal(&mut prefix, elem_size);
        push_str(&mut prefix, "\n");
        assert(prefix@ =~= pre0 + "\t"@ + aux_text(n) + " = mul i64 "@ + offset@ + ", "@ + signed_decimal_spec(elem_size)
            + "\n"@);
        Ok((aux_string(n), prefix))
    }
}

/// The end of pointer arithmetic: the address computation behind its checks.
fn generate_ptr_finish(
    prefix: String,
    ptr_value: &String,
    scaled: &String,
    is_array: bool,
    dest: &Temp,
    allow_unsafe: bool,
    helpers_ctx: &mut HelpersContext,
    aux_counter: &mut usize,
) -> (r: String)
    requires
        *old(aux_counter) + 1 <= usize::MAX,
    ensures
        ptr_finish_text(prefix@, ptr_value@, scaled@, is_array, *dest, allow_unsafe, *old(helpers_ctx), *old(aux_counter))
            == (r@, *final(helpers_ctx), *final(aux_counter)),
{
    let ghost pre = prefix@;
    let mut out = prefix;
    if allow_unsafe {
        push_dest(&mut out, dest);
        push_str(&mut out, "getelementptr inbounds i8, ptr ");
        push_string(&mut out, ptr_value);
        push_str(&mut out, ", i64 ");
        push_string(&mut out, scaled);
        push_str(&mut out, "\n");
        assert(out@ =~= pre + dest_text(*dest) + "getelementptr inbounds i8, ptr "@ + ptr_value@ + ", i64 "@ + scaled@ + "\n"@);
        return out;
    }
    let n = *aux_counter;
    *aux_counter = n + 1;
    let checked = aux_string(n);
    push_str(&mut out, "\t");
    push_string(&mut out, &checked);
    push_str(&mut out, " = call ptr @_c0_llvm_check_not_null(ptr ");
    push_string(&mut out, ptr_value);
    push_str(&mut out, ")\n");
    let ghost check = out@;
    assert(check =~= pre + "\t"@ + aux_text(n) + " = call ptr @_c0_llvm_check_not_null(ptr "@ + ptr_value@ + ")\n"@);
    helpers_ctx.needs_null_check = true;
    if is_array {
        helpers_ctx.needs_array_check = true;
        push_str(&mut out, "\tcall void @_c0_llvm_check_array(ptr ");
        push_string(&mut out, &checked);
        push_str(&mut out, ", i64 ");
        push_string(&mut out, scaled);
        push_str(&mut out, ")\n");
    }
    let ghost mid = out@;
    push_dest(&mut out, dest);
    push_str(&mut out, "getelementptr inbounds i8, ptr ");
    push_string(&mut out, &checked);
    push_str(&mut out, ", i64 ");
    push_string(&mut out, scaled);
    push_str(&mut out, "\n");
    assert(out@ =~= mid + (dest_text(*dest) + "getelementptr inbounds i8, ptr "@ + aux_text(n) + ", i64 "@ + scaled@ + "\n"@));
    proof {
        if is_array {
            assert(mid =~= check + "\tcall void @_c0_llvm_check_array(ptr "@ + aux_text(n) + ", i64 "@ + scaled@ + ")\n"@);
        }
    }
    out
}

/// LLVM text of pointer arithmetic.
#[verifier::spinoff_prover]
fn generate_ptr_arith(
    op: BinOp,
    dest: &Temp,
    lhs: &Operand,
    rhs: &Operand,
    symbol_table: &SymbolTable,
    allow_unsafe: bool,
    helpers_ctx: &mut HelpersContext,
    aux_counter: &mut usize,
) -> (r: Result<String, String>)
    requires
        symbol_table.wf(),
        *old(aux_counter) + 4 <= usize::MAX,
    ensures
        step_is(
            r,
            ptr_arith_text(
                op,
                *dest,
                *lhs,
                *rhs,
                symbol_table@,
                symbol_table.struct_fuel(),
                allow_unsafe,
                *old(helpers_ctx),
                *old(aux_counter),
            ),
            *final(helpers_ctx),
            *final(aux_counter),
        ),
{
    let lt = operand_type(lhs);
    let rt = operand_type(rhs);
    let is_sub = match op {
        BinOp::Sub => true,
        _ => false,
    };
    let is_add = match op {
        BinOp::Add => true,
        _ => false,
    };
    let (ptr_op, offset_op, negate) = if is_ptr_like(&lt) && is_int_like(&rt) {
        (lhs, rhs, is_sub)
    } else if is_add && is_int_like(&lt) && is_ptr_like(&rt) {
        (rhs, lhs, false)
    } else {
        return Err(llvm_error("unsupported pointer arithmetic"));
    };
    let ptr_typ = operand_type(ptr_op);
    let ptr_value = emit_ptr(ptr_op);
    let (scaled, prefix) = scaled_offset(offset_op, negate, &ptr_typ, symbol_table, aux_counter)?;
    let is_array = match ptr_typ {
        Typ::Array(..) => true,
        _ => false,
    };
    Ok(generate_ptr_finish(prefix, &ptr_value, &scaled, is_array, dest, allow_unsafe, helpers_ctx, aux_counter))
}

fn push_two(out: &mut String, a: &String, b: &String)
    ensures
        final(out)@ == old(out)@ + a@ + ", "@ + b@ + "\n"@,
{
    push_string(out, a);
    push_str(out, ", ");
    push_string(out, b);
    push_str(out, "\n");
    assert(final(out)@ =~= old(out)@ + a@ + ", "@ + b@ + "\n"@);
}

/// LLVM text of an arithmetic or bitwise operation.
fn generate_arith(
    op: BinOp,
    dest: &Temp,
    lhs: &Operand,
    rhs: &Operand,
    symbol_table: &SymbolTable,
    allow_unsafe: bool,
    helpers_ctx: &mut HelpersContext,
    aux_counter: &mut usize,
) -> (r: Result<String, String>)
    requires
        symbol_table.wf(),
        *old(aux_counter) + 4 <= usize::MAX,
    ensures
        step_is(
            r,
            arith_text(
                op,
                *dest,
                *lhs,
                *rhs,
                symbol_table@,
                symbol_table.struct_fuel(),
                allow_unsafe,
                *old(helpers_ctx),
                *old(aux_counter),
            ),
            *final(helpers_ctx),
            *final(aux_counter),
        ),
{
    let is_div = match op {
        BinOp::Div | BinOp::Mod => true,
        _ => false,
    };
    let is_shift = match op {
        BinOp::Sal | BinOp::Sar => true,
        _ => false,
    };
    let is_add_sub = match op {
        BinOp::Add | BinOp::Sub => true,
        _ => false,
    };
    if is_add_sub && (is_ptr_like(&operand_type(lhs)) || is_ptr_like(&operand_type(rhs))) && !((is_div || is_shift)
        && !allow_unsafe) {
        return generate_ptr_arith(op, dest, lhs, rhs, symbol_table, allow_unsafe, helpers_ctx, aux_counter);
    }
    let a = match emit_i32(lhs) {
        Some(a) => a,
        None => return Err(ill_typed()),
    };
    let b = match emit_i32(rhs) {
        Some(b) => b,
        None => return Err(ill_typed()),
    };
    let name = match arith_mnemonic(op) {
        Some(n) => n,
        None => return Err(ill_typed()),
    };
    let mut out = String::new();
    if is_div && !allow_unsafe {
        helpers_ctx.needs_div_check = true;
        push_str(&mut out, "\tcall void @_c0_llvm_check_div(i32 ");
        push_string(&mut out, &a);
        push_str(&mut out, ", i32 ");
        push_string(&mut out, &b);
        push_str(&mut out, ")\n");
    } else if is_shift && !allow_unsafe {
        helpers_ctx.needs_shift_check = true;
        push_str(&mut out, "\tcall void @_c0_llvm_check_shift(i32 ");
        push_string(&mut out, &b);
        push_str(&mut out, ")\n");
    }
    let ghost pre = out@;
    push_dest(&mut out, dest);
    push_str(&mut out, name);
    push_str(&mut out, " i32 ");
    push_two(&mut out, &a, &b);
    assert(out@ =~= pre + dest_text(*dest) + name@ + " i32 "@ + a@ + ", "@ + b@ + "\n"@);
    proof {
        if is_div && !allow_unsafe {
            assert(pre =~= "\tcall void @_c0_llvm_check_div(i32 "@ + a@ + ", i32 "@ + b@ + ")\n"@);
        } else if is_shift && !allow_unsafe {
            assert(pre =~= "\tcall void @_c0_llvm_check_shift(i32 "@ + b@ + ")\n"@);
        } else {
            assert(pre =~= Seq::<char>::empty());
        }
    }
    Ok(out)
}

/// LLVM text of a binary operation.
fn generate_binop(
    op: BinOp,
    dest: &Temp,
    lhs: &Operand,
    rhs: &Operand,
    symbol_table: &SymbolTable,
    allow_unsafe: bool,
    helpers_ctx: &mut HelpersContext,
    aux_counter: &mut usize,
) -> (r: Result<String, String>)
    requires
        symbol_table.wf(),
        *old(aux_counter) + 4 <= usize::MAX,
    ensures
        step_is(
            r,
            binop_text(
                op,
                *dest,
                *lhs,
                *rhs,
                symbol_table@,
                symbol_table.struct_fuel(),
                allow_unsafe,
                *old(helpers_ctx),
                *old(aux_counter),
            ),
            *final(helpers_ctx),
            *final(aux_counter),
        ),
{
    match op {
        BinOp::LAnd | BinOp::LOr => {
            let a = match emit_i1(lhs) {
                Some(a) => a,
                None => return Err(ill_typed()),
            };
            let b = match emit_i1(rhs) {
                Some(b) => b,
                None => return Err(ill_typed()),
            };
            let name = match op {
                BinOp::LAnd => "and",
                _ => "or",
            };
            let mut out = String::new();
            push_dest(&mut out, dest);
            push_str(&mut out, name);
            push_str(&mut out, " i1 ");
            push_two(&mut out, &a, &b);
            assert(out@ =~= dest_text(*dest) + name@ + " i1 "@ + a@ + ", "@ + b@ + "\n"@);
            Ok(out)
        },
        BinOp::CmpEq | BinOp::CmpNeq | BinOp::Gt | BinOp::Lt | BinOp::Gte | BinOp::Lte => generate_cmp(
            op,
            dest,
            lhs,
            rhs,
            helpers_ctx,
            aux_counter,
        ),
        _ => generate_arith(op, dest, lhs, rhs, symbol_table, allow_unsafe, helpers_ctx, aux_counter),
    }
}

/// Once a prefix of the parameters has no argument text, the whole list has none.
proof fn lemma_args_none(args: Seq<Operand>, ps: Seq<TypV>, j: int)
    requires
        0 <= j <= ps.len(),
        args_text(args, ps.take(j)) is None,
    ensures
        args_text(args, ps) is None,
    decreases ps.len() - j,
{
    if j == ps.len() {
        assert(ps.take(j) =~= ps);
    } else {
        assert(ps.take(j + 1).drop_last() =~= ps.take(j));
        lemma_args_none(args, ps, j + 1);
    }
}

/// Arguments of a call, each at its parameter's type, joined by `, `; none when an
/// argument is missing or ill-typed.
fn generate_args(args: &Vec<Operand>, params: &Vec<Typ>) -> (r: Option<String>)
    ensures
        text_is(r, args_text(args@, typ_views(params@))),
{
    let ghost ps = typ_views(params@);
    let mut out = String::new();
    let mut k: usize = 0;
    assert(ps.take(0) =~= Seq::<TypV>::empty());
    while k < params.len()
        invariant
            ps == typ_views(params@),
            ps.len() == params@.len(),
            k <= params@.len(),
            args_text(args@, ps.take(k as int)) == Some(out@),
        decreases params@.len() - k,
    {
        proof {
            assert(ps.take(k + 1).drop_last() =~= ps.take(k as int));
            assert(ps.take(k + 1).last() == params@[k as int]@);
        }
        if k >= args.len() {
            proof { lemma_args_none(args@, ps, k + 1); }
            return None;
        }
        let ty = match llvm_type(&params[k]) {
            Some(t) => t,
            None => {
                proof { lemma_args_none(args@, ps, k + 1); }
                return None;
            },
        };
        let a = match emit_operand_of_typ(&args[k], &params[k]) {
            Some(a) => a,
            None => {
                proof { lemma_args_none(args@, ps, k + 1); }
                return None;
            },
        };
        let ghost prev = out@;
        if k > 0 {
            push_str(&mut out, ", ");
        }
        push_str(&mut out, ty);
        push_str(&mut out, " ");
        push_string(&mut out, &a);
        assert(out@ =~= (if k + 1 == 1 { Seq::empty() } else { prev + ", "@ }) + ty@ + " "@ + a@);
        k = k + 1;
    }
    assert(ps.take(k as int) =~= ps);
    Some(out)
}

/// Position of the signature recorded last under a name.
fn lookup_signature(function_signatures: &Vec<(Ident, FunctionSignature)>, name: &Ident) -> (r: Option<usize>)
    ensures
        match r {
            Some(i) => i < function_signatures@.len() && sig_lookup(signatures_view(function_signatures@), name@) == Some(
                signatures_view(function_signatures@)[i as int].1,
            ) && function_signatures@[i as int].0@ == name@ && forall|j: int|
                i < j < function_signatures@.len() ==> (#[trigger] function_signatures@[j]).0@ != name@,
            None => sig_lookup(signatures_view(function_signatures@), name@) is None && forall|j: int|
                0 <= j < function_signatures@.len() ==> (#[trigger] function_signatures@[j]).0@ != name@,
        },
{
    let ghost sv = signatures_view(function_signatures@);
    let mut i: usize = function_signatures.len();
    assert(sv.take(i as int) =~= sv);
    while i > 0
        invariant
            sv == signatures_view(function_signatures@),
            sv.len() == function_signatures@.len(),
            i <= function_signatures@.len(),
            sig_lookup(sv, name@) == sig_lookup(sv.take(i as int), name@),
            forall|j: int| i <= j < function_signatures@.len() ==> (#[trigger] function_signatures@[j]).0@ != name@,
        decreases i,
    {
        proof {
            assert(sv.take(i as int).drop_last() =~= sv.take(i - 1));
            assert(sv.take(i as int).last() == sv[i - 1]);
        }
        if function_signatures[i - 1].0 == *name {
            return Some(i - 1);
        }
        i = i - 1;
    }
    None
}

/// Whether a name is in a list.
fn contains_name(names: &Vec<Ident>, name: &Ident) -> (r: bool)
    ensures
        r == names_view(names@).contains(name@),
{
    let ghost nv = names_view(names@);
    let mut i: usize = 0;
    while i < names.len()
        invariant
            nv == names_view(names@),
            nv.len() == names@.len(),
            i <= names@.len(),
            forall|j: int| 0 <= j < i ==> nv[j] != name@,
        decreases names@.len() - i,
    {
        if names[i] == *name {
            assert(nv[i as int] == name@);
            return true;
        }
        i = i + 1;
    }
    false
}

/// LLVM text of a call or a tail call.
fn generate_call(
    instr: &Instr,
    function_signatures: &Vec<(Ident, FunctionSignature)>,
    source_defined: &Vec<Ident>,
    return_type: &Typ,
    helpers_ctx: &HelpersContext,
    aux_counter: &mut usize,
) -> (r: Result<String, String>)
    requires
        *old(aux_counter) + 1 <= usize::MAX,
    ensures
        step_is(
            r,
            call_text(
                *instr,
                signatures_view(function_signatures@),
                names_view(source_defined@),
                return_type@,
                *helpers_ctx,
                *old(aux_counter),
            ),
            *helpers_ctx,
            *final(aux_counter),
        ),
{
    let (name, args, tail, dest) = match instr {
        Instr::Call { dest, name, args } => (name, args, false, dest),
        Instr::TailCall { name, args } => (name, args, true, &None),
        _ => return Err(llvm_error("not a call")),
    };
    let i = match lookup_signature(function_signatures, name) {
        Some(i) => i,
        None => return Err(llvm_error("call of an unknown function")),
    };
    let sig = &function_signatures[i].1;
    let at = match generate_args(args, &sig.param_typs) {
        Some(a) => a,
        None => return Err(ill_typed()),
    };
    let rt = match llvm_type(&sig.return_typ) {
        Some(t) => t,
        None => return Err(ill_typed()),
    };
    let mut call = String::new();
    if tail {
        push_str(&mut call, "tail call ");
    } else {
        push_str(&mut call, "call ");
    }
    push_str(&mut call, rt);
    push_str(&mut call, " @");
    if contains_name(source_defined, name) {
        push_str(&mut call, "_c0_");
    }
    push_string(&mut call, name);
    push_str(&mut call, "(");
    push_string(&mut call, &at);
    push_str(&mut call, ")\n");
    let ghost callee = callee_text(names_view(source_defined@), name@);
    assert(call@ =~= (if tail { "tail call "@ } else { "call "@ }) + rt@ + " @"@ + callee + "("@ + at@ + ")\n"@);
    let mut out = String::new();
    if !tail {
        match dest {
            Some(t) => push_dest(&mut out, t),
            None => push_str(&mut out, "\t"),
        }
        push_string(&mut out, &call);
        return Ok(out);
    }
    match sig.return_typ {
        Typ::Void => {
            push_str(&mut out, "\t");
            push_string(&mut out, &call);
            push_str(&mut out, "\tret void\n");
            Ok(out)
        },
        _ => {
            let rty = match llvm_type(return_type) {
                Some(t) => t,
                None => return Err(ill_typed()),
            };
            let n = *aux_counter;
            *aux_counter = n + 1;
            let x = aux_string(n);
            push_str(&mut out, "\t");
            push_string(&mut out, &x);
            push_str(&mut out, " = ");
            push_string(&mut out, &call);
            push_str(&mut out, "\tret ");
            push_str(&mut out, rty);
            push_str(&mut out, " ");
            push_string(&mut out, &x);
            push_str(&mut out, "\n");
            assert(out@ =~= "\t"@ + aux_text(n) + " = "@ + call@ + "\tret "@ + rty@ + " "@ + aux_text(n) + "\n"@);
            Ok(out)
        },
    }
}

fn push_null_check(out: &mut String, n: usize, addr: &String)
    ensures
        final(out)@ == old(out)@ + ("\t"@ + aux_text(n) + " = call ptr @_c0_llvm_check_not_null(ptr "@ + addr@ + ")\n"@),
{
    push_str(out, "\t");
    push_aux(out, n);
    push_str(out, " = call ptr @_c0_llvm_check_not_null(ptr ");
    push_string(out, addr);
    push_str(out, ")\n");
    assert(final(out)@ =~= old(out)@ + ("\t"@ + aux_text(n) + " = call ptr @_c0_llvm_check_not_null(ptr "@ + addr@
        + ")\n"@));
}

/// LLVM text of a load, a store or an allocation.
fn generate_memory(
    instr: &Instr,
    allow_unsafe: bool,
    helpers_ctx: &mut HelpersContext,
    aux_counter: &mut usize,
) -> (r: Result<String, String>)
    requires
        *old(aux_counter) + 2 <= usize::MAX,
    ensures
        step_is(
            r,
            memory_text(*instr, allow_unsafe, *old(helpers_ctx), *old(aux_counter)),
            *final(helpers_ctx),
            *final(aux_counter),
        ),
{
    let mut out = String::new();
    match instr {
        Instr::Load { dest, addr } => {
            let ty = match llvm_type(&dest.1) {
                Some(t) => t,
                None => return Err(ill_typed()),
            };
            let a = emit_ptr(addr);
            if allow_unsafe {
                push_dest(&mut out, dest);
                push_str(&mut out, "load ");
                push_str(&mut out, ty);
                push_str(&mut out, ", ptr ");
                push_string(&mut out, &a);
                push_str(&mut out, "\n");
                assert(out@ =~= dest_text(*dest) + "load "@ + ty@ + ", ptr "@ + a@ + "\n"@);
            } else {
                let n = *aux_counter;
                *aux_counter = n + 1;
                helpers_ctx.needs_null_check = true;
                push_null_check(&mut out, n, &a);
                push_dest(&mut out, dest);
                push_str(&mut out, "load ");
                push_str(&mut out, ty);
                push_str(&mut out, ", ptr ");
                push_aux(&mut out, n);
                push_str(&mut out, "\n");
                assert(out@ =~= ("\t"@ + aux_text(n) + " = call ptr @_c0_llvm_check_not_null(ptr "@ + a@ + ")\n"@)
                    + dest_text(*dest) + "load "@ + ty@ + ", ptr "@ + aux_text(n) + "\n"@);
            }
            Ok(out)
        },
        Instr::Store { addr, src } => {
            let st = operand_type(src);
            let ty = match llvm_type(&st) {
                Some(t) => t,
                None => return Err(ill_typed()),
            };
            let v = match emit_operand_of_typ(src, &st) {
                Some(v) => v,
                None => return Err(ill_typed()),
            };
            let a = emit_ptr(addr);
            if allow_unsafe {
                push_str(&mut out, "\tstore ");
                push_str(&mut out, ty);
                push_str(&mut out, " ");
                push_string(&mut out, &v);
                push_str(&mut out, ", ptr ");
                push_string(&mut out, &a);
                push_str(&mut out, "\n");
                assert(out@ =~= "\tstore "@ + ty@ + " "@ + v@ + ", ptr "@ + a@ + "\n"@);
            } else {
                let n = *aux_counter;
                *aux_counter = n + 1;
                helpers_ctx.needs_null_check = true;
                push_null_check(&mut out, n, &a);
                push_str(&mut out, "\tstore ");
                push_str(&mut out, ty);
                push_str(&mut out, " ");
                push_string(&mut out, &v);
                push_str(&mut out, ", ptr ");
                push_aux(&mut out, n);
                push_str(&mut out, "\n");
                assert(out@ =~= ("\t"@ + aux_text(n) + " = call ptr @_c0_llvm_check_not_null(ptr "@ + a@ + ")\n"@)
                    + "\tstore "@ + ty@ + " "@ + v@ + ", ptr "@ + aux_text(n) + "\n"@);
            }
            Ok(out)
        },
        Instr::Alloc { dest, size } => {
            helpers_ctx.needs_alloc = true;
            let (sz, prefix) = match cast_to_i64(size, aux_counter) {
                Some(p) => p,
                None => return Err(ill_typed()),
            };
            push_string(&mut out, &prefix);
            push_dest(&mut out, dest);
            push_str(&mut out, "call ptr @calloc(i64 1, i64 ");
            push_string(&mut out, &sz);
            push_str(&mut out, ")\n");
            assert(out@ =~= prefix@ + dest_text(*dest) + "call ptr @calloc(i64 1, i64 "@ + sz@ + ")\n"@);
            Ok(out)
        },
        Instr::AllocArray { dest, size, count } => {
            helpers_ctx.needs_alloc = true;
            let (sz, p1) = match cast_to_i64(size, aux_counter) {
                Some(p) => p,
                None => return Err(ill_typed()),
            };
            let (cnt, p2) = match cast_to_i64(count, aux_counter) {
                Some(p) => p,
                None => return Err(ill_typed()),
            };
            push_string(&mut out, &p1);
            push_string(&mut out, &p2);
            push_dest(&mut out, dest);
            if allow_unsafe {
                push_str(&mut out, "call ptr @calloc(i64 ");
            } else {
                helpers_ctx.needs_alloc_array = true;
                push_str(&mut out, "call ptr @_c0_llvm_alloc_array(i64 ");
            }
            push_string(&mut out, &cnt);
            push_str(&mut out, ", i64 ");
            push_string(&mut out, &sz);
            push_str(&mut out, ")\n");
            assert(out@ =~= p1@ + p2@ + dest_text(*dest) + (if allow_unsafe {
                "call ptr @calloc(i64 "@
            } else {
                "call ptr @_c0_llvm_alloc_array(i64 "@
            }) + cnt@ + ", i64 "@ + sz@ + ")\n"@);
            Ok(out)
        },
        _ => Err(llvm_error("not a memory operation")),
    }
}

/// Once a prefix of the sources has no text, the whole list has none.
proof fn lemma_phi_none(srcs: Seq<(Label, Operand)>, t: TypV, j: int)
    requires
        0 <= j <= srcs.len(),
        phi_srcs_text(srcs.take(j), t) is None,
    ensures
        phi_srcs_text(srcs, t) is None,
    decreases srcs.len() - j,
{
    if j == srcs.len() {
        assert(srcs.take(j) =~= srcs);
    } else {
        assert(srcs.take(j + 1).drop_last() =~= srcs.take(j));
        lemma_phi_none(srcs, t, j + 1);
    }
}

/// Sources of a phi, joined by `, `.
fn generate_phi_srcs(srcs: &Vec<(Label, Operand)>, typ: &Typ) -> (r: Option<String>)
    ensures
        text_is(r, phi_srcs_text(srcs@, typ@)),
{
    let mut out = String::new();
    let mut k: usize = 0;
    assert(srcs@.take(0) =~= Seq::<(Label, Operand)>::empty());
    while k < srcs.len()
        invariant
            k <= srcs@.len(),
            phi_srcs_text(srcs@, typ@) is Some ==> phi_srcs_text(srcs@.take(k as int), typ@) == Some(out@),
            phi_srcs_text(srcs@.take(k as int), typ@) == Some(out@),
        decreases srcs@.len() - k,
    {
        proof {
            assert(srcs@.take(k + 1).drop_last() =~= srcs@.take(k as int));
            assert(srcs@.take(k + 1).last() == srcs@[k as int]);
        }
        let v = match &srcs[k].1 {
            Operand::Const(c) => emit_const_of_typ(c.0, typ),
            Operand::Temp(t) => Some(temp_string(t.0)),
        };
        let v = match v {
            Some(v) => v,
            None => {
                proof { lemma_phi_none(srcs@, typ@, k + 1); }
                return None;
            },
        };
        let ghost prev = out@;
        if k > 0 {
            push_str(&mut out, ", ");
        }
        push_str(&mut out, "[ ");
        push_string(&mut out, &v);
        push_str(&mut out, ", %L");
        push_decimal(&mut out, srcs[k].0.0);
        push_str(&mut out, " ]");
        assert(out@ =~= (if k + 1 == 1 { Seq::empty() } else { prev + ", "@ }) + "[ "@ + v@ + ", %L"@ + decimal_spec(
            srcs@[k as int].0.0,
        ) + " ]"@);
        k = k + 1;
    }
    assert(srcs@.take(k as int) =~= srcs@);
    Some(out)
}

/// LLVM text of a unary operation, label, jump, return, throw, phi or move.
fn generate_plain(instr: &Instr, return_type: &Typ, helpers_ctx: &mut HelpersContext, aux_counter: &usize) -> (r: Result<String, String>)
    ensures
        step_is(r, plain_text(*instr, return_type@, *old(helpers_ctx), *aux_counter), *final(helpers_ctx), *aux_counter),
{
    let mut out = String::new();
    match instr {
        Instr::UnOp { op, dest, src } => {
            let s = match op {
                UnOp::LNot => emit_i1(src),
                _ => emit_i32(src),
            };
            let s = match s {
                Some(s) => s,
                None => return Err(ill_typed()),
            };
            push_dest(&mut out, dest);
            match op {
                UnOp::Neg => {
                    push_str(&mut out, "sub i32 0, ");
                    push_string(&mut out, &s);
                    push_str(&mut out, "\n");
                    assert(out@ =~= dest_text(*dest) + "sub i32 0, "@ + s@ + "\n"@);
                },
                UnOp::Not => {
                    push_str(&mut out, "xor i32 ");
                    push_string(&mut out, &s);
                    push_str(&mut out, ", -1\n");
                    assert(out@ =~= dest_text(*dest) + "xor i32 "@ + s@ + ", -1\n"@);
                },
                UnOp::LNot => {
                    push_str(&mut out, "xor i1 ");
                    push_string(&mut out, &s);
                    push_str(&mut out, ", true\n");
                    assert(out@ =~= dest_text(*dest) + "xor i1 "@ + s@ + ", true\n"@);
                },
            }
            Ok(out)
        },
        Instr::Label(l) => {
            push_str(&mut out, "L");
            push_decimal(&mut out, l.0);
            push_str(&mut out, ":\n");
            assert(out@ =~= "L"@ + decimal_spec(l.0) + ":\n"@);
            Ok(out)
        },
        Instr::JumpTo(l) => {
            push_str(&mut out, "\tbr label %L");
            push_decimal(&mut out, l.0);
            push_str(&mut out, "\n");
            assert(out@ =~= "\tbr label %L"@ + decimal_spec(l.0) + "\n"@);
            Ok(out)
        },
        Instr::JumpIf { pred, holds, fails } => {
            let p = match emit_i1(pred) {
                Some(p) => p,
                None => return Err(ill_typed()),
            };
            push_str(&mut out, "\tbr i1 ");
            push_string(&mut out, &p);
            push_str(&mut out, ", label %L");
            push_decimal(&mut out, holds.0);
            push_str(&mut out, ", label %L");
            push_decimal(&mut out, fails.0);
            push_str(&mut out, "\n");
            assert(out@ =~= "\tbr i1 "@ + p@ + ", label %L"@ + decimal_spec(holds.0) + ", label %L"@ + decimal_spec(fails.0)
                + "\n"@);
            Ok(out)
        },
        Instr::Return(v) => match v {
            Some(v) => {
                let ty = match llvm_type(return_type) {
                    Some(t) => t,
                    None => return Err(ill_typed()),
                };
                let s = match emit_operand_of_typ(v, return_type) {
                    Some(s) => s,
                    None => return Err(ill_typed()),
                };
                push_str(&mut out, "\tret ");
                push_str(&mut out, ty);
                push_str(&mut out, " ");
                push_string(&mut out, &s);
                push_str(&mut out, "\n");
                assert(out@ =~= "\tret "@ + ty@ + " "@ + s@ + "\n"@);
                Ok(out)
            },
            None => {
                push_str(&mut out, "\tret void\n");
                Ok(out)
            },
        },
        Instr::Throw(_) => {
            helpers_ctx.needs_abort = true;
            push_str(&mut out, "\tcall void @abort()\n\tunreachable\n");
            Ok(out)
        },
        Instr::Phi { dest, srcs } => {
            let ty = match llvm_type(&dest.1) {
                Some(t) => t,
                None => return Err(ill_typed()),
            };
            let ops = match generate_phi_srcs(srcs, &dest.1) {
                Some(o) => o,
                None => return Err(ill_typed()),
            };
            push_dest(&mut out, dest);
            push_str(&mut out, "phi ");
            push_str(&mut out, ty);
            push_str(&mut out, " ");
            push_string(&mut out, &ops);
            push_str(&mut out, "\n");
            assert(out@ =~= dest_text(*dest) + "phi "@ + ty@ + " "@ + ops@ + "\n"@);
            Ok(out)
        },
        Instr::Move { dest, src } => {
            let s = match emit_operand_of_typ(src, &dest.1) {
                Some(s) => s,
                None => return Err(ill_typed()),
            };
            push_dest(&mut out, dest);
            match dest.1 {
                Typ::Bool => {
                    push_str(&mut out, "or i1 ");
                    push_string(&mut out, &s);
                    push_str(&mut out, ", false\n");
                    assert(out@ =~= dest_text(*dest) + "or i1 "@ + s@ + ", false\n"@);
                },
                Typ::Int => {
                    push_str(&mut out, "add i32 ");
                    push_string(&mut out, &s);
                    push_str(&mut out, ", 0\n");
                    assert(out@ =~= dest_text(*dest) + "add i32 "@ + s@ + ", 0\n"@);
                },
                _ => {
                    push_str(&mut out, "select i1 true, ptr ");
                    push_string(&mut out, &s);
                    push_str(&mut out, ", ptr null\n");
                    assert(out@ =~= dest_text(*dest) + "select i1 true, ptr "@ + s@ + ", ptr null\n"@);
                },
            }
            Ok(out)
        },
        _ => Err(llvm_error("instruction of another kind")),
    }
}

/// Generate the LLVM instructions of one IR instruction, recording the runtime helpers
/// it calls and numbering the auxiliary values it needs from `aux_counter` on. Fails
/// where the instruction is ill-typed, calls an unknown function, or passes fewer
/// arguments than its callee has parameters.
pub fn generate_instr(
    instr: &Instr,
    function_signatures: &Vec<(Ident, FunctionSignature)>,
    source_defined: &Vec<Ident>,
    symbol_table: &SymbolTable,
    return_type: &Typ,
    allow_unsafe: bool,
    helpers_ctx: &mut HelpersContext,
    aux_counter: &mut usize,
) -> (r: Result<String, String>)
    requires
        symbol_table.wf(),
        *old(aux_counter) + 4 <= usize::MAX,
    ensures
        step_is(
            r,
            instr_text(
                *instr,
                signatures_view(function_signatures@),
                names_view(source_defined@),
                symbol_table@,
                symbol_table.struct_fuel(),
                return_type@,
                allow_unsafe,
                *old(helpers_ctx),
                *old(aux_counter),
            ),
            *final(helpers_ctx),
            *final(aux_counter),
        ),
{
    reveal(instr_text);
    match instr {
        Instr::BinOp { op, dest, lhs, rhs } => generate_binop(
            *op,
            dest,
            lhs,
            rhs,
            symbol_table,
            allow_unsafe,
            helpers_ctx,
            aux_counter,
        ),
        Instr::Call { .. } | Instr::TailCall { .. } => generate_call(
            instr,
            function_signatures,
            source_defined,
            return_type,
            helpers_ctx,
            aux_counter,
        ),
        Instr::Load { .. } | Instr::Store { .. } | Instr::Alloc { .. } | Instr::AllocArray { .. } => generate_memory(
            instr,
            allow_unsafe,
            helpers_ctx,
            aux_counter,
        ),
        _ => generate_plain(instr, return_type, helpers_ctx, aux_counter),
    }
}

/// Text of the runtime helpers the code needs: the checking functions defined
/// internally, then declarations of `raise` (when a check is defined), `abort` and
/// `calloc`.
pub open spec fn helpers_text(h: HelpersContext) -> Seq<char> {
    let raise = h.needs_null_check || h.needs_div_check || h.needs_shift_check || h.needs_array_check || h.needs_alloc_array;
    (if h.needs_null_check { "define internal ptr @_c0_llvm_check_not_null(ptr %p) {\nL0:\n\t%aux0 = icmp eq ptr %p, null\n\tbr i1 %aux0, label %L1, label %L2\nL1:\n\tcall i32 @raise(i32 12)\n\tunreachable\nL2:\n\tret ptr %p\n}\n\n"@ } else { Seq::empty() })
    + (if h.needs_div_check { "define internal void @_c0_llvm_check_div(i32 %lhs, i32 %rhs) {\nL0:\n\t%aux0 = icmp eq i32 %rhs, 0\n\t%aux1 = icmp eq i32 %rhs, -1\n\t%aux2 = icmp eq i32 %lhs, -2147483648\n\t%aux3 = and i1 %aux1, %aux2\n\t%aux4 = or i1 %aux0, %aux3\n\tbr i1 %aux4, label %L1, label %L2\nL1:\n\tcall i32 @raise(i32 8)\n\tunreachable\nL2:\n\tret void\n}\n\n"@ } else { Seq::empty() })
    + (if h.needs_shift_check { "define internal void @_c0_llvm_check_shift(i32 %rhs) {\nL0:\n\t%aux0 = icmp slt i32 %rhs, 0\n\t%aux1 = icmp sgt i32 %rhs, 31\n\t%aux2 = or i1 %aux0, %aux1\n\tbr i1 %aux2, label %L1, label %L2\nL1:\n\tcall i32 @raise(i32 8)\n\tunreachable\nL2:\n\tret void\n}\n\n"@ } else { Seq::empty() })
    + (if h.needs_array_check { "define internal void @_c0_llvm_check_array(ptr %base, i64 %offset) {\nL0:\n\t%aux0 = getelementptr inbounds i8, ptr %base, i64 -8\n\t%aux1 = load i64, ptr %aux0\n\t%aux2 = icmp slt i64 %offset, 0\n\t%aux3 = icmp sge i64 %offset, %aux1\n\t%aux4 = or i1 %aux2, %aux3\n\tbr i1 %aux4, label %L1, label %L2\nL1:\n\tcall i32 @raise(i32 12)\n\tunreachable\nL2:\n\tret void\n}\n\n"@ } else { Seq::empty() })
    + (if h.needs_alloc_array { "define internal ptr @_c0_llvm_alloc_array(i64 %count, i64 %size) {\nL0:\n\t%aux0 = icmp slt i64 %count, 0\n\tbr i1 %aux0, label %L1, label %L2\nL1:\n\tcall i32 @raise(i32 12)\n\tunreachable\nL2:\n\t%aux1 = mul i64 %count, %size\n\t%aux2 = add i64 %aux1, 8\n\t%aux3 = call ptr @calloc(i64 1, i64 %aux2)\n\tstore i64 %aux1, ptr %aux3\n\t%aux4 = getelementptr inbounds i8, ptr %aux3, i64 8\n\tret ptr %aux4\n}\n\n"@ } else { Seq::empty() })
    + (if raise { "declare i32 @raise(i32)\n"@ } else { Seq::empty() })
    + (if h.needs_abort { "declare void @abort()\n"@ } else { Seq::empty() })
    + (if h.needs_alloc { "declare ptr @calloc(i64, i64)\n"@ } else { Seq::empty() })
}

impl HelpersContext {
    /// A context needing no helper.
    pub fn new() -> (r: Self)
        ensures
            !r.needs_abort && !r.needs_alloc && !r.needs_alloc_array && !r.needs_null_check && !r.needs_div_check
                && !r.needs_shift_check && !r.needs_array_check,
    {
        HelpersContext {
            needs_abort: false,
            needs_alloc: false,
            needs_alloc_array: false,
            needs_null_check: false,
            needs_div_check: false,
            needs_shift_check: false,
            needs_array_check: false,
        }
    }

    /// Emit the internal helper functions used for runtime safety, and the
    /// declarations of the external functions they and the code call.
    pub fn emit(&self) -> (r: String)
        ensures
            r@ == helpers_text(*self),
    {
        let mut out = String::new();
        let mut needs_raise = false;
        if self.needs_null_check {
            needs_raise = true;
            push_str(&mut out, "define internal ptr @_c0_llvm_check_not_null(ptr %p) {\nL0:\n\t%aux0 = icmp eq ptr %p, null\n\tbr i1 %aux0, label %L1, label %L2\nL1:\n\tcall i32 @raise(i32 12)\n\tunreachable\nL2:\n\tret ptr %p\n}\n\n");
        }
        if self.needs_div_check {
            needs_raise = true;
            push_str(&mut out, "define internal void @_c0_llvm_check_div(i32 %lhs, i32 %rhs) {\nL0:\n\t%aux0 = icmp eq i32 %rhs, 0\n\t%aux1 = icmp eq i32 %rhs, -1\n\t%aux2 = icmp eq i32 %lhs, -2147483648\n\t%aux3 = and i1 %aux1, %aux2\n\t%aux4 = or i1 %aux0, %aux3\n\tbr i1 %aux4, label %L1, label %L2\nL1:\n\tcall i32 @raise(i32 8)\n\tunreachable\nL2:\n\tret void\n}\n\n");
        }
        if self.needs_shift_check {
            needs_raise = true;
            push_str(&mut out, "define internal void @_c0_llvm_check_shift(i32 %rhs) {\nL0:\n\t%aux0 = icmp slt i32 %rhs, 0\n\t%aux1 = icmp sgt i32 %rhs, 31\n\t%aux2 = or i1 %aux0, %aux1\n\tbr i1 %aux2, label %L1, label %L2\nL1:\n\tcall i32 @raise(i32 8)\n\tunreachable\nL2:\n\tret void\n}\n\n");
        }
        if self.needs_array_check {
            needs_raise = true;
            push_str(&mut out, "define internal void @_c0_llvm_check_array(ptr %base, i64 %offset) {\nL0:\n\t%aux0 = getelementptr inbounds i8, ptr %base, i64 -8\n\t%aux1 = load i64, ptr %aux0\n\t%aux2 = icmp slt i64 %offset, 0\n\t%aux3 = icmp sge i64 %offset, %aux1\n\t%aux4 = or i1 %aux2, %aux3\n\tbr i1 %aux4, label %L1, label %L2\nL1:\n\tcall i32 @raise(i32 12)\n\tunreachable\nL2:\n\tret void\n}\n\n");
        }
        if self.needs_alloc_array {
            needs_raise = true;
            push_str(&mut out, "define internal ptr @_c0_llvm_alloc_array(i64 %count, i64 %size) {\nL0:\n\t%aux0 = icmp slt i64 %count, 0\n\tbr i1 %aux0, label %L1, label %L2\nL1:\n\tcall i32 @raise(i32 12)\n\tunreachable\nL2:\n\t%aux1 = mul i64 %count, %size\n\t%aux2 = add i64 %aux1, 8\n\t%aux3 = call ptr @calloc(i64 1, i64 %aux2)\n\tstore i64 %aux1, ptr %aux3\n\t%aux4 = getelementptr inbounds i8, ptr %aux3, i64 8\n\tret ptr %aux4\n}\n\n");
        }
        if needs_raise {
            push_str(&mut out, "declare i32 @raise(i32)\n");
        }
        if self.needs_abort {
            push_str(&mut out, "declare void @abort()\n");
        }
        if self.needs_alloc {
            push_str(&mut out, "declare ptr @calloc(i64, i64)\n");
        }
        assert(out@ =~= helpers_text(*self));
        out
    }
}

/// A signature entry of a function declaration or definition.
pub open spec fn decl_signature(d: GlobalDeclaration) -> Option<(Seq<char>, (TypV, Seq<TypV>))> {
    match d {
        GlobalDeclaration::FDecl(t, n, ps) => Some((n@, (t@, var_typ_views(ps@)))),
        GlobalDeclaration::FDefn(t, n, ps, _) => Some((n@, (t@, var_typ_views(ps@)))),
        _ => None,
    }
}

/// Record a signature in a table: it replaces the last entry under the same name, or
/// comes last.
pub open spec fn sigs_insert(s: SignaturesV, e: (Seq<char>, (TypV, Seq<TypV>))) -> SignaturesV {
    if exists|j: int| 0 <= j < s.len() && #[trigger] s[j].0 == e.0 {
        let i = choose|i: int|
            0 <= i < s.len() && s[i].0 == e.0 && forall|j: int| i < j < s.len() ==> (#[trigger] s[j]).0 != e.0;
        s.update(i, e)
    } else {
        s.push(e)
    }
}

/// The table after recording the signatures of the functions of a program in order.
pub open spec fn collect_sigs(s: SignaturesV, decls: Seq<GlobalDeclaration>) -> SignaturesV
    decreases decls.len(),
{
    if decls.len() == 0 {
        s
    } else {
        let p = collect_sigs(s, decls.drop_last());
        match decl_signature(decls.last()) {
            Some(e) => sigs_insert(p, e),
            None => p,
        }
    }
}

proof fn lemma_insert_at(s: SignaturesV, e: (Seq<char>, (TypV, Seq<TypV>)), i: int)
    requires
        0 <= i < s.len(),
        s[i].0 == e.0,
        forall|j: int| i < j < s.len() ==> (#[trigger] s[j]).0 != e.0,
    ensures
        sigs_insert(s, e) == s.update(i, e),
{
    assert(exists|j: int| 0 <= j < s.len() && #[trigger] s[j].0 == e.0);
    let c = choose|c: int|
        0 <= c < s.len() && s[c].0 == e.0 && forall|j: int| c < j < s.len() ==> (#[trigger] s[j]).0 != e.0;
    assert(0 <= i < s.len() && s[i].0 == e.0 && forall|j: int| i < j < s.len() ==> (#[trigger] s[j]).0 != e.0);
    if c < i {
        assert(s[i].0 != e.0);
    }
    if i < c {
        assert(s[c].0 != e.0);
    }
}

proof fn lemma_insert_new(s: SignaturesV, e: (Seq<char>, (TypV, Seq<TypV>)))
    requires
        forall|j: int| 0 <= j < s.len() ==> (#[trigger] s[j]).0 != e.0,
    ensures
        sigs_insert(s, e) == s.push(e),
{
}

/// A signature from a return type and parameter list.
fn signature_of(ret_typ: &Typ, params: &Vec<Variable>) -> (r: FunctionSignature)
    ensures
        r.return_typ@ == ret_typ@,
        typ_views(r.param_typs@) == var_typ_views(params@),
{
    let mut param_typs: Vec<Typ> = Vec::new();
    let mut i: usize = 0;
    while i < params.len()
        invariant
            i <= params@.len(),
            param_typs@.len() == i,
            forall|j: int| 0 <= j < i ==> (#[trigger] param_typs@[j])@ == params@[j].0@,
        decreases params@.len() - i,
    {
        param_typs.push(params[i].0.duplicate());
        i = i + 1;
    }
    assert(typ_views(param_typs@) =~= var_typ_views(params@));
    FunctionSignature { return_typ: ret_typ.duplicate(), param_typs }
}

/// Record the signatures of the functions declared or defined in a program, a later
/// signature replacing an earlier one under the same name.
pub fn collect_function_signatures(program: &ProgramAST, function_signatures: &mut Vec<(Ident, FunctionSignature)>)
    ensures
        signatures_view(final(function_signatures)@) == collect_sigs(signatures_view(old(function_signatures)@), program@),
{
    let ghost s0 = signatures_view(function_signatures@);
    let mut k: usize = 0;
    assert(program@.take(0) =~= Seq::<GlobalDeclaration>::empty());
    while k < program.len()
        invariant
            k <= program@.len(),
            signatures_view(function_signatures@) == collect_sigs(s0, program@.take(k as int)),
        decreases program@.len() - k,
    {
        proof {
            assert(program@.take(k + 1).drop_last() =~= program@.take(k as int));
            assert(program@.take(k + 1).last() == program@[k as int]);
        }
        let entry = match &program[k] {
            GlobalDeclaration::FDecl(ret_typ, name, params) => Some((name, signature_of(ret_typ, params))),
            GlobalDeclaration::FDefn(ret_typ, name, params, _) => Some((name, signature_of(ret_typ, params))),
            _ => None,
        };
        match entry {
            Some((name, sig)) => {
                let ghost e = (name@, (sig.return_typ@, typ_views(sig.param_typs@)));
                let ghost before = signatures_view(function_signatures@);
                assert(decl_signature(program@[k as int]) == Some(e));
                match lookup_signature(function_signatures, name) {
                    Some(i) => {
                        proof {
                            assert forall|j: int| i < j < before.len() implies (#[trigger] before[j]).0 != e.0 by {
                                assert(before[j].0 == function_signatures@[j].0@);
                            }
                            lemma_insert_at(before, e, i as int);
                        }
                        function_signatures.set(i, (name.clone(), sig));
                        assert(signatures_view(function_signatures@) =~= before.update(i as int, e));
                    },
                    None => {
                        proof {
                            assert forall|j: int| 0 <= j < before.len() implies (#[trigger] before[j]).0 != e.0 by {
                                assert(before[j].0 == function_signatures@[j].0@);
                            }
                            lemma_insert_new(before, e);
                        }
                        function_signatures.push((name.clone(), sig));
                        assert(signatures_view(function_signatures@) =~= before.push(e));
                    },
                }
            },
            None => {},
        }
        k = k + 1;
    }
    assert(program@.take(k as int) =~= program@);
}

/// Models of a list of strings.
pub open spec fn strings_view(v: Seq<String>) -> Seq<Seq<char>> {
    v.map_values(|s: String| s@)
}

/// LLVM types of a list of types joined by `, `; none when one is an unresolved alias.
pub open spec fn types_text(ts: Seq<TypV>) -> Option<Seq<char>>
    decreases ts.len(),
{
    if ts.len() == 0 {
        Some(Seq::empty())
    } else {
        match (types_text(ts.drop_last()), llvm_type_text(ts.last())) {
            (Some(prev), Some(t)) => Some((if ts.len() == 1 { Seq::empty() } else { prev + ", "@ }) + t),
            _ => None,
        }
    }
}

/// Lines joined by a separator.
pub open spec fn joined(lines: Seq<Seq<char>>, sep: Seq<char>) -> Seq<char>
    decreases lines.len(),
{
    if lines.len() == 0 {
        Seq::empty()
    } else if lines.len() == 1 {
        lines[0]
    } else {
        joined(lines.drop_last(), sep) + sep + lines.last()
    }
}

/// A section of lines: joined by newlines and closed by a blank line; nothing when there
/// are no lines.
pub open spec fn section_text(lines: Seq<Seq<char>>) -> Seq<char> {
    if lines.len() == 0 { Seq::empty() } else { joined(lines, "\n"@) + "\n\n"@ }
}

/// Whether a declaration defines a struct of the given name.
pub open spec fn defines_struct(d: GlobalDeclaration, id: Seq<char>) -> bool {
    d matches GlobalDeclaration::SDefn(x, _) && x@ == id
}

/// Whether one of the declarations defines a struct of the given name.
pub open spec fn struct_defined_in(ds: Seq<GlobalDeclaration>, id: Seq<char>) -> bool {
    exists|j: int| 0 <= j < ds.len() && defines_struct(#[trigger] ds[j], id)
}

/// Struct type definitions, `%struct.<id> = type { <field types> }`, one for the first
/// definition of each struct, in order; none when a field type is an unresolved alias.
pub open spec fn struct_lines(ds: Seq<GlobalDeclaration>) -> Option<Seq<Seq<char>>>
    decreases ds.len(),
{
    if ds.len() == 0 {
        Some(Seq::empty())
    } else {
        match struct_lines(ds.drop_last()) {
            None => None,
            Some(prev) => match ds.last() {
                GlobalDeclaration::SDefn(id, fs) => if struct_defined_in(ds.drop_last(), id@) {
                    Some(prev)
                } else {
                    match types_text(var_typ_views(fs@)) {
                        Some(f) => Some(prev.push("%struct."@ + id@ + " = type { "@ + f + " }"@)),
                        None => None,
                    }
                },
                _ => Some(prev),
            },
        }
    }
}

/// Declarations `declare <return type> @<name>(<parameter types>)` of the functions in a
/// signature table that the source file does not define, in table order.
pub open spec fn decl_lines(sigs: SignaturesV, defined: Seq<Seq<char>>) -> Option<Seq<Seq<char>>>
    decreases sigs.len(),
{
    if sigs.len() == 0 {
        Some(Seq::empty())
    } else {
        match decl_lines(sigs.drop_last(), defined) {
            None => None,
            Some(prev) => {
                let e = sigs.last();
                if defined.contains(e.0) {
                    Some(prev)
                } else {
                    match (llvm_type_text(e.1.0), types_text(e.1.1)) {
                        (Some(r), Some(p)) => Some(prev.push("declare "@ + r + " @"@ + e.0 + "("@ + p + ")"@)),
                        _ => None,
                    }
                }
            },
        }
    }
}

/// Parameters of a function definition, `<type> %t<index>` joined by `, `.
pub open spec fn params_text(ps: Seq<TypV>) -> Option<Seq<char>>
    decreases ps.len(),
{
    if ps.len() == 0 {
        Some(Seq::empty())
    } else {
        match (params_text(ps.drop_last()), llvm_type_text(ps.last())) {
            (Some(prev), Some(t)) => Some(
                (if ps.len() == 1 { Seq::empty() } else { prev + ", "@ }) + t + " "@ + temp_text((ps.len() - 1) as usize),
            ),
            _ => None,
        }
    }
}

/// Text of a sequence of instructions, threading the helpers and auxiliary numbers
/// through; none where an instruction has none, or the auxiliary numbers would run out.
pub open spec fn instrs_text(
    is: Seq<Instr>,
    sigs: SignaturesV,
    defined: Seq<Seq<char>>,
    m: SymbolModel,
    fuel: nat,
    ret: TypV,
    unsafe_ok: bool,
    h: HelpersContext,
    aux: usize,
) -> Option<Step>
    decreases is.len(),
{
    if is.len() == 0 {
        Some((Seq::empty(), h, aux))
    } else {
        match instrs_text(is.drop_last(), sigs, defined, m, fuel, ret, unsafe_ok, h, aux) {
            None => None,
            Some((prev, h1, aux1)) => if aux1 + 4 > usize::MAX {
                None
            } else {
                match instr_text(is.last(), sigs, defined, m, fuel, ret, unsafe_ok, h1, aux1) {
                    Some((t, h2, aux2)) => Some((prev + t, h2, aux2)),
                    None => None,
                }
            },
        }
    }
}

/// Text of a function definition: `define <return type> @_c0_<name>(<parameters>) {`,
/// its instructions, and `}` with a blank line; none for a function the symbol table
/// does not know.
pub open spec fn function_text(
    name: Seq<char>,
    is: Seq<Instr>,
    sigs: SignaturesV,
    defined: Seq<Seq<char>>,
    m: SymbolModel,
    fuel: nat,
    unsafe_ok: bool,
    h: HelpersContext,
    aux: usize,
) -> Option<Step> {
    if !m.functions.contains_key(name) {
        None
    } else {
        let ret = m.types[name];
        match (llvm_type_text(ret), params_text(m.functions[name].params)) {
            (Some(rt), Some(pt)) => match instrs_text(is, sigs, defined, m, fuel, ret, unsafe_ok, h, aux) {
                Some((body, h2, aux2)) => Some(
                    ("define "@ + rt + " @_c0_"@ + name + "("@ + pt + ") {\n"@ + body + "}\n\n"@, h2, aux2),
                ),
                None => None,
            },
            _ => None,
        }
    }
}

/// Text of a sequence of function definitions (see `function_text`).
pub open spec fn funcs_text(
    fs: Seq<(Seq<char>, Seq<Instr>)>,
    sigs: SignaturesV,
    defined: Seq<Seq<char>>,
    m: SymbolModel,
    fuel: nat,
    unsafe_ok: bool,
    h: HelpersContext,
    aux: usize,
) -> Option<Step>
    decreases fs.len(),
{
    if fs.len() == 0 {
        Some((Seq::empty(), h, aux))
    } else {
        match funcs_text(fs.drop_last(), sigs, defined, m, fuel, unsafe_ok, h, aux) {
            None => None,
            Some((prev, h1, aux1)) => match function_text(fs.last().0, fs.last().1, sigs, defined, m, fuel, unsafe_ok, h1, aux1) {
                Some((t, h2, aux2)) => Some((prev + t, h2, aux2)),
                None => None,
            },
        }
    }
}

/// Names of the functions a program defines, in order.
pub open spec fn defined_names(ds: Seq<GlobalDeclaration>) -> Seq<Seq<char>>
    decreases ds.len(),
{
    if ds.len() == 0 {
        Seq::empty()
    } else {
        match ds.last() {
            GlobalDeclaration::FDefn(_, n, _, _) => defined_names(ds.drop_last()).push(n@),
            _ => defined_names(ds.drop_last()),
        }
    }
}

/// A context needing no helper.
pub open spec fn no_helpers() -> HelpersContext {
    HelpersContext {
        needs_abort: false,
        needs_alloc: false,
        needs_alloc_array: false,
        needs_null_check: false,
        needs_div_check: false,
        needs_shift_check: false,
        needs_array_check: false,
    }
}

/// The helpers to emit: `abort` and `calloc` are not declared again where the header
/// declares them and the source file does not define them.
pub open spec fn final_helpers(h: HelpersContext, sigs: SignaturesV, defined: Seq<Seq<char>>) -> HelpersContext {
    HelpersContext {
        needs_abort: h.needs_abort && !(sig_lookup(sigs, "abort"@) is Some && !defined.contains("abort"@)),
        needs_alloc: h.needs_alloc && !(sig_lookup(sigs, "calloc"@) is Some && !defined.contains("calloc"@)),
        ..h
    }
}

/// LLVM text of a program: struct types, declarations of the functions it uses but does
/// not define, the definitions of its functions (given as linear instruction
/// sequences), and the runtime helpers they need.
pub open spec fn program_text(
    header: Seq<GlobalDeclaration>,
    source: Seq<GlobalDeclaration>,
    fs: Seq<(Seq<char>, Seq<Instr>)>,
    m: SymbolModel,
    fuel: nat,
    unsafe_ok: bool,
) -> Option<Seq<char>> {
    let sigs = collect_sigs(collect_sigs(Seq::empty(), header), source);
    let defined = defined_names(source);
    match (struct_lines(header + source), decl_lines(sigs, defined), funcs_text(fs, sigs, defined, m, fuel, unsafe_ok, no_helpers(), 0)) {
        (Some(sl), Some(dl), Some((body, h, _))) => Some(
            section_text(sl) + section_text(dl) + body + helpers_text(final_helpers(h, sigs, defined)),
        ),
        _ => None,
    }
}

/// Names of the functions a program defines.
fn collect_defined_names(source_ast: &ProgramAST) -> (r: Vec<Ident>)
    ensures
        names_view(r@) == defined_names(source_ast@),
{
    let mut out: Vec<Ident> = Vec::new();
    let mut k: usize = 0;
    assert(source_ast@.take(0) =~= Seq::<GlobalDeclaration>::empty());
    assert(names_view(out@) =~= Seq::<Seq<char>>::empty());
    while k < source_ast.len()
        invariant
            k <= source_ast@.len(),
            names_view(out@) == defined_names(source_ast@.take(k as int)),
        decreases source_ast@.len() - k,
    {
        proof {
            assert(source_ast@.take(k + 1).drop_last() =~= source_ast@.take(k as int));
            assert(source_ast@.take(k + 1).last() == source_ast@[k as int]);
        }
        match &source_ast[k] {
            GlobalDeclaration::FDefn(_, name, _, _) => {
                let ghost before = names_view(out@);
                out.push(name.clone());
                assert(names_view(out@) =~= before.push(name@));
            },
            _ => {},
        }
        k = k + 1;
    }
    assert(source_ast@.take(k as int) =~= source_ast@);
    out
}

/// Once a prefix of the types has no text, the whole list has none.
proof fn lemma_types_none(ts: Seq<TypV>, j: int)
    requires
        0 <= j <= ts.len(),
        types_text(ts.take(j)) is None,
    ensures
        types_text(ts) is None,
    decreases ts.len() - j,
{
    if j == ts.len() {
        assert(ts.take(j) =~= ts);
    } else {
        assert(ts.take(j + 1).drop_last() =~= ts.take(j));
        lemma_types_none(ts, j + 1);
    }
}

/// LLVM types of a list of types, joined by `, `.
fn generate_types(ts: &Vec<Typ>) -> (r: Option<String>)
    ensures
        text_is(r, types_text(typ_views(ts@))),
{
    let ghost tv = typ_views(ts@);
    let mut out = String::new();
    let mut k: usize = 0;
    assert(tv.take(0) =~= Seq::<TypV>::empty());
    while k < ts.len()
        invariant
            tv == typ_views(ts@),
            tv.len() == ts@.len(),
            k <= ts@.len(),
            types_text(tv.take(k as int)) == Some(out@),
        decreases ts@.len() - k,
    {
        proof {
            assert(tv.take(k + 1).drop_last() =~= tv.take(k as int));
            assert(tv.take(k + 1).last() == ts@[k as int]@);
        }
        let t = match llvm_type(&ts[k]) {
            Some(t) => t,
            None => {
                proof { lemma_types_none(tv, k + 1); }
                return None;
            },
        };
        let ghost prev = out@;
        if k > 0 {
            push_str(&mut out, ", ");
        }
        push_str(&mut out, t);
        assert(out@ =~= (if k + 1 == 1 { Seq::empty() } else { prev + ", "@ }) + t@);
        k = k + 1;
    }
    assert(tv.take(k as int) =~= tv);
    Some(out)
}

/// Once a prefix of the parameters has no text, the whole list has none.
proof fn lemma_params_none(ts: Seq<TypV>, j: int)
    requires
        0 <= j <= ts.len(),
        params_text(ts.take(j)) is None,
    ensures
        params_text(ts) is None,
    decreases ts.len() - j,
{
    if j == ts.len() {
        assert(ts.take(j) =~= ts);
    } else {
        assert(ts.take(j + 1).drop_last() =~= ts.take(j));
        lemma_params_none(ts, j + 1);
    }
}

/// Parameters of a function definition, `<type> %t<index>` joined by `, `.
fn generate_params(ts: &Vec<Typ>) -> (r: Option<String>)
    ensures
        text_is(r, params_text(typ_views(ts@))),
{
    let ghost tv = typ_views(ts@);
    let mut out = String::new();
    let mut k: usize = 0;
    assert(tv.take(0) =~= Seq::<TypV>::empty());
    while k < ts.len()
        invariant
            tv == typ_views(ts@),
            tv.len() == ts@.len(),
            k <= ts@.len(),
            params_text(tv.take(k as int)) == Some(out@),
        decreases ts@.len() - k,
    {
        proof {
            assert(tv.take(k + 1).drop_last() =~= tv.take(k as int));
            assert(tv.take(k + 1).last() == ts@[k as int]@);
        }
        let t = match llvm_type(&ts[k]) {
            Some(t) => t,
            None => {
                proof { lemma_params_none(tv, k + 1); }
                return None;
            },
        };
        let ghost prev = out@;
        if k > 0 {
            push_str(&mut out, ", ");
        }
        push_str(&mut out, t);
        push_str(&mut out, " ");
        push_temp(&mut out, k);
        assert(out@ =~= (if k + 1 == 1 { Seq::empty() } else { prev + ", "@ }) + t@ + " "@ + temp_text(k));
        k = k + 1;
    }
    assert(tv.take(k as int) =~= tv);
    Some(out)
}

/// Lines joined by a separator.
fn join_lines(lines: &Vec<String>, sep: &str) -> (r: String)
    ensures
        r@ == joined(strings_view(lines@), sep@),
{
    let ghost lv = strings_view(lines@);
    let mut out = String::new();
    let mut k: usize = 0;
    assert(lv.take(0) =~= Seq::<Seq<char>>::empty());
    while k < lines.len()
        invariant
            lv == strings_view(lines@),
            lv.len() == lines@.len(),
            k <= lines@.len(),
            out@ == joined(lv.take(k as int), sep@),
        decreases lines@.len() - k,
    {
        proof {
            assert(lv.take(k + 1).drop_last() =~= lv.take(k as int));
            assert(lv.take(k + 1).last() == lines@[k as int]@);
        }
        if k > 0 {
            push_str(&mut out, sep);
        }
        push_string(&mut out, &lines[k]);
        proof {
            if k == 0 {
                assert(out@ =~= lv.take(1)[0]);
            }
        }
        k = k + 1;
    }
    assert(lv.take(k as int) =~= lv);
    out
}

/// Append a section of lines: joined by newlines and closed by a blank line.
fn push_section(out: &mut String, lines: &Vec<String>)
    ensures
        final(out)@ == old(out)@ + section_text(strings_view(lines@)),
{
    if lines.len() > 0 {
        let j = join_lines(lines, "\n");
        push_string(out, &j);
        push_str(out, "\n\n");
        assert(final(out)@ =~= old(out)@ + (j@ + "\n\n"@));
    } else {
        assert(old(out)@ + section_text(strings_view(lines@)) =~= old(out)@);
    }
}

/// Types of a list of fields or parameters.
fn variable_types(vs: &Vec<Variable>) -> (r: Vec<Typ>)
    ensures
        typ_views(r@) == var_typ_views(vs@),
{
    let sig = signature_of(&Typ::Void, vs);
    sig.param_typs
}

proof fn lemma_struct_defined_step(ds: Seq<GlobalDeclaration>, d: GlobalDeclaration, id: Seq<char>)
    ensures
        struct_defined_in(ds.push(d), id) == (struct_defined_in(ds, id) || defines_struct(d, id)),
{
    if struct_defined_in(ds.push(d), id) && !defines_struct(d, id) {
        let j = choose|j: int| 0 <= j < ds.push(d).len() && defines_struct(#[trigger] ds.push(d)[j], id);
        assert(ds.push(d)[j] == ds[j]);
    }
    if struct_defined_in(ds, id) {
        let j = choose|j: int| 0 <= j < ds.len() && defines_struct(#[trigger] ds[j], id);
        assert(ds.push(d)[j] == ds[j]);
    }
    if defines_struct(d, id) {
        assert(ds.push(d)[ds.len() as int] == d);
    }
}

/// Add the struct type definitions of a program, after those of the declarations
/// already `done`, to `defs`; `seen` holds the structs defined so far.
fn add_struct_definitions(
    program: &ProgramAST,
    seen: &mut Vec<Ident>,
    defs: &mut Vec<String>,
    Ghost(done): Ghost<Seq<GlobalDeclaration>>,
) -> (ok: bool)
    requires
        forall|id: Seq<char>| names_view(old(seen)@).contains(id) <==> struct_defined_in(done, id),
        struct_lines(done) == Some(strings_view(old(defs)@)),
    ensures
        ok ==> struct_lines(done + program@) == Some(strings_view(final(defs)@)),
        ok ==> forall|id: Seq<char>| names_view(final(seen)@).contains(id) <==> struct_defined_in(done + program@, id),
        !ok ==> struct_lines(done + program@) is None,
{
    let mut k: usize = 0;
    assert(done + program@.take(0) =~= done);
    while k < program.len()
        invariant
            k <= program@.len(),
            forall|id: Seq<char>| names_view(seen@).contains(id) <==> struct_defined_in(done + program@.take(k as int), id),
            struct_lines(done + program@.take(k as int)) == Some(strings_view(defs@)),
        decreases program@.len() - k,
    {
        let ghost cur = done + program@.take(k as int);
        proof {
            assert((done + program@.take(k + 1)).drop_last() =~= cur);
            assert((done + program@.take(k + 1)).last() == program@[k as int]);
            assert(done + program@.take(k + 1) =~= cur.push(program@[k as int]));
            assert forall|id: Seq<char>| #[trigger] struct_defined_in(cur.push(program@[k as int]), id) == (struct_defined_in(cur, id)
                || defines_struct(program@[k as int], id)) by {
                lemma_struct_defined_step(cur, program@[k as int], id);
            }
        }
        match &program[k] {
            GlobalDeclaration::SDefn(struct_id, fields) => {
                if !contains_name(seen, struct_id) {
                    let ts = variable_types(fields);
                    let f = match generate_types(&ts) {
                        Some(f) => f,
                        None => {
                            proof {
                                let all = done + program@;
                                let j: int = done.len() + k + 1;
                                assert(all.take(j) =~= done + program@.take(k + 1));
                                lemma_struct_lines_none(all, j);
                            }
                            return false;
                        },
                    };
                    let mut line = String::from_str("%struct.");
                    push_string(&mut line, struct_id);
                    push_str(&mut line, " = type { ");
                    push_string(&mut line, &f);
                    push_str(&mut line, " }");
                    assert(line@ =~= "%struct."@ + struct_id@ + " = type { "@ + f@ + " }"@);
                    let ghost before_defs = strings_view(defs@);
                    let ghost before_seen = names_view(seen@);
                    defs.push(line);
                    seen.push(struct_id.clone());
                    assert(strings_view(defs@) =~= before_defs.push(line@));
                    assert(names_view(seen@) =~= before_seen.push(struct_id@));
                    proof {
                        assert forall|id: Seq<char>| names_view(seen@).contains(id) <==> struct_defined_in(
                            done + program@.take(k + 1),
                            id,
                        ) by {
                            if names_view(seen@).contains(id) && id != struct_id@ {
                                let x = choose|x: int| 0 <= x < names_view(seen@).len() && names_view(seen@)[x] == id;
                                assert(before_seen[x] == id);
                            }
                            if id == struct_id@ {
                                assert(names_view(seen@)[before_seen.len() as int] == id);
                            }
                            if before_seen.contains(id) {
                                let x = choose|x: int| 0 <= x < before_seen.len() && before_seen[x] == id;
                                assert(names_view(seen@)[x] == id);
                            }
                        }
                    }
                }
            },
            _ => {},
        }
        k = k + 1;
    }
    assert(done + program@.take(k as int) =~= done + program@);
    true
}

/// Once a prefix of the declarations has no struct definitions text, the whole list has none.
proof fn lemma_struct_lines_none(ds: Seq<GlobalDeclaration>, j: int)
    requires
        0 <= j <= ds.len(),
        struct_lines(ds.take(j)) is None,
    ensures
        struct_lines(ds) is None,
    decreases ds.len() - j,
{
    if j == ds.len() {
        assert(ds.take(j) =~= ds);
    } else {
        assert(ds.take(j + 1).drop_last() =~= ds.take(j));
        lemma_struct_lines_none(ds, j + 1);
    }
}

/// LLVM struct type definitions of the header and the source file, one for the first
/// definition of each struct. Fails where a field type is an unresolved alias.
pub fn collect_struct_definitions(header_ast: &ProgramAST, source_ast: &ProgramAST) -> (r: Result<Vec<String>, String>)
    ensures
        match r {
            Ok(v) => struct_lines(header_ast@ + source_ast@) == Some(strings_view(v@)),
            Err(_) => struct_lines(header_ast@ + source_ast@) is None,
        },
{
    let mut seen: Vec<Ident> = Vec::new();
    let mut defs: Vec<String> = Vec::new();
    let ghost empty = Seq::<GlobalDeclaration>::empty();
    assert(strings_view(defs@) =~= Seq::<Seq<char>>::empty());
    assert forall|id: Seq<char>| names_view(seen@).contains(id) <==> struct_defined_in(empty, id) by {
        if names_view(seen@).contains(id) {
            let x = choose|x: int| 0 <= x < names_view(seen@).len() && names_view(seen@)[x] == id;
        }
    }
    if !add_struct_definitions(header_ast, &mut seen, &mut defs, Ghost(empty)) {
        proof {
            assert(empty + header_ast@ =~= header_ast@);
            assert((header_ast@ + source_ast@).take(header_ast@.len() as int) =~= header_ast@);
            lemma_struct_lines_none(header_ast@ + source_ast@, header_ast@.len() as int);
        }
        return Err(ill_typed());
    }
    assert(empty + header_ast@ =~= header_ast@);
    if !add_struct_definitions(source_ast, &mut seen, &mut defs, Ghost(header_ast@)) {
        return Err(ill_typed());
    }
    Ok(defs)
}

/// Once a prefix of the table has no declarations text, the whole table has none.
proof fn lemma_decl_lines_none(sigs: SignaturesV, defined: Seq<Seq<char>>, j: int)
    requires
        0 <= j <= sigs.len(),
        decl_lines(sigs.take(j), defined) is None,
    ensures
        decl_lines(sigs, defined) is None,
    decreases sigs.len() - j,
{
    if j == sigs.len() {
        assert(sigs.take(j) =~= sigs);
    } else {
        assert(sigs.take(j + 1).drop_last() =~= sigs.take(j));
        lemma_decl_lines_none(sigs, defined, j + 1);
    }
}

/// Declarations of the functions in the signature table that the source file does not
/// define. Fails where a type is an unresolved alias.
pub fn generate_declarations(
    function_signatures: &Vec<(Ident, FunctionSignature)>,
    source_defined: &Vec<Ident>,
) -> (r: Result<Vec<String>, String>)
    ensures
        match r {
            Ok(v) => decl_lines(signatures_view(function_signatures@), names_view(source_defined@)) == Some(strings_view(v@)),
            Err(_) => decl_lines(signatures_view(function_signatures@), names_view(source_defined@)) is None,
        },
{
    let ghost sv = signatures_view(function_signatures@);
    let ghost dv = names_view(source_defined@);
    let mut out: Vec<String> = Vec::new();
    let mut k: usize = 0;
    assert(sv.take(0) =~= Seq::<(Seq<char>, (TypV, Seq<TypV>))>::empty());
    assert(strings_view(out@) =~= Seq::<Seq<char>>::empty());
    while k < function_signatures.len()
        invariant
            sv == signatures_view(function_signatures@),
            dv == names_view(source_defined@),
            sv.len() == function_signatures@.len(),
            k <= function_signatures@.len(),
            decl_lines(sv.take(k as int), dv) == Some(strings_view(out@)),
        decreases function_signatures@.len() - k,
    {
        proof {
            assert(sv.take(k + 1).drop_last() =~= sv.take(k as int));
            assert(sv.take(k + 1).last() == sv[k as int]);
        }
        let name = &function_signatures[k].0;
        let sig = &function_signatures[k].1;
        if !contains_name(source_defined, name) {
            let rt = match llvm_type(&sig.return_typ) {
                Some(t) => t,
                None => {
                    proof { lemma_decl_lines_none(sv, dv, k + 1); }
                    return Err(ill_typed());
                },
            };
            let pt = match generate_types(&sig.param_typs) {
                Some(p) => p,
                None => {
                    proof { lemma_decl_lines_none(sv, dv, k + 1); }
                    return Err(ill_typed());
                },
            };
            let mut line = String::from_str("declare ");
            push_str(&mut line, rt);
            push_str(&mut line, " @");
            push_string(&mut line, name);
            push_str(&mut line, "(");
            push_string(&mut line, &pt);
            push_str(&mut line, ")");
            assert(line@ =~= "declare "@ + rt@ + " @"@ + name@ + "("@ + pt@ + ")"@);
            let ghost before = strings_view(out@);
            out.push(line);
            assert(strings_view(out@) =~= before.push(line@));
        }
        k = k + 1;
    }
    assert(sv.take(k as int) =~= sv);
    Ok(out)
}

/// Once a prefix of the instructions has no text, the whole sequence has none.
proof fn lemma_instrs_none(
    is: Seq<Instr>,
    j: int,
    sigs: SignaturesV,
    defined: Seq<Seq<char>>,
    m: SymbolModel,
    fuel: nat,
    ret: TypV,
    unsafe_ok: bool,
    h: HelpersContext,
    aux: usize,
)
    requires
        0 <= j <= is.len(),
        instrs_text(is.take(j), sigs, defined, m, fuel, ret, unsafe_ok, h, aux) is None,
    ensures
        instrs_text(is, sigs, defined, m, fuel, ret, unsafe_ok, h, aux) is None,
    decreases is.len() - j,
{
    if j == is.len() {
        assert(is.take(j) =~= is);
    } else {
        assert(is.take(j + 1).drop_last() =~= is.take(j));
        lemma_instrs_none(is, j + 1, sigs, defined, m, fuel, ret, unsafe_ok, h, aux);
    }
}

/// Generate the LLVM definition of a function from its linear instructions, recording
/// the runtime helpers it calls and numbering auxiliary values on from `aux_counter`.
/// Fails for a function the symbol table does not know, or where an instruction cannot
/// be lowered (see `generate_instr`), or the auxiliary numbers would run out.
pub fn generate_function_llvm(
    func_name: &Ident,
    instrs: &Vec<Instr>,
    function_signatures: &Vec<(Ident, FunctionSignature)>,
    source_defined: &Vec<Ident>,
    symbol_table: &SymbolTable,
    allow_unsafe: bool,
    helpers_ctx: &mut HelpersContext,
    aux_counter: &mut usize,
) -> (r: Result<String, String>)
    requires
        symbol_table.wf(),
    ensures
        step_is(
            r,
            function_text(
                func_name@,
                instrs@,
                signatures_view(function_signatures@),
                names_view(source_defined@),
                symbol_table@,
                symbol_table.struct_fuel(),
                allow_unsafe,
                *old(helpers_ctx),
                *old(aux_counter),
            ),
            *final(helpers_ctx),
            *final(aux_counter),
        ),
{
    let ghost sv = signatures_view(function_signatures@);
    let ghost dv = names_view(source_defined@);
    let ghost h0 = *helpers_ctx;
    let ghost a0 = *aux_counter;
    let (return_type, params) = match symbol_table.get_function_signature(func_name) {
        Some(sig) => sig,
        None => return Err(llvm_error("definition of an undeclared function")),
    };
    let rt = match llvm_type(&return_type) {
        Some(t) => t,
        None => return Err(ill_typed()),
    };
    let pt = match generate_params(&params) {
        Some(p) => p,
        None => return Err(ill_typed()),
    };
    let ghost ret = return_type@;
    assert(symbol_table@.functions.contains_key(func_name@));
    assert(symbol_table@.types[func_name@] == ret);
    assert(params_text(symbol_table@.functions[func_name@].params) == Some(pt@));
    assert(llvm_type_text(ret) == Some(rt@));
    let mut body = String::new();
    let mut k: usize = 0;
    assert(instrs@.take(0) =~= Seq::<Instr>::empty());
    while k < instrs.len()
        invariant
            symbol_table.wf(),
            sv == signatures_view(function_signatures@),
            dv == names_view(source_defined@),
            ret == return_type@,
            h0 == *old(helpers_ctx),
            a0 == *old(aux_counter),
            symbol_table@.functions.contains_key(func_name@),
            symbol_table@.types[func_name@] == ret,
            params_text(symbol_table@.functions[func_name@].params) == Some(pt@),
            llvm_type_text(ret) == Some(rt@),
            k <= instrs@.len(),
            instrs_text(instrs@.take(k as int), sv, dv, symbol_table@, symbol_table.struct_fuel(), ret, allow_unsafe, h0, a0)
                == Some((body@, *helpers_ctx, *aux_counter)),
        decreases instrs@.len() - k,
    {
        proof {
            assert(instrs@.take(k + 1).drop_last() =~= instrs@.take(k as int));
            assert(instrs@.take(k + 1).last() == instrs@[k as int]);
        }
        if *aux_counter > usize::MAX - 4 {
            proof {
                lemma_instrs_none(instrs@, k + 1, sv, dv, symbol_table@, symbol_table.struct_fuel(), ret, allow_unsafe, h0, a0);
            }
            return Err(llvm_error("too many auxiliary values"));
        }
        let text = match generate_instr(
            &instrs[k],
            function_signatures,
            source_defined,
            symbol_table,
            &return_type,
            allow_unsafe,
            helpers_ctx,
            aux_counter,
        ) {
            Ok(t) => t,
            Err(e) => {
                proof {
                    lemma_instrs_none(instrs@, k + 1, sv, dv, symbol_table@, symbol_table.struct_fuel(), ret, allow_unsafe, h0, a0);
                }
                return Err(e);
            },
        };
        push_string(&mut body, &text);
        k = k + 1;
    }
    assert(instrs@.take(k as int) =~= instrs@);
    let mut out = String::from_str("define ");
    push_str(&mut out, rt);
    push_str(&mut out, " @_c0_");
    push_string(&mut out, func_name);
    push_str(&mut out, "(");
    push_string(&mut out, &pt);
    push_str(&mut out, ") {\n");
    push_string(&mut out, &body);
    push_str(&mut out, "}\n\n");
    assert(out@ =~= "define "@ + rt@ + " @_c0_"@ + func_name@ + "("@ + pt@ + ") {\n"@ + body@ + "}\n\n"@);
    Ok(out)
}

/// An instruction sequence lays out a function's blocks reachable from its entry, in a
/// reverse post-order (as `IRContext::linearize` does).
pub open spec fn is_linearization(ctx: IRContext, is: Seq<Instr>) -> bool {
    exists|order: Seq<Label>| rpo_ok(ctx, order) && same_instrs(is, linear(ctx, order))
}

/// Each function of a program laid out linearly.
pub open spec fn linearizations(prog: Seq<(Ident, IRContext)>, lins: Seq<Seq<Instr>>) -> bool {
    &&& lins.len() == prog.len()
    &&& forall|i: int| 0 <= i < prog.len() ==> is_linearization(prog[i].1, #[trigger] lins[i])
}

/// Names of the functions of a program with their linear instructions.
pub open spec fn funcs_of(prog: Seq<(Ident, IRContext)>, lins: Seq<Seq<Instr>>) -> Seq<(Seq<char>, Seq<Instr>)> {
    Seq::new(prog.len(), |i: int| (prog[i].0@, lins[i]))
}

/// Models of a list of instruction lists.
pub open spec fn bodies_view(v: Seq<Vec<Instr>>) -> Seq<Seq<Instr>> {
    v.map_values(|b: Vec<Instr>| b@)
}

/// Once a prefix of the functions has no text, the whole list has none.
proof fn lemma_funcs_none(
    fs: Seq<(Seq<char>, Seq<Instr>)>,
    j: int,
    sigs: SignaturesV,
    defined: Seq<Seq<char>>,
    m: SymbolModel,
    fuel: nat,
    unsafe_ok: bool,
    h: HelpersContext,
    aux: usize,
)
    requires
        0 <= j <= fs.len(),
        funcs_text(fs.take(j), sigs, defined, m, fuel, unsafe_ok, h, aux) is None,
    ensures
        funcs_text(fs, sigs, defined, m, fuel, unsafe_ok, h, aux) is None,
    decreases fs.len() - j,
{
    if j == fs.len() {
        assert(fs.take(j) =~= fs);
    } else {
        assert(fs.take(j + 1).drop_last() =~= fs.take(j));
        lemma_funcs_none(fs, j + 1, sigs, defined, m, fuel, unsafe_ok, h, aux);
    }
}

/// Lay out every function of a program linearly.
fn linearize_all(program_ir: &Vec<(Ident, IRContext)>) -> (r: Vec<Vec<Instr>>)
    ensures
        linearizations(program_ir@, bodies_view(r@)),
{
    let mut out: Vec<Vec<Instr>> = Vec::new();
    let mut k: usize = 0;
    while k < program_ir.len()
        invariant
            k <= program_ir@.len(),
            out@.len() == k,
            forall|i: int| 0 <= i < k ==> is_linearization(program_ir@[i].1, #[trigger] out@[i]@),
        decreases program_ir@.len() - k,
    {
        let is = program_ir[k].1.linearize();
        out.push(is);
        k = k + 1;
    }
    assert forall|i: int| 0 <= i < program_ir@.len() implies is_linearization(program_ir@[i].1, #[trigger] bodies_view(out@)[i]) by {
        assert(bodies_view(out@)[i] == out@[i]@);
    }
    out
}

/// Generate the LLVM IR text of a program from its header and source declarations, the
/// IR of each function it defines, and its symbol table: struct types, declarations of
/// the external functions, the function definitions and the runtime helpers they use.
/// The text is that of one linear layout of each function's blocks. Fails where a
/// declaration or instruction cannot be lowered (see `program_text`).
pub fn generate_llvm(
    header_ast: &ProgramAST,
    source_ast: &ProgramAST,
    program_ir: &Vec<(Ident, IRContext)>,
    symbol_table: &SymbolTable,
    allow_unsafe: bool,
) -> (r: Result<String, String>)
    requires
        symbol_table.wf(),
    ensures
        exists|lins: Seq<Seq<Instr>>|
            linearizations(program_ir@, lins) && match r {
                Ok(s) => program_text(
                    header_ast@,
                    source_ast@,
                    funcs_of(program_ir@, lins),
                    symbol_table@,
                    symbol_table.struct_fuel(),
                    allow_unsafe,
                ) == Some(s@),
                Err(_) => program_text(
                    header_ast@,
                    source_ast@,
                    funcs_of(program_ir@, lins),
                    symbol_table@,
                    symbol_table.struct_fuel(),
                    allow_unsafe,
                ) is None,
            },
{
    let bodies = linearize_all(program_ir);
    let ghost lins = bodies_view(bodies@);
    let ghost fs = funcs_of(program_ir@, lins);
    let ghost m = symbol_table@;
    let ghost fuel = symbol_table.struct_fuel();
    let mut function_signatures: Vec<(Ident, FunctionSignature)> = Vec::new();
    assert(signatures_view(function_signatures@) =~= Seq::<(Seq<char>, (TypV, Seq<TypV>))>::empty());
    collect_function_signatures(header_ast, &mut function_signatures);
    collect_function_signatures(source_ast, &mut function_signatures);
    let source_defined = collect_defined_names(source_ast);
    let ghost sigs = signatures_view(function_signatures@);
    let ghost defined = names_view(source_defined@);
    let ghost text = program_text(header_ast@, source_ast@, fs, m, fuel, allow_unsafe);
    let struct_defs = match collect_struct_definitions(header_ast, source_ast) {
        Ok(d) => d,
        Err(e) => return Err(e),
    };
    let declarations = match generate_declarations(&function_signatures, &source_defined) {
        Ok(d) => d,
        Err(e) => return Err(e),
    };
    let mut helpers_ctx = HelpersContext::new();
    let mut aux_counter: usize = 0;
    let mut funcs = String::new();
    let mut k: usize = 0;
    assert(fs.take(0) =~= Seq::<(Seq<char>, Seq<Instr>)>::empty());
    while k < program_ir.len()
        invariant
            symbol_table.wf(),
            m == symbol_table@,
            fuel == symbol_table.struct_fuel(),
            sigs == signatures_view(function_signatures@),
            defined == names_view(source_defined@),
            lins == bodies_view(bodies@),
            fs == funcs_of(program_ir@, lins),
            linearizations(program_ir@, lins),
            sigs == collect_sigs(collect_sigs(Seq::empty(), header_ast@), source_ast@),
            defined == defined_names(source_ast@),
            struct_lines(header_ast@ + source_ast@) is Some,
            decl_lines(sigs, defined) is Some,
            bodies@.len() == program_ir@.len(),
            k <= program_ir@.len(),
            funcs_text(fs.take(k as int), sigs, defined, m, fuel, allow_unsafe, no_helpers(), 0) == Some(
                (funcs@, helpers_ctx, aux_counter),
            ),
        decreases program_ir@.len() - k,
    {
        proof {
            assert(fs.take(k + 1).drop_last() =~= fs.take(k as int));
            assert(fs.take(k + 1).last() == fs[k as int]);
            assert(fs[k as int] == (program_ir@[k as int].0@, bodies@[k as int]@));
        }
        let text = match generate_function_llvm(
            &program_ir[k].0,
            &bodies[k],
            &function_signatures,
            &source_defined,
            symbol_table,
            allow_unsafe,
            &mut helpers_ctx,
            &mut aux_counter,
        ) {
            Ok(t) => t,
            Err(e) => {
                proof { lemma_funcs_none(fs, k + 1, sigs, defined, m, fuel, allow_unsafe, no_helpers(), 0); }
                return Err(e);
            },
        };
        push_string(&mut funcs, &text);
        k = k + 1;
    }
    assert(fs.take(k as int) =~= fs);
    let ghost h = helpers_ctx;
    let abort_name = String::from_str("abort");
    if helpers_ctx.needs_abort && lookup_signature(&function_signatures, &abort_name).is_some() && !contains_name(
        &source_defined,
        &abort_name,
    ) {
        helpers_ctx.needs_abort = false;
    }
    let calloc_name = String::from_str("calloc");
    if helpers_ctx.needs_alloc && lookup_signature(&function_signatures, &calloc_name).is_some() && !contains_name(
        &source_defined,
        &calloc_name,
    ) {
        helpers_ctx.needs_alloc = false;
    }
    assert(helpers_ctx == final_helpers(h, sigs, defined));
    let mut out = String::new();
    push_section(&mut out, &struct_defs);
    push_section(&mut out, &declarations);
    push_string(&mut out, &funcs);
    let helpers = helpers_ctx.emit();
    push_string(&mut out, &helpers);
    assert(out@ =~= section_text(strings_view(struct_defs@)) + section_text(strings_view(declarations@)) + funcs@
        + helpers_text(final_helpers(h, sigs, defined)));
    Ok(out)
}

/// Context `a` needs every helper that `b` needs.
pub open spec fn helpers_include(a: HelpersContext, b: HelpersContext) -> bool {
    &&& b.needs_abort ==> a.needs_abort
    &&& b.needs_alloc ==> a.needs_alloc
    &&& b.needs_alloc_array ==> a.needs_alloc_array
    &&& b.needs_null_check ==> a.needs_null_check
    &&& b.needs_div_check ==> a.needs_div_check
    &&& b.needs_shift_check ==> a.needs_shift_check
    &&& b.needs_array_check ==> a.needs_array_check
}

/// Lowering one instruction keeps every helper needed before, and takes at most four
/// fresh auxiliary numbers, never going back.
pub proof fn lemma_instr_text_grows(
    i: Instr,
    sigs: SignaturesV,
    defined: Seq<Seq<char>>,
    m: SymbolModel,
    fuel: nat,
    ret: TypV,
    unsafe_ok: bool,
    h: HelpersContext,
    aux: usize,
)
    requires
        aux + 4 <= usize::MAX,
    ensures
        instr_text(i, sigs, defined, m, fuel, ret, unsafe_ok, h, aux) matches Some(step) ==> helpers_include(step.1, h)
            && aux <= step.2 <= aux + 4,
{
    reveal(instr_text);
    match i {
        Instr::BinOp { op, dest, lhs, rhs } => {
            lemma_binop_text_grows(op, dest, lhs, rhs, m, fuel, unsafe_ok, h, aux);
        },
        Instr::Load { .. } | Instr::Store { .. } | Instr::Alloc { .. } | Instr::AllocArray { .. } => {
            lemma_memory_text_grows(i, unsafe_ok, h, aux);
        },
        _ => {},
    }
}

proof fn lemma_binop_text_grows(
    op: BinOp,
    d: Temp,
    l: Operand,
    r: Operand,
    m: SymbolModel,
    fuel: nat,
    unsafe_ok: bool,
    h: HelpersContext,
    aux: usize,
)
    requires
        aux + 4 <= usize::MAX,
    ensures
        binop_text(op, d, l, r, m, fuel, unsafe_ok, h, aux) matches Some(step) ==> helpers_include(step.1, h) && aux
            <= step.2 <= aux + 4,
{
    if !(op is LAnd || op is LOr) && !is_cmp(op) {
        if (op is Add || op is Sub) && (ptr_like(operand_typ(l)) || ptr_like(operand_typ(r))) && !((op is Div || op is Mod
            || op is Sal || op is Sar) && !unsafe_ok) {
            lemma_ptr_arith_text_grows(op, d, l, r, m, fuel, unsafe_ok, h, aux);
        }
    }
}

proof fn lemma_ptr_arith_text_grows(
    op: BinOp,
    d: Temp,
    l: Operand,
    r: Operand,
    m: SymbolModel,
    fuel: nat,
    unsafe_ok: bool,
    h: HelpersContext,
    aux: usize,
)
    requires
        aux + 4 <= usize::MAX,
    ensures
        ptr_arith_text(op, d, l, r, m, fuel, unsafe_ok, h, aux) matches Some(step) ==> helpers_include(step.1, h)
            && aux <= step.2 <= aux + 4,
{
    if let Some((swapped, negate)) = ptr_select(op, l, r) {
        let p = if swapped { r } else { l };
        let o = if swapped { l } else { r };
        if let Some((sc, pre, aux3)) = scaled_offset_text(o, negate, operand_typ(p), m, fuel, aux) {
            assert(aux <= aux3 <= aux + 3);
        }
    }
}

proof fn lemma_memory_text_grows(i: Instr, unsafe_ok: bool, h: HelpersContext, aux: usize)
    requires
        aux + 4 <= usize::MAX,
    ensures
        memory_text(i, unsafe_ok, h, aux) matches Some(step) ==> helpers_include(step.1, h) && aux <= step.2 <= aux + 4,
{
}

/// Lowering a sequence of instructions keeps every helper needed before and never
/// reuses an auxiliary number.
pub proof fn lemma_instrs_text_grows(
    is: Seq<Instr>,
    sigs: SignaturesV,
    defined: Seq<Seq<char>>,
    m: SymbolModel,
    fuel: nat,
    ret: TypV,
    unsafe_ok: bool,
    h: HelpersContext,
    aux: usize,
)
    ensures
        instrs_text(is, sigs, defined, m, fuel, ret, unsafe_ok, h, aux) matches Some(step) ==> helpers_include(step.1, h)
            && aux <= step.2,
    decreases is.len(),
{
    if is.len() > 0 {
        lemma_instrs_text_grows(is.drop_last(), sigs, defined, m, fuel, ret, unsafe_ok, h, aux);
        if let Some((prev, h1, aux1)) = instrs_text(is.drop_last(), sigs, defined, m, fuel, ret, unsafe_ok, h, aux) {
            if aux1 + 4 <= usize::MAX {
                lemma_instr_text_grows(is.last(), sigs, defined, m, fuel, ret, unsafe_ok, h1, aux1);
            }
        }
    }
}

} // verus!
