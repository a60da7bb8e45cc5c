//! Sparse conditional constant propagation: the values of operators on known
//! constants, the lattice value of each instruction, the blocks a terminator makes
//! reachable, and the rewriting of instructions from a solved lattice.
use vstd::prelude::*;

use crate::ast::{BinOp, Typ, TypV, UnOp};
use crate::arith32::{c0_binop, wrap32, tdiv, trem, div_traps, shift_traps, bool_value, two32};
use crate::ir::{lemma_wf_slots, BasicBlock, IRContext, Instr, Label, Operand, Temp};
use crate::liveness::{defined_id, get_uses, read_ids, run_of};
use crate::cfg::dest_of;
use crate::cfg_simp::{keep_sources, kept_srcs, known_jump, simplify_terminator, simplify_trivial_phi, trivial_phi_move};
use crate::cfg::get_dest_temp_from_instruction;
use crate::lattice::{
    below, get_lattice_value_of_operand, join_lattice, join_spec, lattice_entry, lattice_get, lattice_wf, lemma_join_associative,
    lemma_update_moves_up, update_lattice, Lattice, LatticeV,
    LatticeValue,
};

verus! {

/// Value of a unary operator on a known constant: negation wraps, `~` flips every bit,
/// and `!` maps zero to one and anything else to zero.
pub open spec fn unop_fold(op: UnOp, v: i64) -> i64 {
    match op {
        UnOp::Neg => (0i64).wrapping_sub(v),
        UnOp::Not => !v,
        UnOp::LNot => if v == 0 { 1 } else { 0 },
    }
}

/// Folding a unary operator agrees with its meaning: negation is the negated value
/// (where it is representable), `~x` is `-x - 1`, and `!x` is one exactly for zero.
pub proof fn lemma_unop_fold_matches_operators(op: UnOp, v: i64)
    ensures
        op is Neg && v != i64::MIN ==> unop_fold(op, v) == -v,
        op is Not ==> unop_fold(op, v) == -v - 1,
        op is LNot ==> unop_fold(op, v) == bool_value(v == 0),
{
    assert(!v == -v - 1) by (bit_vector);
}

/// Constant propagation on a unary operator for a known compile-time constant.
pub fn propagate_on_unop(op: UnOp, value: i64) -> (r: i64)
    ensures
        r == unop_fold(op, value),
{
    match op {
        UnOp::Neg => (0i64).wrapping_sub(value),
        UnOp::Not => !value,
        UnOp::LNot => if value == 0 { 1 } else { 0 },
    }
}

/// A condition as a 32-bit truth value.
pub open spec fn truth(b: bool) -> i32 {
    if b { 1 } else { 0 }
}

/// Value of a binary operator on known constants, both taken as 32-bit integers:
/// arithmetic wraps; division and remainder by zero or of the least integer by minus
/// one, and shifts by less than 0 or more than 31, have no value unless unsafe
/// operations are allowed, where they give 0 (the dividend, for such a division by
/// minus one); comparisons and logical operators give 1 or 0.
pub open spec fn binop_fold(op: BinOp, lhs: i64, rhs: i64, is_unsafe: bool) -> Option<i32> {
    let l = lhs as i32;
    let r = rhs as i32;
    let trap = r == 0 || (l == i32::MIN && r == -1);
    match op {
        BinOp::Add => Some(l.wrapping_add(r)),
        BinOp::Sub => Some(l.wrapping_sub(r)),
        BinOp::Mul => Some(l.wrapping_mul(r)),
        BinOp::Div => if trap {
            if is_unsafe { Some(if r == 0 { 0 } else { l }) } else { None }
        } else {
            l.checked_div(r)
        },
        BinOp::Mod => if trap {
            if is_unsafe { Some(0) } else { None }
        } else {
            l.checked_rem(r)
        },
        BinOp::And => Some(l & r),
        BinOp::Xor => Some(l ^ r),
        BinOp::Or => Some(l | r),
        BinOp::Sal => if 0 <= r <= 31 {
            Some(l.wrapping_shl(r as u32))
        } else if is_unsafe {
            Some(0)
        } else {
            None
        },
        BinOp::Sar => if 0 <= r <= 31 {
            Some(l.wrapping_shr(r as u32))
        } else if is_unsafe {
            Some(0)
        } else {
            None
        },
        BinOp::LAnd => Some(truth(l != 0 && r != 0)),
        BinOp::LOr => Some(truth(l != 0 || r != 0)),
        BinOp::CmpEq => Some(truth(l == r)),
        BinOp::CmpNeq => Some(truth(l != r)),
        BinOp::Lt => Some(truth(l < r)),
        BinOp::Gt => Some(truth(l > r)),
        BinOp::Lte => Some(truth(l <= r)),
        BinOp::Gte => Some(truth(l >= r)),
    }
}

/// Folding agrees with the meaning of each operator: on 32-bit constants the folded
/// value is the value of `a op b` (wrapping arithmetic, division truncated toward zero,
/// remainder with the sign of the dividend, arithmetic right shift, comparisons and
/// logical operators as 0 or 1), and folding gives nothing where evaluation traps, but
/// for the fixed values that unsafe mode folds a trap to.
pub proof fn lemma_fold_matches_operators(op: BinOp, a: i32, b: i32, is_unsafe: bool)
    ensures
        match binop_fold(op, a as i64, b as i64, is_unsafe) {
            Some(x) => c0_binop(op, a, b) == Some(x as int) || (c0_binop(op, a, b) is None && is_unsafe),
            None => c0_binop(op, a, b) is None && !is_unsafe,
        },
{
    let l = (a as i64) as i32;
    let r = (b as i64) as i32;
    assert(l == a && r == b);
    match op {
        BinOp::Add => lemma_wrapping_add(a, b),
        BinOp::Sub => lemma_wrapping_sub(a, b),
        BinOp::Mul => lemma_wrapping_mul(a, b),
        BinOp::Div => if !div_traps(a, b) { lemma_checked_div(a, b) },
        BinOp::Mod => if !div_traps(a, b) { lemma_checked_rem(a, b) },
        _ => {},
    }
}

proof fn lemma_wrapping_add(a: i32, b: i32)
    ensures
        a.wrapping_add(b) as int == wrap32(a + b),
{
    let x = a + b;
    if x > i32::MAX {
        assert(x % two32() == x) by (nonlinear_arith) requires 0 <= x < two32();
    } else if x >= 0 {
        assert(x % two32() == x) by (nonlinear_arith) requires 0 <= x < two32();
    } else {
        assert(x % two32() == x + two32()) by (nonlinear_arith) requires -two32() <= x < 0;
    }
}

proof fn lemma_wrapping_sub(a: i32, b: i32)
    ensures
        a.wrapping_sub(b) as int == wrap32(a - b),
{
    let x = a - b;
    if x >= 0 {
        assert(x % two32() == x) by (nonlinear_arith) requires 0 <= x < two32();
    } else {
        assert(x % two32() == x + two32()) by (nonlinear_arith) requires -two32() <= x < 0;
    }
}

proof fn lemma_wrapping_mul(a: i32, b: i32)
    ensures
        a.wrapping_mul(b) as int == wrap32(a * b),
{
}

proof fn lemma_checked_div(a: i32, b: i32)
    requires
        !div_traps(a, b),
    ensures
        a.checked_div(b) == Some(tdiv(a as int, b as int) as i32),
        i32::MIN <= tdiv(a as int, b as int) <= i32::MAX,
{
    let x = a as int;
    let d = b as int;
    let ax = if x < 0 { -x } else { x };
    let ad = if d < 0 { -d } else { d };
    assert(ad >= 1);
    assert(0 <= ax / ad <= ax) by (nonlinear_arith) requires ax >= 0, ad >= 1;
    if ax / ad == ax && ax == 2147483648 {
        assert(ad == 1) by (nonlinear_arith) requires ax / ad == ax, ax > 0, ad >= 1;
    }
}

proof fn lemma_checked_rem(a: i32, b: i32)
    requires
        !div_traps(a, b),
    ensures
        a.checked_rem(b) == Some(trem(a as int, b as int) as i32),
        i32::MIN <= trem(a as int, b as int) <= i32::MAX,
{
    let x = a as int;
    let d = b as int;
    let ax = if x < 0 { -x } else { x };
    let ad = if d < 0 { -d } else { d };
    lemma_checked_div(a, b);
    assert(ax == ad * (ax / ad) + ax % ad && 0 <= ax % ad < ad) by (nonlinear_arith) requires ax >= 0, ad >= 1;
    assert(trem(x, d) == if x < 0 { -(ax % ad) } else { ax % ad }) by (nonlinear_arith)
        requires
            ax == ad * (ax / ad) + ax % ad,
            ax == (if x < 0 { -x } else { x }),
            ad == (if d < 0 { -d } else { d }),
            trem(x, d) == x - d * tdiv(x, d),
            tdiv(x, d) == (if (x < 0) != (d < 0) { -(ax / ad) } else { ax / ad });
}

/// Constant propagation on a binary operator for known compile-time constants; `None`
/// where the operation would trap (see `binop_fold`).
pub fn propagate_on_binop(op: BinOp, lhs: i64, rhs: i64, is_unsafe: bool) -> (r: Option<i32>)
    ensures
        r == binop_fold(op, lhs, rhs, is_unsafe),
{
    let l = lhs as i32;
    let r = rhs as i32;
    let trap = r == 0 || (l == i32::MIN && r == -1);
    match op {
        BinOp::Add => Some(l.wrapping_add(r)),
        BinOp::Sub => Some(l.wrapping_sub(r)),
        BinOp::Mul => Some(l.wrapping_mul(r)),
        BinOp::Div => if trap {
            if is_unsafe { Some(if r == 0 { 0 } else { l }) } else { None }
        } else {
            l.checked_div(r)
        },
        BinOp::Mod => if trap {
            if is_unsafe { Some(0) } else { None }
        } else {
            l.checked_rem(r)
        },
        BinOp::And => Some(l & r),
        BinOp::Xor => Some(l ^ r),
        BinOp::Or => Some(l | r),
        BinOp::Sal => if 0 <= r && r <= 31 {
            Some(l.wrapping_shl(r as u32))
        } else if is_unsafe {
            Some(0)
        } else {
            None
        },
        BinOp::Sar => if 0 <= r && r <= 31 {
            Some(l.wrapping_shr(r as u32))
        } else if is_unsafe {
            Some(0)
        } else {
            None
        },
        BinOp::LAnd => Some(if l != 0 && r != 0 { 1 } else { 0 }),
        BinOp::LOr => Some(if l != 0 || r != 0 { 1 } else { 0 }),
        BinOp::CmpEq => Some(if l == r { 1 } else { 0 }),
        BinOp::CmpNeq => Some(if l != r { 1 } else { 0 }),
        BinOp::Lt => Some(if l < r { 1 } else { 0 }),
        BinOp::Gt => Some(if l > r { 1 } else { 0 }),
        BinOp::Lte => Some(if l <= r { 1 } else { 0 }),
        BinOp::Gte => Some(if l >= r { 1 } else { 0 }),
    }
}

/// Lattice value of an operand: a constant is itself, a temporary its recorded state.
pub open spec fn operand_value(op: Operand, l: Seq<(usize, LatticeValue)>) -> LatticeV {
    match op {
        Operand::Const(c) => LatticeV::Const(c.0, c.1@),
        Operand::Temp(t) => lattice_get(l, t.0),
    }
}

/// Join of the values a phi receives along the edges from blocks found reachable.
pub open spec fn phi_value(srcs: Seq<(Label, Operand)>, l: Seq<(usize, LatticeValue)>, state: Seq<Label>) -> LatticeV
    decreases srcs.len(),
{
    if srcs.len() == 0 {
        LatticeV::Undefined
    } else {
        let prev = phi_value(srcs.drop_last(), l, state);
        if state.contains(srcs.last().0) {
            join_spec(prev, operand_value(srcs.last().1, l))
        } else {
            prev
        }
    }
}

/// Lattice value an instruction gives its destination: moves pass their source on,
/// operators fold known constants (an operation on pointers, or one that would trap,
/// is overdefined), phis join what reachable predecessors send, and anything else is
/// overdefined.
pub open spec fn instr_value(i: Instr, l: Seq<(usize, LatticeValue)>, state: Seq<Label>, is_unsafe: bool) -> LatticeV {
    match i {
        Instr::Move { src, .. } => operand_value(src, l),
        Instr::UnOp { op, src, .. } => match operand_value(src, l) {
            LatticeV::Const(v, t) => LatticeV::Const(unop_fold(op, v), if op is LNot { TypV::Bool } else { t }),
            other => other,
        },
        Instr::BinOp { op, dest, lhs, rhs } => if dest.1@ is Pointer || dest.1@ is Null {
            LatticeV::Overdefined
        } else {
            match (operand_value(lhs, l), operand_value(rhs, l)) {
                (LatticeV::Const(a, _), LatticeV::Const(b, _)) => match binop_fold(op, a, b, is_unsafe) {
                    Some(v) => LatticeV::Const(v as i64, dest.1@),
                    None => LatticeV::Overdefined,
                },
                (LatticeV::Overdefined, _) => LatticeV::Overdefined,
                (_, LatticeV::Overdefined) => LatticeV::Overdefined,
                _ => LatticeV::Undefined,
            }
        },
        Instr::Phi { srcs, .. } => phi_value(srcs@, l, state),
        _ => LatticeV::Overdefined,
    }
}

/// Whether a label is in a list.
fn label_in(state: &Vec<Label>, label: Label) -> (r: bool)
    ensures
        r == state@.contains(label),
{
    let mut i: usize = 0;
    while i < state.len()
        invariant
            i <= state@.len(),
            forall|j: int| 0 <= j < i ==> state@[j] != label,
        decreases state@.len() - i,
    {
        if state[i] == label {
            return true;
        }
        i = i + 1;
    }
    false
}

/// Constant propagation on an instruction: the lattice value it gives its destination,
/// `state` holding the blocks found reachable.
pub fn propagate_on_instr(instr: &Instr, lattice: &Lattice, state: &Vec<Label>, is_unsafe: bool) -> (r: LatticeValue)
    requires
        lattice_wf(lattice@),
    ensures
        r@ == instr_value(*instr, lattice@, state@, is_unsafe),
{
    match instr {
        Instr::Move { src, .. } => get_lattice_value_of_operand(src, lattice),
        Instr::UnOp { op, src, .. } => match get_lattice_value_of_operand(src, lattice) {
            LatticeValue::Const((value, typ)) => {
                let t = match op {
                    UnOp::LNot => Typ::Bool,
                    _ => typ,
                };
                LatticeValue::Const((propagate_on_unop(*op, value), t))
            },
            value => value,
        },
        Instr::BinOp { op, dest, lhs, rhs } => {
            match dest.1 {
                Typ::Pointer(..) | Typ::Null => return LatticeValue::Overdefined,
                _ => {},
            }
            let l_value = get_lattice_value_of_operand(lhs, lattice);
            let r_value = get_lattice_value_of_operand(rhs, lattice);
            match (&l_value, &r_value) {
                (LatticeValue::Const((l, _)), LatticeValue::Const((r, _))) => match propagate_on_binop(*op, *l, *r, is_unsafe) {
                    Some(value) => LatticeValue::Const((value as i64, dest.1.duplicate())),
                    None => LatticeValue::Overdefined,
                },
                (LatticeValue::Overdefined, _) | (_, LatticeValue::Overdefined) => LatticeValue::Overdefined,
                _ => LatticeValue::Undefined,
            }
        },
        Instr::Phi { srcs, .. } => {
            let mut merged = LatticeValue::Undefined;
            let mut k: usize = 0;
            assert(srcs@.take(0) =~= Seq::<(Label, Operand)>::empty());
            while k < srcs.len()
                invariant
                    lattice_wf(lattice@),
                    k <= srcs@.len(),
                    merged@ == phi_value(srcs@.take(k as int), lattice@, state@),
                decreases srcs@.len() - k,
            {
                proof {
                    assert(srcs@.take(k + 1).drop_last() =~= srcs@.take(k as int));
                    assert(srcs@.take(k + 1).last() == srcs@[k as int]);
                }
                if label_in(state, srcs[k].0) {
                    merged = join_lattice(merged, get_lattice_value_of_operand(&srcs[k].1, lattice));
                }
                k = k + 1;
            }
            assert(srcs@.take(k as int) =~= srcs@);
            merged
        },
        _ => LatticeValue::Overdefined,
    }
}

/// Blocks a terminator makes reachable: the target of a jump; the branch a known
/// condition takes, or both branches of an unknown one.
pub open spec fn term_targets(t: Instr, l: Seq<(usize, LatticeValue)>) -> Seq<Label> {
    match t {
        Instr::JumpTo(label) => seq![label],
        Instr::JumpIf { pred, holds, fails } => match operand_value(pred, l) {
            LatticeV::Const(v, _) => if v != 0 { seq![holds] } else { seq![fails] },
            _ => seq![holds, fails],
        },
        _ => Seq::empty(),
    }
}

/// Add a label to a list of distinct labels; whether it was new.
fn insert_label(state: &mut Vec<Label>, label: Label) -> (r: bool)
    requires
        old(state)@.no_duplicates(),
    ensures
        final(state)@.no_duplicates(),
        r == !old(state)@.contains(label),
        !r ==> final(state)@ == old(state)@,
        forall|x: Label| #[trigger] final(state)@.contains(x) <==> (old(state)@.contains(x) || x == label),
{
    if label_in(state, label) {
        false
    } else {
        let ghost s0 = state@;
        state.push(label);
        assert forall|x: Label| #[trigger] state@.contains(x) <==> (s0.contains(x) || x == label) by {
            if state@.contains(x) {
                let i = choose|i: int| 0 <= i < state@.len() && state@[i] == x;
                if i < s0.len() {
                    assert(s0[i] == x);
                }
            }
            if s0.contains(x) {
                let i = choose|i: int| 0 <= i < s0.len() && s0[i] == x;
                assert(state@[i] == x);
            }
            if x == label {
                assert(state@[s0.len() as int] == x);
            }
        }
        true
    }
}

/// Mark the blocks a terminator makes reachable; whether any of them is new.
pub fn propagate_on_terminator(terminator: &Instr, lattice: &Lattice, state: &mut Vec<Label>) -> (r: bool)
    requires
        lattice_wf(lattice@),
        old(state)@.no_duplicates(),
    ensures
        final(state)@.no_duplicates(),
        forall|x: Label| #[trigger] final(state)@.contains(x) <==> (old(state)@.contains(x) || term_targets(*terminator, lattice@).contains(x)),
        r == exists|x: Label| #[trigger] term_targets(*terminator, lattice@).contains(x) && !old(state)@.contains(x),
        !r ==> final(state)@ == old(state)@,
{
    let ghost s0 = state@;
    let ghost ts = term_targets(*terminator, lattice@);
    match terminator {
        Instr::JumpTo(label) => {
            let r = insert_label(state, *label);
            assert(ts =~= seq![*label]);
            assert(ts[0] == *label);
            assert forall|x: Label| #[trigger] ts.contains(x) implies x == *label by {
                let i = choose|i: int| 0 <= i < ts.len() && ts[i] == x;
            }
            assert(ts.contains(*label));
            r
        },
        Instr::JumpIf { pred, holds, fails } => match get_lattice_value_of_operand(pred, lattice) {
            LatticeValue::Const((value, _)) => {
                let target = if value != 0 { *holds } else { *fails };
                let r = insert_label(state, target);
                assert(ts =~= seq![target]);
                assert(ts[0] == target);
                assert forall|x: Label| #[trigger] ts.contains(x) implies x == target by {
                    let i = choose|i: int| 0 <= i < ts.len() && ts[i] == x;
                }
                assert(ts.contains(target));
                r
            },
            _ => {
                let a = insert_label(state, *holds);
                let ghost s1 = state@;
                let b = insert_label(state, *fails);
                assert(ts =~= seq![*holds, *fails]);
                assert(ts[0] == *holds && ts[1] == *fails);
                assert(ts.contains(*holds) && ts.contains(*fails));
                assert forall|x: Label| #[trigger] ts.contains(x) implies x == *holds || x == *fails by {
                    let i = choose|i: int| 0 <= i < ts.len() && ts[i] == x;
                }
                proof {
                    if a {
                        assert(ts.contains(*holds) && !s0.contains(*holds));
                    } else if b {
                        assert(!s1.contains(*fails));
                        assert(ts.contains(*fails) && !s0.contains(*fails));
                    } else {
                        assert(s0.contains(*holds));
                        assert(s0.contains(*fails));
                    }
                }
                a || b
            },
        },
        _ => {
            assert(ts =~= Seq::<Label>::empty());
            false
        },
    }
}


/// The constant replacing an operand: the constant recorded for a temporary.
pub open spec fn const_replacement(op: Operand, l: Seq<(usize, LatticeValue)>) -> Option<Operand> {
    match op {
        Operand::Temp(t) => match lattice_entry(l, t.0) {
            LatticeValue::Const(c) => Some(Operand::Const(c)),
            _ => None,
        },
        Operand::Const(_) => None,
    }
}

/// An operand after replacement.
pub open spec fn after_replace(op: Operand, l: Seq<(usize, LatticeValue)>) -> Operand {
    match const_replacement(op, l) {
        Some(o) => o,
        None => op,
    }
}

/// Replace an operand by the constant recorded for it; whether it changed.
pub fn replace_const_operand(op: &mut Operand, lattice: &Lattice) -> (r: bool)
    requires
        lattice_wf(lattice@),
    ensures
        *final(op) == after_replace(*old(op), lattice@),
        r == const_replacement(*old(op), lattice@) is Some,
{
    let id = match op {
        Operand::Temp(t) => t.0,
        Operand::Const(_) => return false,
    };
    let probe = Operand::Temp((id, Typ::Void));
    match get_lattice_value_of_operand(&probe, lattice) {
        LatticeValue::Const(c) => {
            *op = Operand::Const(c);
            true
        },
        _ => false,
    }
}


/// Position of the first operand that has a constant replacement.
pub open spec fn first_replaceable(ops: Seq<Operand>, l: Seq<(usize, LatticeValue)>, j: int) -> bool {
    &&& 0 <= j < ops.len()
    &&& const_replacement(ops[j], l) is Some
    &&& forall|k: int| 0 <= k < j ==> const_replacement(#[trigger] ops[k], l) is None
}

/// A list of operands with its first replaceable operand replaced.
pub open spec fn replace_first(ops: Seq<Operand>, l: Seq<(usize, LatticeValue)>) -> Seq<Operand> {
    if exists|j: int| first_replaceable(ops, l, j) {
        let j = choose|j: int| first_replaceable(ops, l, j);
        ops.update(j, after_replace(ops[j], l))
    } else {
        ops
    }
}

/// Whether some operand of a list has a constant replacement.
pub open spec fn any_replaceable(ops: Seq<Operand>, l: Seq<(usize, LatticeValue)>) -> bool {
    exists|j: int| 0 <= j < ops.len() && const_replacement(#[trigger] ops[j], l) is Some
}

proof fn lemma_first_replaceable_unique(ops: Seq<Operand>, l: Seq<(usize, LatticeValue)>, j: int)
    requires
        first_replaceable(ops, l, j),
    ensures
        replace_first(ops, l) == ops.update(j, after_replace(ops[j], l)),
{
    let c = choose|c: int| first_replaceable(ops, l, c);
    if c < j {
        assert(const_replacement(ops[c], l) is None);
    }
    if j < c {
        assert(const_replacement(ops[j], l) is None);
    }
}

/// Replace the first operand of a list that has a constant replacement; whether one
/// had.
fn replace_first_operand(ops: &mut Vec<Operand>, lattice: &Lattice) -> (r: bool)
    requires
        lattice_wf(lattice@),
    ensures
        final(ops)@ == replace_first(old(ops)@, lattice@),
        r == any_replaceable(old(ops)@, lattice@),
{
    let ghost o = ops@;
    let mut k: usize = 0;
    while k < ops.len()
        invariant
            lattice_wf(lattice@),
            ops@ == o,
            o == old(ops)@,
            k <= o.len(),
            forall|m: int| 0 <= m < k ==> const_replacement(#[trigger] o[m], lattice@) is None,
        decreases o.len() - k,
    {
        let mut op = ops[k].clone();
        if replace_const_operand(&mut op, lattice) {
            proof {
                assert(first_replaceable(o, lattice@, k as int));
                lemma_first_replaceable_unique(o, lattice@, k as int);
            }
            ops.set(k, op);
            assert(ops@ =~= o.update(k as int, after_replace(o[k as int], lattice@)));
            assert(const_replacement(o[k as int], lattice@) is Some);
            return true;
        }
        k = k + 1;
    }
    proof {
        assert(!exists|j: int| first_replaceable(o, lattice@, j));
        assert(!any_replaceable(o, lattice@));
    }
    false
}


/// The operands of phi sources.
pub open spec fn src_operands(srcs: Seq<(Label, Operand)>) -> Seq<Operand> {
    srcs.map_values(|p: (Label, Operand)| p.1)
}

/// Phi sources with the first replaceable operand replaced.
pub open spec fn replace_first_src(srcs: Seq<(Label, Operand)>, l: Seq<(usize, LatticeValue)>) -> Seq<(Label, Operand)> {
    let ops = src_operands(srcs);
    let new_ops = replace_first(ops, l);
    Seq::new(srcs.len(), |i: int| (srcs[i].0, new_ops[i]))
}

/// Replace the first phi source that has a constant replacement; whether one had.
fn replace_first_source(srcs: &mut Vec<(Label, Operand)>, lattice: &Lattice) -> (r: bool)
    requires
        lattice_wf(lattice@),
    ensures
        final(srcs)@ == replace_first_src(old(srcs)@, lattice@),
        r == any_replaceable(src_operands(old(srcs)@), lattice@),
{
    let ghost s0 = srcs@;
    let mut ops: Vec<Operand> = Vec::new();
    let mut k: usize = 0;
    while k < srcs.len()
        invariant
            srcs@ == s0,
            k <= s0.len(),
            ops@.len() == k,
            forall|m: int| 0 <= m < k ==> ops@[m] == (#[trigger] s0[m]).1,
        decreases s0.len() - k,
    {
        ops.push(srcs[k].1.clone());
        k = k + 1;
    }
    assert(ops@ =~= src_operands(s0));
    let changed = replace_first_operand(&mut ops, lattice);
    let mut new_srcs: Vec<(Label, Operand)> = Vec::new();
    let mut k: usize = 0;
    while k < ops.len()
        invariant
            srcs@ == s0,
            ops@.len() == s0.len(),
            k <= s0.len(),
            new_srcs@.len() == k,
            forall|m: int| 0 <= m < k ==> #[trigger] new_srcs@[m] == (s0[m].0, ops@[m]),
        decreases s0.len() - k,
    {
        new_srcs.push((srcs[k].0, ops[k].clone()));
        k = k + 1;
    }
    assert(new_srcs@ =~= replace_first_src(s0, lattice@));
    *srcs = new_srcs;
    changed
}



/// `b` is `a` with its operands replaced by known constants: both operands of a binary
/// operation, store or array allocation, and only the first replaceable argument of a
/// call or source of a phi.
pub open spec fn consts_replaced(a: Instr, b: Instr, l: Seq<(usize, LatticeValue)>) -> bool {
    match a {
        Instr::BinOp { op, dest, lhs, rhs } => b == Instr::BinOp {
            op,
            dest,
            lhs: after_replace(lhs, l),
            rhs: after_replace(rhs, l),
        },
        Instr::UnOp { op, dest, src } => b == Instr::UnOp { op, dest, src: after_replace(src, l) },
        Instr::Call { dest, name, args } => b matches Instr::Call { dest: d2, name: n2, args: a2 } && d2 == dest && n2
            == name && a2@ == replace_first(args@, l),
        Instr::TailCall { name, args } => b matches Instr::TailCall { name: n2, args: a2 } && n2 == name && a2@
            == replace_first(args@, l),
        Instr::Return(Some(op)) => b == Instr::Return(Some(after_replace(op, l))),
        Instr::Phi { dest, srcs } => b matches Instr::Phi { dest: d2, srcs: s2 } && d2 == dest && s2@
            == replace_first_src(srcs@, l),
        Instr::Move { dest, src } => b == Instr::Move { dest, src: after_replace(src, l) },
        Instr::Load { dest, addr } => b == Instr::Load { dest, addr: after_replace(addr, l) },
        Instr::Store { addr, src } => b == Instr::Store { addr: after_replace(addr, l), src: after_replace(src, l) },
        Instr::Alloc { dest, size } => b == Instr::Alloc { dest, size: after_replace(size, l) },
        Instr::AllocArray { dest, size, count } => b == Instr::AllocArray {
            dest,
            size: after_replace(size, l),
            count: after_replace(count, l),
        },
        _ => b == a,
    }
}

/// Whether replacement changes an instruction.
pub open spec fn consts_replaceable(a: Instr, l: Seq<(usize, LatticeValue)>) -> bool {
    match a {
        Instr::BinOp { lhs, rhs, .. } => const_replacement(lhs, l) is Some || const_replacement(rhs, l) is Some,
        Instr::UnOp { src, .. } => const_replacement(src, l) is Some,
        Instr::Call { args, .. } => any_replaceable(args@, l),
        Instr::TailCall { args, .. } => any_replaceable(args@, l),
        Instr::Return(Some(op)) => const_replacement(op, l) is Some,
        Instr::Phi { srcs, .. } => any_replaceable(src_operands(srcs@), l),
        Instr::Move { src, .. } => const_replacement(src, l) is Some,
        Instr::Load { addr, .. } => const_replacement(addr, l) is Some,
        Instr::Store { addr, src } => const_replacement(addr, l) is Some || const_replacement(src, l) is Some,
        Instr::Alloc { size, .. } => const_replacement(size, l) is Some,
        Instr::AllocArray { size, count, .. } => const_replacement(size, l) is Some || const_replacement(count, l) is Some,
        _ => false,
    }
}


/// An operand replaced by the constant recorded for it; whether it changed.
fn replaced_operand(op: Operand, lattice: &Lattice) -> (r: (Operand, bool))
    requires
        lattice_wf(lattice@),
    ensures
        r.0 == after_replace(op, lattice@),
        r.1 == const_replacement(op, lattice@) is Some,
{
    let mut o = op;
    let changed = replace_const_operand(&mut o, lattice);
    (o, changed)
}

/// An instruction with its operands replaced by known constants; whether it changed.
fn replaced_instr(instr: Instr, lattice: &Lattice) -> (r: (Instr, bool))
    requires
        lattice_wf(lattice@),
    ensures
        consts_replaced(instr, r.0, lattice@),
        r.1 == consts_replaceable(instr, lattice@),
{
    match instr {
        Instr::BinOp { op, dest, lhs, rhs } => {
            let (lhs, a) = replaced_operand(lhs, lattice);
            let (rhs, b) = replaced_operand(rhs, lattice);
            (Instr::BinOp { op, dest, lhs, rhs }, a || b)
        },
        Instr::UnOp { op, dest, src } => {
            let (src, a) = replaced_operand(src, lattice);
            (Instr::UnOp { op, dest, src }, a)
        },
        Instr::Call { dest, name, args } => {
            let mut args = args;
            let a = replace_first_operand(&mut args, lattice);
            (Instr::Call { dest, name, args }, a)
        },
        Instr::TailCall { name, args } => {
            let mut args = args;
            let a = replace_first_operand(&mut args, lattice);
            (Instr::TailCall { name, args }, a)
        },
        Instr::Return(Some(op)) => {
            let (op, a) = replaced_operand(op, lattice);
            (Instr::Return(Some(op)), a)
        },
        Instr::Phi { dest, srcs } => {
            let mut srcs = srcs;
            let a = replace_first_source(&mut srcs, lattice);
            (Instr::Phi { dest, srcs }, a)
        },
        Instr::Move { dest, src } => {
            let (src, a) = replaced_operand(src, lattice);
            (Instr::Move { dest, src }, a)
        },
        Instr::Load { dest, addr } => {
            let (addr, a) = replaced_operand(addr, lattice);
            (Instr::Load { dest, addr }, a)
        },
        Instr::Store { addr, src } => {
            let (addr, a) = replaced_operand(addr, lattice);
            let (src, b) = replaced_operand(src, lattice);
            (Instr::Store { addr, src }, a || b)
        },
        Instr::Alloc { dest, size } => {
            let (size, a) = replaced_operand(size, lattice);
            (Instr::Alloc { dest, size }, a)
        },
        Instr::AllocArray { dest, size, count } => {
            let (size, a) = replaced_operand(size, lattice);
            let (count, b) = replaced_operand(count, lattice);
            (Instr::AllocArray { dest, size, count }, a || b)
        },
        other => (other, false),
    }
}

/// Replace the operands of an instruction by the constants recorded for them (see
/// `consts_replaced`); whether it changed.
pub fn replace_instr_consts(instr: &mut Instr, lattice: &Lattice) -> (r: bool)
    requires
        lattice_wf(lattice@),
    ensures
        consts_replaced(*old(instr), *final(instr), lattice@),
        r == consts_replaceable(*old(instr), lattice@),
{
    let mut taken = Instr::Return(None);
    std::mem::swap(&mut taken, instr);
    let (new_instr, changed) = replaced_instr(taken, lattice);
    *instr = new_instr;
    changed
}

/// A terminator with the predicate of a conditional jump replaced by its constant.
pub open spec fn terminator_replaced(t: Instr, l: Seq<(usize, LatticeValue)>) -> Instr {
    match t {
        Instr::JumpIf { pred, holds, fails } => Instr::JumpIf { pred: after_replace(pred, l), holds, fails },
        _ => t,
    }
}

/// Whether the predicate of a conditional jump has a constant replacement.
pub open spec fn terminator_replaceable(t: Instr, l: Seq<(usize, LatticeValue)>) -> bool {
    match t {
        Instr::JumpIf { pred, .. } => const_replacement(pred, l) is Some,
        _ => false,
    }
}

/// Replace the predicate of a conditional jump by the constant recorded for it; whether
/// it changed.
pub fn replace_terminator_consts(terminator: &mut Instr, lattice: &Lattice) -> (r: bool)
    requires
        lattice_wf(lattice@),
    ensures
        *final(terminator) == terminator_replaced(*old(terminator), lattice@),
        r == terminator_replaceable(*old(terminator), lattice@),
{
    let mut taken = Instr::Return(None);
    std::mem::swap(&mut taken, terminator);
    let (new_terminator, changed) = match taken {
        Instr::JumpIf { pred, holds, fails } => {
            let (pred, a) = replaced_operand(pred, lattice);
            (Instr::JumpIf { pred, holds, fails }, a)
        },
        other => (other, false),
    };
    *terminator = new_terminator;
    changed
}

/// The instruction folded from a solved lattice: an instruction whose destination is a
/// known constant becomes a move of that constant, unless it already is one.
pub open spec fn folded(i: Instr, l: Seq<(usize, LatticeValue)>) -> Option<Instr> {
    match crate::cfg::dest_of(i) {
        Some(d) => match lattice_entry(l, d.0) {
            LatticeValue::Const(c) => if (i matches Instr::Move { src: Operand::Const(c2), .. } && c2.0 == c.0 && c2.1@
                == c.1@) {
                None
            } else {
                Some(Instr::Move { dest: d, src: Operand::Const(c) })
            },
            _ => None,
        },
        None => None,
    }
}

/// Fold an instruction whose destination the lattice knows to be constant (see
/// `folded`); whether it changed.
pub fn fold_instr_from_lattice(instr: &mut Instr, lattice: &Lattice) -> (r: bool)
    requires
        lattice_wf(lattice@),
    ensures
        match folded(*old(instr), lattice@) {
            Some(f) => *final(instr) == f && r,
            None => *final(instr) == *old(instr) && !r,
        },
{
    let dest = match crate::cfg::get_dest_temp_from_instruction(instr) {
        Some(d) => d,
        None => return false,
    };
    let probe = Operand::Temp((dest.0, Typ::Void));
    let constant = match get_lattice_value_of_operand(&probe, lattice) {
        LatticeValue::Const(c) => c,
        _ => return false,
    };
    let already = match instr {
        Instr::Move { src: Operand::Const(c2), .. } => c2.0 == constant.0 && c2.1.same(&constant.1),
        _ => false,
    };
    if already {
        return false;
    }
    *instr = Instr::Move { dest, src: Operand::Const(constant) };
    true
}


/// Some instruction of block `b`, its terminator included, reads temporary `id`.
pub open spec fn block_reads(b: BasicBlock, id: usize) -> bool {
    exists|k: int| 0 <= k < run_of(b).len() && #[trigger] read_ids(run_of(b)[k]).contains(id)
}

/// Some instruction of the body of block `b` defines temporary `id`.
pub open spec fn block_defines(b: BasicBlock, id: usize) -> bool {
    exists|k: int| 0 <= k < b.body@.len() && #[trigger] defined_id(b.body@[k]) == Some(id)
}

/// Some block reads temporary `id`.
pub open spec fn read_in(slots: Seq<Option<BasicBlock>>, id: usize) -> bool {
    exists|j: int| 0 <= j < slots.len() && #[trigger] slots[j] is Some && block_reads(slots[j]->0, id)
}

/// Some block defines temporary `id`.
pub open spec fn defined_in(slots: Seq<Option<BasicBlock>>, id: usize) -> bool {
    exists|j: int| 0 <= j < slots.len() && #[trigger] slots[j] is Some && block_defines(slots[j]->0, id)
}

/// Append the ids an instruction reads.
fn push_reads(ids: &mut Vec<usize>, instr: &Instr)
    ensures
        forall|id: usize| #[trigger] final(ids)@.contains(id) == (old(ids)@.contains(id) || read_ids(*instr).contains(id)),
{
    let uses = get_uses(instr);
    let ghost i0 = ids@;
    let mut m: usize = 0;
    while m < uses.len()
        invariant
            m <= uses@.len(),
            uses@ == read_ids(*instr),
            ids@ == i0 + uses@.take(m as int),
        decreases uses@.len() - m,
    {
        ids.push(uses[m]);
        proof {
            assert(uses@.take(m + 1) =~= uses@.take(m as int).push(uses@[m as int]));
            assert(ids@ =~= i0 + uses@.take(m + 1));
        }
        m = m + 1;
    }
    proof {
        assert(uses@.take(uses@.len() as int) =~= uses@);
        assert forall|id: usize| #[trigger] ids@.contains(id) == (i0.contains(id) || read_ids(*instr).contains(id)) by {
            if ids@.contains(id) {
                let k = choose|k: int| 0 <= k < ids@.len() && #[trigger] ids@[k] == id;
                if k >= i0.len() {
                    assert(uses@[k - i0.len()] == id);
                }
            }
            if i0.contains(id) {
                let k = choose|k: int| 0 <= k < i0.len() && #[trigger] i0[k] == id;
                assert(ids@[k] == id);
            }
            if uses@.contains(id) {
                let k = choose|k: int| 0 <= k < uses@.len() && #[trigger] uses@[k] == id;
                assert(ids@[i0.len() + k] == id);
            }
        }
    }
}

/// The ids of the temporaries the function reads, and of those its blocks define.
fn reads_and_defines(ctx: &IRContext) -> (r: (Vec<usize>, Vec<usize>))
    ensures
        forall|id: usize| #[trigger] r.0@.contains(id) == read_in(ctx.slots(), id),
        forall|id: usize| #[trigger] r.1@.contains(id) == defined_in(ctx.slots(), id),
{
    let blocks = ctx.get_blocks();
    let mut reads: Vec<usize> = Vec::new();
    let mut defs: Vec<usize> = Vec::new();
    let mut j: usize = 0;
    while j < blocks.len()
        invariant
            blocks@ == ctx.slots(),
            j <= blocks@.len(),
            forall|id: usize| #[trigger] reads@.contains(id) == exists|i: int|
                0 <= i < j && #[trigger] blocks@[i] is Some && block_reads(blocks@[i]->0, id),
            forall|id: usize| #[trigger] defs@.contains(id) == exists|i: int|
                0 <= i < j && #[trigger] blocks@[i] is Some && block_defines(blocks@[i]->0, id),
        decreases blocks@.len() - j,
    {
        let ghost r_j = reads@;
        let ghost d_j = defs@;
        match &blocks[j] {
            Some(block) => {
                let mut k: usize = 0;
                while k < block.body.len()
                    invariant
                        k <= block.body@.len(),
                        forall|id: usize| #[trigger] reads@.contains(id) == (r_j.contains(id) || exists|i: int|
                            0 <= i < k && #[trigger] read_ids(block.body@[i]).contains(id)),
                        forall|id: usize| #[trigger] defs@.contains(id) == (d_j.contains(id) || exists|i: int|
                            0 <= i < k && #[trigger] defined_id(block.body@[i]) == Some(id)),
                    decreases block.body@.len() - k,
                {
                    let ghost rb = reads@;
                    let ghost db = defs@;
                    push_reads(&mut reads, &block.body[k]);
                    match get_dest_temp_from_instruction(&block.body[k]) {
                        Some(d) => {
                            defs.push(d.0);
                        },
                        None => {},
                    }
                    assert forall|id: usize| #[trigger] reads@.contains(id) == (r_j.contains(id) || exists|i: int|
                        0 <= i < k + 1 && #[trigger] read_ids(block.body@[i]).contains(id)) by {
                        if read_ids(block.body@[k as int]).contains(id) {
                            assert(0 <= k < k + 1);
                        }
                        if exists|i: int| 0 <= i < k + 1 && #[trigger] read_ids(block.body@[i]).contains(id) {
                            let i = choose|i: int| 0 <= i < k + 1 && #[trigger] read_ids(block.body@[i]).contains(id);
                            if i < k {
                                assert(rb.contains(id));
                            }
                        }
                    }
                    assert forall|id: usize| #[trigger] defs@.contains(id) == (d_j.contains(id) || exists|i: int|
                        0 <= i < k + 1 && #[trigger] defined_id(block.body@[i]) == Some(id)) by {
                        if defined_id(block.body@[k as int]) == Some(id) {
                            assert(defs@[defs@.len() - 1] == id);
                        }
                        if defs@.contains(id) {
                            let q = choose|q: int| 0 <= q < defs@.len() && #[trigger] defs@[q] == id;
                            if q < db.len() {
                                assert(db[q] == id);
                            }
                        }
                        if db.contains(id) {
                            let q = choose|q: int| 0 <= q < db.len() && #[trigger] db[q] == id;
                            assert(defs@[q] == id);
                        }
                        if exists|i: int| 0 <= i < k + 1 && #[trigger] defined_id(block.body@[i]) == Some(id) {
                            let i = choose|i: int| 0 <= i < k + 1 && #[trigger] defined_id(block.body@[i]) == Some(id);
                            if i < k {
                                assert(db.contains(id));
                            }
                        }
                    }
                    k = k + 1;
                }
                let ghost rb = reads@;
                match &block.terminator {
                    Some(t) => push_reads(&mut reads, t),
                    None => {},
                }
                proof {
                    let b = blocks@[j as int]->0;
                    assert(*block == b);
                    assert forall|id: usize| #[trigger] reads@.contains(id) == (r_j.contains(id) || block_reads(b, id)) by {
                        if block_reads(b, id) {
                            let q = choose|q: int| 0 <= q < run_of(b).len() && #[trigger] read_ids(run_of(b)[q]).contains(id);
                            if q < b.body@.len() {
                                assert(run_of(b)[q] == b.body@[q]);
                            } else {
                                assert(run_of(b)[q] == b.terminator->0);
                            }
                        }
                        if exists|i: int| 0 <= i < b.body@.len() && #[trigger] read_ids(b.body@[i]).contains(id) {
                            let i = choose|i: int| 0 <= i < b.body@.len() && #[trigger] read_ids(b.body@[i]).contains(id);
                            assert(run_of(b)[i] == b.body@[i]);
                        }
                        if b.terminator is Some && read_ids(b.terminator->0).contains(id) {
                            assert(run_of(b)[b.body@.len() as int] == b.terminator->0);
                        }
                    }
                    assert forall|id: usize| #[trigger] defs@.contains(id) == (d_j.contains(id) || block_defines(b, id)) by {
                    }
                    assert forall|id: usize| #[trigger] reads@.contains(id) == exists|i: int|
                        0 <= i < j + 1 && #[trigger] blocks@[i] is Some && block_reads(blocks@[i]->0, id) by {
                        if block_reads(b, id) {
                            assert(blocks@[j as int] is Some);
                        }
                        if exists|i: int| 0 <= i < j + 1 && #[trigger] blocks@[i] is Some && block_reads(blocks@[i]->0, id) {
                            let i = choose|i: int| 0 <= i < j + 1 && #[trigger] blocks@[i] is Some && block_reads(blocks@[i]->0, id);
                            if i < j {
                                assert(r_j.contains(id));
                            }
                        }
                    }
                    assert forall|id: usize| #[trigger] defs@.contains(id) == exists|i: int|
                        0 <= i < j + 1 && #[trigger] blocks@[i] is Some && block_defines(blocks@[i]->0, id) by {
                        if block_defines(b, id) {
                            assert(blocks@[j as int] is Some);
                        }
                        if exists|i: int| 0 <= i < j + 1 && #[trigger] blocks@[i] is Some && block_defines(blocks@[i]->0, id) {
                            let i = choose|i: int| 0 <= i < j + 1 && #[trigger] blocks@[i] is Some && block_defines(blocks@[i]->0, id);
                            if i < j {
                                assert(d_j.contains(id));
                            }
                        }
                    }
                }
            },
            None => {
                proof {
                    assert forall|id: usize| #[trigger] reads@.contains(id) == exists|i: int|
                        0 <= i < j + 1 && #[trigger] blocks@[i] is Some && block_reads(blocks@[i]->0, id) by {
                        if exists|i: int| 0 <= i < j + 1 && #[trigger] blocks@[i] is Some && block_reads(blocks@[i]->0, id) {
                            let i = choose|i: int| 0 <= i < j + 1 && #[trigger] blocks@[i] is Some && block_reads(blocks@[i]->0, id);
                            assert(i < j);
                        }
                    }
                    assert forall|id: usize| #[trigger] defs@.contains(id) == exists|i: int|
                        0 <= i < j + 1 && #[trigger] blocks@[i] is Some && block_defines(blocks@[i]->0, id) by {
                        if exists|i: int| 0 <= i < j + 1 && #[trigger] blocks@[i] is Some && block_defines(blocks@[i]->0, id) {
                            let i = choose|i: int| 0 <= i < j + 1 && #[trigger] blocks@[i] is Some && block_defines(blocks@[i]->0, id);
                            assert(i < j);
                        }
                    }
                }
            },
        }
        j = j + 1;
    }
    (reads, defs)
}

/// Seed temporaries without in-function definitions (i.e., function parameters/live-ins):
/// each temporary that some block reads and no block body defines becomes overdefined.
pub fn overdefine_live_in_temps(lattice: &mut Lattice, ctx: &IRContext)
    requires
        lattice_wf(old(lattice)@),
    ensures
        lattice_wf(final(lattice)@),
        forall|id: usize| #[trigger] lattice_get(final(lattice)@, id) == if read_in(ctx.slots(), id) && !defined_in(ctx.slots(), id) {
            LatticeV::Overdefined
        } else {
            lattice_get(old(lattice)@, id)
        },
{
    let (reads, defs) = reads_and_defines(ctx);
    let ghost l0 = lattice@;
    let mut i: usize = 0;
    while i < reads.len()
        invariant
            lattice_wf(lattice@),
            i <= reads@.len(),
            forall|id: usize| #[trigger] reads@.contains(id) == read_in(ctx.slots(), id),
            forall|id: usize| #[trigger] defs@.contains(id) == defined_in(ctx.slots(), id),
            forall|id: usize| #[trigger] lattice_get(lattice@, id) == if reads@.take(i as int).contains(id) && !defs@.contains(id) {
                LatticeV::Overdefined
            } else {
                lattice_get(l0, id)
            },
        decreases reads@.len() - i,
    {
        let id = reads[i];
        let ghost lb = lattice@;
        let mut defined = false;
        let mut q: usize = 0;
        while q < defs.len()
            invariant
                q <= defs@.len(),
                defined == exists|p: int| 0 <= p < q && #[trigger] defs@[p] == id,
            decreases defs@.len() - q,
        {
            if defs[q] == id {
                defined = true;
            }
            q = q + 1;
        }
        if !defined {
            update_lattice(lattice, id, LatticeValue::Overdefined);
        }
        proof {
            assert(reads@.take(i + 1) =~= reads@.take(i as int).push(id));
            assert forall|x: usize| #[trigger] lattice_get(lattice@, x) == if reads@.take(i + 1).contains(x) && !defs@.contains(x) {
                LatticeV::Overdefined
            } else {
                lattice_get(l0, x)
            } by {
                if reads@.take(i + 1).contains(x) {
                    let k = choose|k: int| 0 <= k < reads@.take(i + 1).len() && #[trigger] reads@.take(i + 1)[k] == x;
                    if k < i {
                        assert(reads@.take(i as int)[k] == x);
                    }
                }
                if reads@.take(i as int).contains(x) {
                    let k = choose|k: int| 0 <= k < reads@.take(i as int).len() && #[trigger] reads@.take(i as int)[k] == x;
                    assert(reads@.take(i + 1)[k] == x);
                }
                if x == id {
                    assert(reads@.take(i + 1)[i as int] == x);
                    if defs@.contains(x) {
                        let p = choose|p: int| 0 <= p < defs@.len() && #[trigger] defs@[p] == x;
                        assert(defined);
                    }
                }
            }
        }
        i = i + 1;
    }
    proof {
        assert(reads@.take(reads@.len() as int) =~= reads@);
    }
}


/// Instruction `i` gives its destination nothing new: its value is already below what
/// the lattice holds for the destination.
pub open spec fn instr_stable(i: Instr, l: Seq<(usize, LatticeValue)>, state: Seq<Label>, is_unsafe: bool) -> bool {
    match dest_of(i) {
        Some(d) => below(instr_value(i, l, state, is_unsafe), lattice_get(l, d.0)),
        None => true,
    }
}

/// Block `b` gives nothing new: no instruction of its body does, and the blocks its
/// terminator makes reachable already are.
pub open spec fn block_stable(b: BasicBlock, l: Seq<(usize, LatticeValue)>, state: Seq<Label>, is_unsafe: bool) -> bool {
    &&& forall|k: int| 0 <= k < b.body@.len() ==> instr_stable(#[trigger] b.body@[k], l, state, is_unsafe)
    &&& (b.terminator matches Some(t) ==> forall|x: Label| #[trigger] term_targets(t, l).contains(x) ==> state.contains(x))
}

/// The lattice and the reachable blocks are a fixpoint of propagation: every reachable
/// block is stable.
pub open spec fn sccp_fixpoint(slots: Seq<Option<BasicBlock>>, l: Seq<(usize, LatticeValue)>, state: Seq<Label>, is_unsafe: bool) -> bool {
    forall|j: int| 0 <= j < slots.len() && #[trigger] slots[j] is Some && state.contains(Label(j as usize))
        ==> block_stable(slots[j]->0, l, state, is_unsafe)
}

/// A copy of a list of labels.
fn copy_labels(v: &Vec<Label>) -> (r: Vec<Label>)
    ensures
        r@ == v@,
{
    let mut out: Vec<Label> = Vec::new();
    let mut i: usize = 0;
    while i < v.len()
        invariant
            i <= v@.len(),
            out@ == v@.take(i as int),
        decreases v@.len() - i,
    {
        out.push(v[i]);
        proof {
            assert(v@.take(i + 1) =~= v@.take(i as int).push(v@[i as int]));
        }
        i = i + 1;
    }
    proof {
        assert(v@.take(v@.len() as int) =~= v@);
    }
    out
}

/// One round of propagation over the blocks reachable at its start: each instruction
/// joins its value into its destination's state, and each terminator marks the blocks
/// it makes reachable. States only move up and reachable blocks stay reachable; a round
/// that changes nothing leaves both as they were, at a fixpoint.
pub fn sccp_round(ctx: &IRContext, lattice: &mut Lattice, state: &mut Vec<Label>, is_unsafe: bool) -> (changed: bool)
    requires
        ctx.wf(),
        lattice_wf(old(lattice)@),
        old(state)@.no_duplicates(),
    ensures
        lattice_wf(final(lattice)@),
        final(state)@.no_duplicates(),
        forall|id: usize| #[trigger] below(lattice_get(old(lattice)@, id), lattice_get(final(lattice)@, id)),
        forall|x: Label| #[trigger] old(state)@.contains(x) ==> final(state)@.contains(x),
        !changed ==> final(lattice)@ == old(lattice)@ && final(state)@ == old(state)@,
        !changed ==> sccp_fixpoint(ctx.slots(), final(lattice)@, final(state)@, is_unsafe),
        changed ==> (exists|id: usize| #[trigger] lattice_get(final(lattice)@, id) != lattice_get(old(lattice)@, id))
            || (exists|x: Label| #[trigger] final(state)@.contains(x) && !old(state)@.contains(x)),
{
    proof { lemma_wf_slots(*ctx); }
    let ghost l0 = lattice@;
    let ghost s0 = state@;
    let snapshot = copy_labels(state);
    let mut changed = false;
    let mut i: usize = 0;
    while i < snapshot.len()
        invariant
            ctx.wf(),
            snapshot@ == s0,
            i <= s0.len(),
            lattice_wf(lattice@),
            state@.no_duplicates(),
            forall|id: usize| #[trigger] below(lattice_get(l0, id), lattice_get(lattice@, id)),
            forall|x: Label| #[trigger] s0.contains(x) ==> state@.contains(x),
            !changed ==> lattice@ == l0 && state@ == s0,
            !changed ==> forall|j: int| 0 <= j < ctx.slots().len() && #[trigger] ctx.slots()[j] is Some && s0.take(i as int).contains(
                Label(j as usize),
            ) ==> block_stable(ctx.slots()[j]->0, l0, s0, is_unsafe),
            changed ==> (exists|id: usize| #[trigger] lattice_get(lattice@, id) != lattice_get(l0, id))
                || (exists|x: Label| #[trigger] state@.contains(x) && !s0.contains(x)),
        decreases s0.len() - i,
    {
        let label = snapshot[i];
        proof {
            assert(s0.take(i + 1) =~= s0.take(i as int).push(label));
            lemma_wf_slots(*ctx);
        }
        match ctx.get_block(label) {
            Some(block) => {
                let ghost c_before = changed;
                let mut k: usize = 0;
                while k < block.body.len()
                    invariant
                        lattice_wf(lattice@),
                        state@.no_duplicates(),
                        k <= block.body@.len(),
                        forall|id: usize| #[trigger] below(lattice_get(l0, id), lattice_get(lattice@, id)),
                        forall|x: Label| #[trigger] s0.contains(x) ==> state@.contains(x),
                        !changed ==> lattice@ == l0 && state@ == s0,
                        !changed ==> c_before == false,
                        !changed ==> forall|q: int| 0 <= q < k ==> instr_stable(#[trigger] block.body@[q], l0, s0, is_unsafe),
                        changed ==> (exists|id: usize| #[trigger] lattice_get(lattice@, id) != lattice_get(l0, id))
                            || (exists|x: Label| #[trigger] state@.contains(x) && !s0.contains(x)),
                    decreases block.body@.len() - k,
                {
                    match get_dest_temp_from_instruction(&block.body[k]) {
                        Some(d) => {
                            let v = propagate_on_instr(&block.body[k], lattice, state, is_unsafe);
                            let ghost lb = lattice@;
                            let upd = update_lattice(lattice, d.0, v);
                            proof {
                                assert forall|id: usize| #[trigger] below(lattice_get(l0, id), lattice_get(lattice@, id)) by {
                                    assert(below(lattice_get(l0, id), lattice_get(lb, id)));
                                    if id == d.0 {
                                        lemma_join_associative(lattice_get(l0, id), lattice_get(lb, id), v@);
                                    } else {
                                        assert(lattice_get(lattice@, id) == lattice_get(lb, id));
                                    }
                                }
                                if upd {
                                    if !changed {
                                        assert(lattice_get(lattice@, d.0) != lattice_get(l0, d.0));
                                    } else {
                                        if exists|id: usize| #[trigger] lattice_get(lb, id) != lattice_get(l0, id) {
                                            let id = choose|id: usize| #[trigger] lattice_get(lb, id) != lattice_get(l0, id);
                                            if lattice_get(lattice@, id) == lattice_get(l0, id) {
                                                assert(below(lattice_get(lb, id), lattice_get(lattice@, id)));
                                                assert(below(lattice_get(l0, id), lattice_get(lb, id)));
                                            }
                                        }
                                    }
                                } else if changed {
                                    if exists|id: usize| #[trigger] lattice_get(lb, id) != lattice_get(l0, id) {
                                        let id = choose|id: usize| #[trigger] lattice_get(lb, id) != lattice_get(l0, id);
                                        assert(lattice_get(lattice@, id) != lattice_get(l0, id));
                                    }
                                }
                            }
                            if upd {
                                changed = true;
                            }
                        },
                        None => {},
                    }
                    k = k + 1;
                }
                match &block.terminator {
                    Some(t) => {
                        let ghost sb = state@;
                        let ghost lb = lattice@;
                        let added = propagate_on_terminator(t, lattice, state);
                        proof {
                            if added {
                                let x = choose|x: Label| #[trigger] term_targets(*t, lattice@).contains(x) && !sb.contains(x);
                                assert(state@.contains(x));
                                if !changed {
                                    assert(!s0.contains(x));
                                } else if exists|x: Label| #[trigger] sb.contains(x) && !s0.contains(x) {
                                    let y = choose|y: Label| #[trigger] sb.contains(y) && !s0.contains(y);
                                    assert(state@.contains(y));
                                }
                            }
                        }
                        if added {
                            changed = true;
                        }
                    },
                    None => {},
                }
                proof {
                    if !changed {
                        let j = label.0 as int;
                        assert(ctx.slots()[j]->0 == *block);
                    }
                }
            },
            None => {},
        }
        i = i + 1;
    }
    proof {
        assert(s0.take(s0.len() as int) =~= s0);
    }
    changed
}


/// `x1` is `x` with the phi sources from blocks not in `live` dropped.
pub open spec fn phi_pruned(x: Instr, x1: Instr, live: Seq<Label>) -> bool {
    match x {
        Instr::Phi { dest, srcs } => x1 matches Instr::Phi { dest: d1, srcs: s1 } && d1 == dest && s1@ == kept_srcs(srcs@, live),
        _ => x1 == x,
    }
}

/// An instruction with a destination the lattice knows to be constant made a move of it.
pub open spec fn after_fold(x2: Instr, l: Seq<(usize, LatticeValue)>) -> Instr {
    match folded(x2, l) {
        Some(f) => f,
        None => x2,
    }
}

/// `y` is `x` rewritten from a solved lattice: its phi sources from removed blocks
/// dropped (`x1`), known temporaries replaced by their constants (`x2`), a known result
/// folded into a move, and a phi left with one source made a move.
pub open spec fn lattice_rewritten(x: Instr, x1: Instr, x2: Instr, y: Instr, l: Seq<(usize, LatticeValue)>, live: Seq<Label>) -> bool {
    &&& phi_pruned(x, x1, live)
    &&& consts_replaced(x1, x2, l)
    &&& y == match trivial_phi_move(after_fold(x2, l)) {
        Some(m) => m,
        None => after_fold(x2, l),
    }
}

/// The rewrite of `x1` into `x2` and beyond changes something (dropping phi sources
/// is not counted).
pub open spec fn rewrite_changes(x1: Instr, x2: Instr, l: Seq<(usize, LatticeValue)>) -> bool {
    consts_replaceable(x1, l) || folded(x2, l) is Some || trivial_phi_move(after_fold(x2, l)) is Some
}

/// A terminator rewritten from a solved lattice: known temporaries replaced, then a
/// branch with a known or single target made a jump.
pub open spec fn terminator_rewritten(t: Instr, l: Seq<(usize, LatticeValue)>) -> Instr {
    match known_jump(terminator_replaced(t, l)) {
        Some(j) => j,
        None => terminator_replaced(t, l),
    }
}

/// The rewrite of terminator `t` changes it.
pub open spec fn terminator_changes(t: Instr, l: Seq<(usize, LatticeValue)>) -> bool {
    terminator_replaceable(t, l) || known_jump(terminator_replaced(t, l)) is Some
}

/// `b` is block `a` rewritten from a solved lattice, the blocks in `live` kept.
pub open spec fn block_rewritten(a: BasicBlock, b: BasicBlock, l: Seq<(usize, LatticeValue)>, live: Seq<Label>) -> bool {
    &&& b == (BasicBlock { body: b.body, terminator: b.terminator, ..a })
    &&& b.body@.len() == a.body@.len()
    &&& forall|k: int| 0 <= k < a.body@.len() ==> #[trigger] instr_rewritten(a.body@[k], b.body@[k], l, live)
    &&& b.terminator == match a.terminator {
        Some(t) => Some(terminator_rewritten(t, l)),
        None => None,
    }
}

/// `y` is instruction `x` rewritten from a solved lattice (see `lattice_rewritten`).
pub open spec fn instr_rewritten(x: Instr, y: Instr, l: Seq<(usize, LatticeValue)>, live: Seq<Label>) -> bool {
    exists|x1: Instr, x2: Instr| #[trigger] lattice_rewritten(x, x1, x2, y, l, live)
}

/// Rewriting block `a` changes some instruction or its terminator.
pub open spec fn block_rewrite_changes(a: BasicBlock, b: BasicBlock, l: Seq<(usize, LatticeValue)>, live: Seq<Label>) -> bool {
    ||| exists|k: int, x1: Instr, x2: Instr| 0 <= k < a.body@.len() && #[trigger] lattice_rewritten(a.body@[k], x1, x2, b.body@[k], l, live)
        && rewrite_changes(x1, x2, l)
    ||| (a.terminator matches Some(t) && terminator_changes(t, l))
}

/// `y` is instruction `x` rewritten from a solved lattice, and the rewrite changes
/// nothing (see `rewrite_changes`).
pub open spec fn instr_rewritten_unchanged(x: Instr, y: Instr, l: Seq<(usize, LatticeValue)>, live: Seq<Label>) -> bool {
    exists|x1: Instr, x2: Instr| #[trigger] lattice_rewritten(x, x1, x2, y, l, live) && !rewrite_changes(x1, x2, l)
}

/// Rewriting block `a` changes nothing: no instruction, and not its terminator.
pub open spec fn block_rewrite_unchanged(a: BasicBlock, b: BasicBlock, l: Seq<(usize, LatticeValue)>, live: Seq<Label>) -> bool {
    &&& forall|k: int| 0 <= k < a.body@.len() ==> #[trigger] instr_rewritten_unchanged(a.body@[k], b.body@[k], l, live)
    &&& !(a.terminator matches Some(t) && terminator_changes(t, l))
}

/// The labels of the blocks kept: those that exist and were found reachable.
pub open spec fn live_labels(slots: Seq<Option<BasicBlock>>, state: Seq<Label>) -> Seq<Label>
    decreases slots.len(),
{
    if slots.len() == 0 {
        Seq::<Label>::empty()
    } else {
        let prev = live_labels(slots.drop_last(), state);
        let l = Label((slots.len() - 1) as usize);
        if slots.last() is Some && state.contains(l) {
            prev.push(l)
        } else {
            prev
        }
    }
}

/// Rewrite one instruction from a solved lattice; whether it changed, with the
/// intermediate forms of the rewrite.
fn rewrite_from_lattice(x: Instr, lattice: &Lattice, live: &Vec<Label>) -> (r: (Instr, bool, Ghost<Instr>, Ghost<Instr>))
    requires
        lattice_wf(lattice@),
    ensures
        lattice_rewritten(x, r.2@, r.3@, r.0, lattice@, live@),
        r.1 == rewrite_changes(r.2@, r.3@, lattice@),
{
    let mut y = match x {
        Instr::Phi { dest, srcs } => {
            let kept = keep_sources(&srcs, live);
            Instr::Phi { dest, srcs: kept }
        },
        other => other,
    };
    let ghost x1 = y;
    let c1 = replace_instr_consts(&mut y, lattice);
    let ghost x2 = y;
    let c2 = fold_instr_from_lattice(&mut y, lattice);
    let c3 = simplify_trivial_phi(&mut y);
    (y, c1 || c2 || c3, Ghost(x1), Ghost(x2))
}

/// Rewrite the function from a solved lattice and set of reachable blocks: blocks not
/// found reachable are removed, and in the others each instruction and terminator is
/// rewritten (see `lattice_rewritten` and `terminator_rewritten`). Returns whether a
/// block was removed or an instruction or terminator changed.
pub fn sccp_rewrite(ctx: &mut IRContext, lattice: &Lattice, state: &Vec<Label>) -> (changed: bool)
    requires
        old(ctx).wf(),
        lattice_wf(lattice@),
    ensures
        final(ctx).wf(),
        final(ctx).labels() == old(ctx).labels(),
        final(ctx).temps() == old(ctx).temps(),
        final(ctx).slots().len() == old(ctx).slots().len(),
        forall|j: int| 0 <= j < old(ctx).slots().len() ==> (#[trigger] final(ctx).slots()[j] is Some) == (old(ctx).slots()[j] is Some
            && state@.contains(Label(j as usize))),
        forall|j: int| 0 <= j < old(ctx).slots().len() && #[trigger] final(ctx).slots()[j] is Some ==> block_rewritten(
            old(ctx).slots()[j]->0,
            final(ctx).slots()[j]->0,
            lattice@,
            live_labels(old(ctx).slots(), state@),
        ),
        changed ==> exists|j: int| 0 <= j < old(ctx).slots().len() && #[trigger] old(ctx).slots()[j] is Some && (
            !state@.contains(Label(j as usize)) || block_rewrite_changes(
                old(ctx).slots()[j]->0,
                final(ctx).slots()[j]->0,
                lattice@,
                live_labels(old(ctx).slots(), state@),
            )),
        !changed ==> forall|j: int| 0 <= j < old(ctx).slots().len() && #[trigger] old(ctx).slots()[j] is Some ==> state@.contains(
            Label(j as usize),
        ) && block_rewrite_unchanged(
            old(ctx).slots()[j]->0,
            final(ctx).slots()[j]->0,
            lattice@,
            live_labels(old(ctx).slots(), state@),
        ),
{
    proof { lemma_wf_slots(*ctx); }
    let ghost s0 = ctx.slots();
    let n = ctx.get_blocks().len();
    let mut live: Vec<Label> = Vec::new();
    let mut j: usize = 0;
    proof {
        assert(s0.take(0) =~= Seq::<Option<BasicBlock>>::empty());
    }
    while j < n
        invariant
            n == s0.len(),
            ctx.slots() == s0,
            ctx.wf(),
            j <= n,
            live@ == live_labels(s0.take(j as int), state@),
        decreases n - j,
    {
        proof {
            assert(s0.take(j + 1).drop_last() =~= s0.take(j as int));
            assert(s0.take(j + 1).last() == s0[j as int]);
        }
        let l = Label(j);
        if ctx.get_block(l).is_some() && label_in(state, l) {
            live.push(l);
        }
        j = j + 1;
    }
    proof {
        assert(s0.take(n as int) =~= s0);
    }
    let ghost lv = live@;
    let mut changed = false;
    let mut j: usize = 0;
    while j < n
        invariant
            n == s0.len(),
            s0 == old(ctx).slots(),
            lv == live@,
            lv == live_labels(s0, state@),
            ctx.wf(),
            lattice_wf(lattice@),
            ctx.labels() == old(ctx).labels(),
            ctx.temps() == old(ctx).temps(),
            ctx.slots().len() == n,
            j <= n,
            forall|i: int| j <= i < n ==> #[trigger] ctx.slots()[i] == s0[i],
            forall|i: int| 0 <= i < j ==> (#[trigger] ctx.slots()[i] is Some) == (s0[i] is Some && state@.contains(
                Label(i as usize),
            )),
            forall|i: int| 0 <= i < j && #[trigger] ctx.slots()[i] is Some ==> block_rewritten(s0[i]->0, ctx.slots()[i]->0, lattice@, lv),
            changed ==> exists|i: int| 0 <= i < j && #[trigger] s0[i] is Some && (!state@.contains(Label(i as usize))
                || block_rewrite_changes(s0[i]->0, ctx.slots()[i]->0, lattice@, lv)),
            !changed ==> forall|i: int| 0 <= i < j && #[trigger] s0[i] is Some ==> state@.contains(Label(i as usize))
                && block_rewrite_unchanged(s0[i]->0, ctx.slots()[i]->0, lattice@, lv),
        decreases n - j,
    {
        let l = Label(j);
        let ghost before = ctx.slots();
        proof { lemma_wf_slots(*ctx); }
        if ctx.get_block(l).is_some() {
            if !label_in(state, l) {
                ctx.take_block(l);
                proof {
                    assert(s0[j as int] is Some);
                }
                changed = true;
            } else {
                let ghost a = s0[j as int]->0;
                let mut body = ctx.replace_block_body(l, Vec::new());
                let ghost b0 = body@;
                let mut new_body: Vec<Instr> = Vec::new();
                let ghost mut w1: Seq<Instr> = Seq::empty();
                let ghost mut w2: Seq<Instr> = Seq::empty();
                let mut bchanged = false;
                let mut k: usize = 0;
                while k < body.len()
                    invariant
                        b0 == a.body@,
                        lattice_wf(lattice@),
                        lv == live@,
                        body@.len() == b0.len(),
                        k <= b0.len(),
                        forall|q: int| k <= q < b0.len() ==> body@[q] == b0[q],
                        new_body@.len() == k,
                        w1.len() == k,
                        w2.len() == k,
                        forall|q: int| 0 <= q < k ==> #[trigger] lattice_rewritten(b0[q], w1[q], w2[q], new_body@[q], lattice@, lv),
                        bchanged == exists|q: int| 0 <= q < k && #[trigger] rewrite_changes(w1[q], w2[q], lattice@),
                    decreases b0.len() - k,
                {
                    let mut x = Instr::Return(None);
                    std::mem::swap(&mut x, &mut body[k]);
                    assert(x == b0[k as int]);
                    let (y, c, g1, g2) = rewrite_from_lattice(x, lattice, &live);
                    let ghost nb = new_body@;
                    let ghost v1 = w1;
                    let ghost v2 = w2;
                    new_body.push(y);
                    proof {
                        w1 = w1.push(g1@);
                        w2 = w2.push(g2@);
                        assert forall|q: int| 0 <= q < k + 1 implies #[trigger] lattice_rewritten(b0[q], w1[q], w2[q], new_body@[q], lattice@, lv) by {
                            if q < k {
                                assert(new_body@[q] == nb[q] && w1[q] == v1[q] && w2[q] == v2[q]);
                            }
                        }
                        if c {
                            assert(rewrite_changes(w1[k as int], w2[k as int], lattice@));
                        }
                        if exists|q: int| 0 <= q < k + 1 && #[trigger] rewrite_changes(w1[q], w2[q], lattice@) {
                            let q = choose|q: int| 0 <= q < k + 1 && #[trigger] rewrite_changes(w1[q], w2[q], lattice@);
                            if q < k {
                                assert(w1[q] == v1[q] && w2[q] == v2[q]);
                                assert(rewrite_changes(v1[q], v2[q], lattice@));
                            }
                        }
                        if bchanged {
                            let q = choose|q: int| 0 <= q < k && #[trigger] rewrite_changes(v1[q], v2[q], lattice@);
                            assert(w1[q] == v1[q] && w2[q] == v2[q]);
                        }
                    }
                    if c {
                        bchanged = true;
                    }
                    k = k + 1;
                }
                proof {
                    assert(ctx.slots()[j as int]->0 == (BasicBlock { body: ctx.slots()[j as int]->0.body, ..a }));
                }
                ctx.replace_block_body(l, new_body);
                let ghost mid = ctx.slots()[j as int]->0;
                proof {
                    assert(mid == (BasicBlock { body: mid.body, ..a }));
                    assert(mid.body@ == new_body@);
                }
                let t = ctx.replace_block_terminator(l, None);
                assert(t == a.terminator);
                let mut tchanged = false;
                match t {
                    Some(t) => {
                        let ghost t0 = t;
                        let mut t = t;
                        let c1 = replace_terminator_consts(&mut t, lattice);
                        let c2 = simplify_terminator(&mut t);
                        assert(t == terminator_rewritten(t0, lattice@));
                        ctx.replace_block_terminator(l, Some(t));
                        tchanged = c1 || c2;
                        assert(tchanged == terminator_changes(t0, lattice@));
                    },
                    None => {
                        ctx.replace_block_terminator(l, None);
                    },
                }
                proof {
                    lemma_wf_slots(*ctx);
                    let b = ctx.slots()[j as int]->0;
                    assert(b.body@ == new_body@);
                    assert forall|q: int| 0 <= q < a.body@.len() implies #[trigger] instr_rewritten(a.body@[q], b.body@[q], lattice@, lv) by {
                        assert(lattice_rewritten(b0[q], w1[q], w2[q], new_body@[q], lattice@, lv));
                    }
                    assert(b.body@.len() == a.body@.len());
                    assert(b == (BasicBlock { body: b.body, terminator: b.terminator, ..a }));
                    assert(b.terminator == match a.terminator {
                        Some(t) => Some(terminator_rewritten(t, lattice@)),
                        None => None,
                    });
                    assert(block_rewritten(a, b, lattice@, lv));
                    if bchanged {
                        let q = choose|q: int| 0 <= q < k && #[trigger] rewrite_changes(w1[q], w2[q], lattice@);
                        assert(lattice_rewritten(a.body@[q], w1[q], w2[q], b.body@[q], lattice@, lv));
                        assert(block_rewrite_changes(a, b, lattice@, lv));
                    }
                    if tchanged {
                        assert(block_rewrite_changes(a, b, lattice@, lv));
                    }
                    if !bchanged && !tchanged {
                        assert forall|q: int| 0 <= q < a.body@.len() implies #[trigger] instr_rewritten_unchanged(a.body@[q], b.body@[q], lattice@, lv) by {
                            assert(lattice_rewritten(b0[q], w1[q], w2[q], new_body@[q], lattice@, lv));
                            assert(!rewrite_changes(w1[q], w2[q], lattice@));
                        }
                        assert(block_rewrite_unchanged(a, b, lattice@, lv));
                    }
                }
                if bchanged || tchanged {
                    changed = true;
                }
            }
        }
        proof {
            lemma_wf_slots(*ctx);
            assert forall|i: int| j + 1 <= i < n implies #[trigger] ctx.slots()[i] == s0[i] by {
                assert(ctx.slots()[i] == before[i]);
            }
            assert forall|i: int| 0 <= i < j implies #[trigger] ctx.slots()[i] == before[i] by {}
        }
        j = j + 1;
    }
    changed
}

} // verus!
