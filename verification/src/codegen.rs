//! Translation of the checked AST of each function into SSA intermediate
//! representation (after Braun et al.).
use vstd::prelude::*;

use crate::ast::{AsnOp, BinOp, Expr, GlobalDeclaration, Ident, ProgramAST, Stmt, Typ, Variable};
use crate::ir::{
    duplicate_temp, lemma_grows_trans, lemma_shape_grows, no_trivial_phi, Exception, IRContext, Instr, Label,
    Operand, Temp,
};
use crate::semantics::resolve_pointer_mul_ambiguity;
use crate::ast::TypV;
use crate::symbol_table::{fields_view, SymbolModel, SymbolTable};

verus! {

/// The context is well formed and its current block exists.
pub open spec fn ready(c: IRContext) -> bool {
    c.wf() && c.has_block(c.current())
}

/// `c2` is ready and holds every block of `c1`, with no fewer temporaries or labels.
pub open spec fn extends(c1: IRContext, c2: IRContext) -> bool {
    ready(c2) && c1.grows(&c2)
}

/// An operand that is a temporary names one that was created.
pub open spec fn operand_ok(c: IRContext, op: Operand) -> bool {
    op matches Operand::Temp(t) ==> t.0 < c.temps()
}

proof fn lemma_extends_trans(a: IRContext, b: IRContext, c: IRContext)
    requires
        extends(a, b),
        extends(b, c),
    ensures
        extends(a, c),
{
    lemma_grows_trans(a, b, c);
}

/// Error for a function whose IR cannot be built.
fn codegen_error(msg: &str) -> (r: String) {
    String::from_str(msg)
}

/// Append an instruction to the current block.
fn emit(ctx: &mut IRContext, instr: Instr)
    requires
        ready(*old(ctx)),
    ensures
        extends(*old(ctx), *final(ctx)),
        final(ctx).current() == old(ctx).current(),
        final(ctx).temps() == old(ctx).temps(),
        final(ctx).block(final(ctx).current()).body@ == old(ctx).block(old(ctx).current()).body@.push(instr),
{
    ctx.add_instr_to_block(instr);
    proof { lemma_shape_grows(*old(ctx), *ctx); }
}

/// Set the terminator of the current block.
fn terminate(ctx: &mut IRContext, instr: Instr)
    requires
        ready(*old(ctx)),
    ensures
        extends(*old(ctx), *final(ctx)),
        final(ctx).current() == old(ctx).current(),
        final(ctx).temps() == old(ctx).temps(),
        final(ctx).block(final(ctx).current()).terminator == Some(instr),
{
    ctx.set_block_terminator(instr);
    proof { lemma_shape_grows(*old(ctx), *ctx); }
}

/// Create a temporary, failing when their number would overflow.
fn new_temp(ctx: &mut IRContext, typ: Typ) -> (r: Result<Temp, String>)
    requires
        ready(*old(ctx)),
    ensures
        extends(*old(ctx), *final(ctx)),
        final(ctx).current() == old(ctx).current(),
        r matches Ok(t) ==> t.0 < final(ctx).temps() && t.1 == typ,
        r is Ok <==> old(ctx).temps() < usize::MAX,
        r matches Ok(t) ==> t.0 == old(ctx).temps() && final(ctx).temps() == old(ctx).temps() + 1
            && final(ctx).slots() == old(ctx).slots() && final(ctx).labels() == old(ctx).labels(),
        r is Err ==> *final(ctx) == *old(ctx),
{
    if ctx.get_temps_count() == usize::MAX {
        return Err(codegen_error("too many temporaries"));
    }
    let t = ctx.create_temp(typ);
    proof {
        assert forall|l: Label| #[trigger] old(ctx).has_block(l) implies ctx.has_block(l) by {}
    }
    Ok(t)
}

/// Create an empty block, failing when their number would overflow.
fn new_block(ctx: &mut IRContext) -> (r: Result<Label, String>)
    requires
        ready(*old(ctx)),
    ensures
        extends(*old(ctx), *final(ctx)),
        final(ctx).current() == old(ctx).current(),
        r matches Ok(l) ==> final(ctx).has_block(l),
        r is Ok <==> old(ctx).labels() < usize::MAX,
        r matches Ok(l) ==> l.0 == old(ctx).labels() && final(ctx).labels() == old(ctx).labels() + 1
            && final(ctx).temps() == old(ctx).temps()
            && final(ctx).slots() == old(ctx).slots().push(Some(final(ctx).block(l)))
            && final(ctx).block(l).body@.len() == 0 && final(ctx).block(l).terminator is None
            && final(ctx).block(l).preds@.len() == 0 && !final(ctx).block(l).sealed,
        r is Err ==> *final(ctx) == *old(ctx),
{
    if ctx.label_count() == usize::MAX {
        return Err(codegen_error("too many blocks"));
    }
    let l = ctx.create_block();
    Ok(l)
}

/// Make a block of the context current.
fn enter(ctx: &mut IRContext, label: Label)
    requires
        ready(*old(ctx)),
        old(ctx).has_block(label),
    ensures
        extends(*old(ctx), *final(ctx)),
        final(ctx).current() == label,
        final(ctx).temps() == old(ctx).temps(),
{
    ctx.switch_to_block(label);
}

/// Record a predecessor of the current block.
fn link(ctx: &mut IRContext, pred: Label)
    requires
        ready(*old(ctx)),
        old(ctx).has_block(pred),
    ensures
        extends(*old(ctx), *final(ctx)),
        final(ctx).current() == old(ctx).current(),
        final(ctx).temps() == old(ctx).temps(),
{
    ctx.add_pred_to_block(pred);
    proof { lemma_shape_grows(*old(ctx), *ctx); }
}

/// Seal a block whose predecessors are all known.
fn seal(ctx: &mut IRContext, label: Label)
    requires
        ready(*old(ctx)),
        old(ctx).has_block(label),
    ensures
        extends(*old(ctx), *final(ctx)),
        final(ctx).current() == old(ctx).current(),
{
    ctx.seal_block(label);
    proof { lemma_shape_grows(*old(ctx), *ctx); }
}

/// Bind a variable to a temporary in the current block.
fn define(ctx: &mut IRContext, var_id: &Ident, temp: Temp)
    requires
        ready(*old(ctx)),
        temp.0 < old(ctx).temps(),
    ensures
        extends(*old(ctx), *final(ctx)),
        final(ctx).current() == old(ctx).current(),
        final(ctx).temps() == old(ctx).temps(),
        final(ctx).block(final(ctx).current()).defs() == old(ctx).block(old(ctx).current()).defs().insert(var_id@, temp),
        old(ctx).same_except(final(ctx), old(ctx).current()),
{
    let cur = ctx.current_label();
    ctx.write_variable(var_id, temp, cur);
    proof { lemma_shape_grows(*old(ctx), *ctx); }
}

/// Temporary holding a variable in the current block.
fn read(ctx: &mut IRContext, var_id: &Ident) -> (r: Result<Temp, String>)
    requires
        ready(*old(ctx)),
    ensures
        extends(*old(ctx), *final(ctx)),
        final(ctx).current() == old(ctx).current(),
        r matches Ok(t) ==> t.0 < final(ctx).temps(),
        old(ctx).block(old(ctx).current()).defs().contains_key(var_id@) ==> r == Ok::<Temp, String>(
            crate::ir::resolved_temp(
                old(ctx).trivial_table(),
                old(ctx).block(old(ctx).current()).defs()[var_id@],
                (old(ctx).trivial_table().len() + 1) as nat,
            ),
        ),
{
    let cur = ctx.current_label();
    let r = ctx.read_variable(var_id, cur);
    proof { lemma_shape_grows(*old(ctx), *ctx); }
    match r {
        Some(t) => Ok(t),
        None => Err(codegen_error("variable has no definition")),
    }
}

/// Get the data type of an IR operand.
pub fn operand_type(op: &Operand) -> (r: Typ)
    ensures
        r == match *op {
            Operand::Const(c) => c.1,
            Operand::Temp(t) => t.1,
        },
{
    match op {
        Operand::Const(c) => c.1.duplicate(),
        Operand::Temp(t) => t.1.duplicate(),
    }
}

/// Size of a type in bytes: 4 for `int`, 1 for `bool`, 8 for pointers and arrays, the
/// sum of the field sizes for a struct, looking through at most `fuel` levels of
/// structs. `None` for types without a size, unknown structs, deeper nesting, and sizes
/// beyond `i64`.
pub open spec fn size_of_type(m: SymbolModel, t: TypV, fuel: nat) -> Option<int>
    decreases fuel, 0int,
{
    match t {
        TypV::Int => Some(4),
        TypV::Bool => Some(1),
        TypV::Pointer(..) | TypV::Array(..) => Some(8),
        TypV::Struct(id) => if fuel == 0 || !m.structs.contains_key(id) {
            None
        } else {
            size_of_fields(m, m.structs[id], (fuel - 1) as nat)
        },
        _ => None,
    }
}

/// Sum of the sizes of a list of fields (see `size_of_type`).
pub open spec fn size_of_fields(m: SymbolModel, fs: Seq<(TypV, Seq<char>)>, fuel: nat) -> Option<int>
    decreases fuel, fs.len() as int + 1,
{
    if fs.len() == 0 {
        Some(0)
    } else {
        match (size_of_fields(m, fs.drop_last(), fuel), size_of_type(m, fs.last().0, fuel)) {
            (Some(a), Some(b)) => if a + b <= i64::MAX { Some(a + b) } else { None },
            _ => None,
        }
    }
}

/// Once a prefix of the fields has no size, the whole list has none.
proof fn lemma_size_of_fields_none(m: SymbolModel, fs: Seq<(TypV, Seq<char>)>, j: int, fuel: nat)
    requires
        0 <= j <= fs.len(),
        size_of_fields(m, fs.take(j), fuel) is None,
    ensures
        size_of_fields(m, fs, fuel) is None,
    decreases fs.len() - j,
{
    if j == fs.len() {
        assert(fs.take(j) =~= fs);
    } else {
        assert(fs.take(j + 1).drop_last() =~= fs.take(j));
        lemma_size_of_fields_none(m, fs, j + 1, fuel);
    }
}

/// Size of a type in bytes (see `size_of_type`), with `fuel` levels of structs.
fn type_size_bytes_bounded(typ: &Typ, st: &SymbolTable, fuel: usize) -> (r: Result<i64, String>)
    requires
        st.wf(),
    ensures
        r is Ok <==> size_of_type(st@, typ@, fuel as nat) is Some,
        r matches Ok(n) ==> size_of_type(st@, typ@, fuel as nat) == Some(n as int) && n >= 0,
    decreases fuel,
{
    match typ {
        Typ::Int => Ok(4),
        Typ::Bool => Ok(1),
        Typ::Pointer(..) | Typ::Array(..) => Ok(8),
        Typ::Struct(struct_id) => {
            if fuel == 0 {
                return Err(codegen_error("struct nesting too deep"));
            }
            let fields = match st.get_struct_fields(struct_id) {
                Some(f) => f,
                None => return Err(codegen_error("size of an unknown struct")),
            };
            let ghost fv = fields_view(fields@);
            let ghost f1 = (fuel - 1) as nat;
            assert(fv.take(0) =~= Seq::<(TypV, Seq<char>)>::empty());
            let mut total: i64 = 0;
            let mut i: usize = 0;
            while i < fields.len()
                invariant
                    st.wf(),
                    fuel > 0,
                    f1 == fuel - 1,
                    fv == fields_view(fields@),
                    fv.len() == fields@.len(),
                    st@.structs.contains_key(struct_id@),
                    st@.structs[struct_id@] == fv,
                    typ@ == TypV::Struct(struct_id@),
                    i <= fields@.len(),
                    size_of_fields(st@, fv.take(i as int), f1) == Some(total as int),
                    total >= 0,
                decreases fields@.len() - i,
            {
                proof {
                    assert(fv.take(i as int + 1).drop_last() =~= fv.take(i as int));
                    assert(fv.take(i as int + 1).last() == fv[i as int]);
                    assert(fv[i as int].0 == fields@[i as int].0@);
                }
                let size = match type_size_bytes_bounded(&fields[i].0, st, fuel - 1) {
                    Ok(n) => n,
                    Err(e) => {
                        proof { lemma_size_of_fields_none(st@, fv, i as int + 1, f1); }
                        return Err(e);
                    },
                };
                total = match total.checked_add(size) {
                    Some(t) => t,
                    None => {
                        proof { lemma_size_of_fields_none(st@, fv, i as int + 1, f1); }
                        return Err(codegen_error("struct too large"));
                    },
                };
                i = i + 1;
            }
            assert(fv.take(i as int) =~= fv);
            Ok(total)
        },
        _ => Err(codegen_error("size of a type without one")),
    }
}

/// Size of a type in bytes (see `size_of_type`), searching struct fields as deep as
/// there are structs.
pub fn type_size_bytes(typ: &Typ, st: &SymbolTable) -> (r: Result<i64, String>)
    requires
        st.wf(),
    ensures
        r is Ok <==> size_of_type(st@, typ@, st.struct_fuel()) is Some,
        r matches Ok(n) ==> size_of_type(st@, typ@, st.struct_fuel()) == Some(n as int) && n >= 0,
        *typ is Int ==> r == Ok::<i64, String>(4),
        *typ is Bool ==> r == Ok::<i64, String>(1),
        (*typ is Pointer || *typ is Array) ==> r == Ok::<i64, String>(8),
        (*typ is Void || *typ is Null || *typ is Typedef) ==> r is Err,
{
    let fuel = st.struct_count();
    type_size_bytes_bounded(typ, st, fuel)
}

/// The operand as a temporary: a constant is first moved into a new temporary of the
/// given type.
fn get_operand_temp(op: Operand, typ: Typ, ctx: &mut IRContext) -> (r: Result<Temp, String>)
    requires
        ready(*old(ctx)),
        operand_ok(*old(ctx), op),
    ensures
        extends(*old(ctx), *final(ctx)),
        final(ctx).current() == old(ctx).current(),
        r matches Ok(t) ==> t.0 < final(ctx).temps(),
        op matches Operand::Temp(t) ==> r == Ok::<Temp, String>(t) && *final(ctx) == *old(ctx),
{
    match op {
        Operand::Const(_) => {
            let dest = new_temp(ctx, typ)?;
            let ghost c1 = *ctx;
            emit(ctx, Instr::Move { dest: duplicate_temp(&dest), src: op });
            proof { lemma_extends_trans(*old(ctx), c1, *ctx); }
            Ok(dest)
        },
        Operand::Temp(temp) => Ok(temp),
    }
}


/// The type annotated on an expression, or the one computed from the expression.
fn annotated_type(typ: &Option<Typ>, expr: &Expr) -> (r: Typ) {
    match typ {
        Some(t) => t.duplicate(),
        None => expr.get_type(),
    }
}

/// Transform an expression into IR instructions of the current block (and new blocks
/// where it branches), giving back the operand that holds its value. Literals become
/// constants without any instruction.
pub fn munch_expression(expr: &Expr, ctx: &mut IRContext, st: &SymbolTable) -> (r: Result<Operand, String>)
    requires
        ready(*old(ctx)),
        st.wf(),
    ensures
        extends(*old(ctx), *final(ctx)),
        r matches Ok(op) ==> operand_ok(*final(ctx), op),
        *expr is Number ==> r == Ok::<Operand, String>(Operand::Const((expr->Number_0, Typ::Int))) && *final(ctx) == *old(ctx),
        *expr is Bool ==> r == Ok::<Operand, String>(Operand::Const((if expr->Bool_0 { 1i64 } else { 0i64 }, Typ::Bool)))
            && *final(ctx) == *old(ctx),
        *expr is Null ==> r == Ok::<Operand, String>(Operand::Const((0i64, Typ::Pointer(Box::new(Typ::Int), 1usize))))
            && *final(ctx) == *old(ctx),
    decreases expr, 1nat,
{
    match expr {
        Expr::Number(number) => Ok(Operand::Const((*number, Typ::Int))),
        Expr::Bool(boolean) => Ok(Operand::Const((if *boolean { 1 } else { 0 }, Typ::Bool))),
        Expr::Null => Ok(Operand::Const((0, Typ::Pointer(Box::new(Typ::Int), 1)))),
        Expr::Variable(var_id, _) => {
            let t = read(ctx, var_id)?;
            Ok(Operand::Temp(t))
        },
        Expr::Binop(a, bin_op, b, typ) => {
            match bin_op {
                BinOp::LAnd | BinOp::LOr => short_circuit_binop(expr, ctx, st),
                _ => {
                    let left = munch_expression(&**a, ctx, st)?;
                    let right = munch_expression(&**b, ctx, st)?;
                    let dest = new_temp(ctx, annotated_type(typ, expr))?;
                    emit(ctx, Instr::BinOp { op: *bin_op, dest: duplicate_temp(&dest), lhs: left, rhs: right });
                    Ok(Operand::Temp(dest))
                },
            }
        },
        Expr::Unop(un_op, inner, typ) => {
            let src = munch_expression(&**inner, ctx, st)?;
            let dest = new_temp(ctx, annotated_type(typ, &**inner))?;
            emit(ctx, Instr::UnOp { op: *un_op, dest: duplicate_temp(&dest), src });
            Ok(Operand::Temp(dest))
        },
        Expr::Ternop(condition_expr, if_expr, else_expr, typ) => {
            let if_label = new_block(ctx)?;
            let else_label = new_block(ctx)?;
            let merge_label = new_block(ctx)?;
            let parent_label = ctx.current_label();
            let condition = munch_expression(&**condition_expr, ctx, st)?;
            terminate(ctx, Instr::JumpIf { pred: condition, holds: if_label, fails: else_label });

            enter(ctx, if_label);
            link(ctx, parent_label);
            seal(ctx, if_label);
            let if_operand = munch_expression(&**if_expr, ctx, st)?;
            let if_end_label = ctx.current_label();
            terminate(ctx, Instr::JumpTo(merge_label));

            enter(ctx, else_label);
            link(ctx, parent_label);
            seal(ctx, else_label);
            let else_operand = munch_expression(&**else_expr, ctx, st)?;
            let else_end_label = ctx.current_label();
            terminate(ctx, Instr::JumpTo(merge_label));

            enter(ctx, merge_label);
            link(ctx, if_end_label);
            link(ctx, else_end_label);
            seal(ctx, merge_label);
            let dest = new_temp(ctx, annotated_type(typ, expr))?;
            let mut srcs: Vec<(Label, Operand)> = Vec::new();
            srcs.push((if_end_label, if_operand));
            srcs.push((else_end_label, else_operand));
            emit(ctx, Instr::Phi { dest: duplicate_temp(&dest), srcs });
            Ok(Operand::Temp(dest))
        },
        Expr::Call(func_id, args, typ) => {
            let mut ops: Vec<Operand> = Vec::new();
            let ghost c0 = *ctx;
            let ghost e0 = *expr;
            let mut i: usize = 0;
            while i < args.len()
                invariant
                    st.wf(),
                    extends(c0, *ctx),
                    c0 == *old(ctx),
                    i <= args@.len(),
                    e0 == *expr,
                    e0 matches Expr::Call(_, v, _) && v@ == args@,
                decreases args@.len() - i,
            {
                proof {
                    if let Expr::Call(_, v, _) = e0 {
                        assert(decreases_to!(e0 => v));
                        assert(decreases_to!(v => v@));
                        assert(decreases_to!(v@ => v@[i as int]));
                    }
                }
                let op = munch_expression(&args[i], ctx, st)?;
                ops.push(op);
                i = i + 1;
            }
            let result_typ = annotated_type(typ, expr);
            let is_void = match result_typ {
                Typ::Void => true,
                _ => false,
            };
            if is_void {
                emit(ctx, Instr::Call { dest: None, name: func_id.clone(), args: ops });
                Ok(Operand::Const((0, Typ::Bool)))
            } else {
                let dest = new_temp(ctx, result_typ)?;
                emit(ctx, Instr::Call { dest: Some(duplicate_temp(&dest)), name: func_id.clone(), args: ops });
                Ok(Operand::Temp(dest))
            }
        },
        Expr::Deref(..) | Expr::ArrayIndex(..) | Expr::StructDeref(..) => {
            let addr = munch_lvalue_address(expr, ctx, st)?;
            let dest = new_temp(ctx, expr.get_type())?;
            emit(ctx, Instr::Load { dest: duplicate_temp(&dest), addr });
            Ok(Operand::Temp(dest))
        },
        Expr::Alloc(alloc_typ, _) => {
            let size = type_size_bytes(alloc_typ, st)?;
            let dest = new_temp(ctx, expr.get_type())?;
            emit(ctx, Instr::Alloc { dest: duplicate_temp(&dest), size: Operand::Const((size, Typ::Int)) });
            Ok(Operand::Temp(dest))
        },
        Expr::AllocArray(elem_typ, size_expr, _) => {
            let dest = new_temp(ctx, expr.get_type())?;
            let count = munch_expression(&**size_expr, ctx, st)?;
            let size = type_size_bytes(elem_typ, st)?;
            emit(ctx, Instr::AllocArray { dest: duplicate_temp(&dest), size: Operand::Const((size, Typ::Int)), count });
            Ok(Operand::Temp(dest))
        },
    }
}

/// Transform a logical `&&` or `||` into short-circuit evaluation: the right operand
/// is evaluated only when the left one does not decide the result.
fn short_circuit_binop(expr: &Expr, ctx: &mut IRContext, st: &SymbolTable) -> (r: Result<Operand, String>)
    requires
        ready(*old(ctx)),
        st.wf(),
    ensures
        extends(*old(ctx), *final(ctx)),
        r matches Ok(op) ==> operand_ok(*final(ctx), op),
    decreases expr, 0nat,
{
    let (a, bin_op, b, typ) = match expr {
        Expr::Binop(a, bin_op, b, typ) => (a, bin_op, b, typ),
        _ => return Err(codegen_error("short-circuit evaluation of a non-logical expression")),
    };
    let is_and = match bin_op {
        BinOp::LAnd => true,
        BinOp::LOr => false,
        _ => return Err(codegen_error("short-circuit evaluation of a non-logical operator")),
    };
    let rhs_label = new_block(ctx)?;
    let short_circuit_label = new_block(ctx)?;
    let merge_label = new_block(ctx)?;

    let parent_label = ctx.current_label();
    let left = munch_expression(&**a, ctx, st)?;
    if is_and {
        terminate(ctx, Instr::JumpIf { pred: left, holds: rhs_label, fails: short_circuit_label });
    } else {
        terminate(ctx, Instr::JumpIf { pred: left, holds: short_circuit_label, fails: rhs_label });
    }

    enter(ctx, rhs_label);
    link(ctx, parent_label);
    seal(ctx, rhs_label);
    let rhs_operand = munch_expression(&**b, ctx, st)?;
    let rhs_end_label = ctx.current_label();
    terminate(ctx, Instr::JumpTo(merge_label));

    enter(ctx, short_circuit_label);
    link(ctx, parent_label);
    seal(ctx, short_circuit_label);
    let short_circuit_operand = if is_and { Operand::Const((0, Typ::Bool)) } else { Operand::Const((1, Typ::Bool)) };
    let short_circuit_end_label = ctx.current_label();
    terminate(ctx, Instr::JumpTo(merge_label));

    enter(ctx, merge_label);
    link(ctx, rhs_end_label);
    link(ctx, short_circuit_end_label);
    seal(ctx, merge_label);
    let dest = new_temp(ctx, annotated_type(typ, expr))?;
    let mut srcs: Vec<(Label, Operand)> = Vec::new();
    srcs.push((rhs_end_label, rhs_operand));
    srcs.push((short_circuit_end_label, short_circuit_operand));
    emit(ctx, Instr::Phi { dest: duplicate_temp(&dest), srcs });
    Ok(Operand::Temp(dest))
}

/// Compute the address of an lvalue expression (a dereference, an array element or a
/// struct field).
fn munch_lvalue_address(expr: &Expr, ctx: &mut IRContext, st: &SymbolTable) -> (r: Result<Operand, String>)
    requires
        ready(*old(ctx)),
        st.wf(),
    ensures
        extends(*old(ctx), *final(ctx)),
        r matches Ok(op) ==> operand_ok(*final(ctx), op),
    decreases expr, 0nat,
{
    match expr {
        Expr::Deref(pointer_expr, depth, _) => {
            let mut addr = munch_expression(&**pointer_expr, ctx, st)?;
            let ghost c0 = *ctx;
            let mut k: usize = 1;
            while k < *depth
                invariant
                    st.wf(),
                    extends(*old(ctx), c0),
                    extends(c0, *ctx),
                    operand_ok(*ctx, addr),
                    1 <= k,
                decreases *depth - k,
            {
                let loaded_typ = match operand_type(&addr) {
                    Typ::Pointer(inner, d) => {
                        if d > 1 {
                            Typ::Pointer(inner, d - 1)
                        } else {
                            *inner
                        }
                    },
                    _ => return Err(codegen_error("dereference of a value that is not a pointer")),
                };
                let dest = new_temp(ctx, loaded_typ)?;
                emit(ctx, Instr::Load { dest: duplicate_temp(&dest), addr });
                addr = Operand::Temp(dest);
                k = k + 1;
            }
            Ok(addr)
        },
        Expr::ArrayIndex(array_expr, index_expr, typ) => {
            let base = munch_expression(&**array_expr, ctx, st)?;
            let index = munch_expression(&**index_expr, ctx, st)?;
            let elem_typ = annotated_type(typ, expr);
            let dest = new_temp(ctx, Typ::Pointer(Box::new(elem_typ), 1))?;
            emit(ctx, Instr::BinOp { op: BinOp::Add, dest: duplicate_temp(&dest), lhs: base, rhs: index });
            Ok(Operand::Temp(dest))
        },
        Expr::StructDeref(struct_expr, field_id, _) => {
            let base_addr = munch_lvalue_address(&**struct_expr, ctx, st)?;
            let struct_id = match struct_expr.get_type() {
                Typ::Struct(struct_id) => struct_id,
                _ => return Err(codegen_error("field access on a value that is not a struct")),
            };
            let fields = match st.get_struct_fields(&struct_id) {
                Some(f) => f,
                None => return Err(codegen_error("field access on an unknown struct")),
            };
            let mut offset: i64 = 0;
            let mut i: usize = 0;
            while i < fields.len()
                invariant
                    st.wf(),
                    extends(*old(ctx), *ctx),
                    operand_ok(*ctx, base_addr),
                    i <= fields@.len(),
                decreases fields@.len() - i,
            {
                if fields[i].1 == *field_id {
                    break;
                }
                let size = type_size_bytes(&fields[i].0, st)?;
                offset = match offset.checked_add(size) {
                    Some(o) => o,
                    None => return Err(codegen_error("struct too large")),
                };
                i = i + 1;
            }
            let dest = new_temp(ctx, operand_type(&base_addr))?;
            emit(ctx, Instr::BinOp { op: BinOp::Add, dest: duplicate_temp(&dest), lhs: base_addr, rhs: Operand::Const((offset, Typ::Int)) });
            Ok(Operand::Temp(dest))
        },
        _ => Err(codegen_error("invalid lvalue expression")),
    }
}


/// Transform a statement into IR instructions. Returns whether the statement is
/// terminal (control never continues after it); a terminal statement leaves the
/// current block terminated.
pub fn munch_statement(stmt: &Stmt, ctx: &mut IRContext, st: &SymbolTable) -> (r: Result<bool, String>)
    requires
        ready(*old(ctx)),
        st.wf(),
    ensures
        extends(*old(ctx), *final(ctx)),
        r == Ok::<bool, String>(true) ==> final(ctx).block(final(ctx).current()).terminator is Some,
        (*stmt is Decl || *stmt is NoOp) ==> r == Ok::<bool, String>(false) && *final(ctx) == *old(ctx),
        *stmt is Ret && r is Ok ==> r == Ok::<bool, String>(true)
            && final(ctx).block(final(ctx).current()).terminator matches Some(Instr::Return(_)),
    decreases stmt,
{
    match stmt {
        Stmt::Decl(_) | Stmt::NoOp() => Ok(false),
        Stmt::Defn(var, e) => {
            let op = munch_expression(e, ctx, st)?;
            let dest = get_operand_temp(op, var.0.duplicate(), ctx)?;
            define(ctx, &var.1, dest);
            Ok(false)
        },
        Stmt::Asgn(target, asn_op, e) => {
            if *asn_op == AsnOp::Equal {
                match resolve_pointer_mul_ambiguity(target, st) {
                    Some(var) => {
                        let op = munch_expression(e, ctx, st)?;
                        let dest = get_operand_temp(op, var.0, ctx)?;
                        define(ctx, &var.1, dest);
                        return Ok(false);
                    },
                    None => {},
                }
            }
            match target {
                Expr::Variable(var_id, var_typ) => {
                    let assigned = if *asn_op == AsnOp::Equal {
                        let op = munch_expression(e, ctx, st)?;
                        let t = match var_typ {
                            Some(t) => t.duplicate(),
                            None => target.get_type(),
                        };
                        get_operand_temp(op, t, ctx)?
                    } else {
                        let binop = match asn_op.to_binop() {
                            Some(b) => b,
                            None => return Err(codegen_error("compound assignment without an operator")),
                        };
                        let old_temp = read(ctx, var_id)?;
                        let rhs = munch_expression(e, ctx, st)?;
                        let dest = new_temp(ctx, old_temp.1.duplicate())?;
                        emit(ctx, Instr::BinOp { op: binop, dest: duplicate_temp(&dest), lhs: Operand::Temp(old_temp), rhs });
                        dest
                    };
                    define(ctx, var_id, assigned);
                },
                _ => {
                    let addr = munch_lvalue_address(target, ctx, st)?;
                    let value = if *asn_op == AsnOp::Equal {
                        munch_expression(e, ctx, st)?
                    } else {
                        let binop = match asn_op.to_binop() {
                            Some(b) => b,
                            None => return Err(codegen_error("compound assignment without an operator")),
                        };
                        let loaded = new_temp(ctx, target.get_type())?;
                        emit(ctx, Instr::Load { dest: duplicate_temp(&loaded), addr: addr.clone() });
                        let rhs = munch_expression(e, ctx, st)?;
                        let dest = new_temp(ctx, target.get_type())?;
                        emit(ctx, Instr::BinOp { op: binop, dest: duplicate_temp(&dest), lhs: Operand::Temp(loaded), rhs });
                        Operand::Temp(dest)
                    };
                    emit(ctx, Instr::Store { addr, src: value });
                },
            }
            Ok(false)
        },
        Stmt::Cond(e, if_stmt, else_stmt) => {
            let if_label = new_block(ctx)?;
            let else_label = new_block(ctx)?;
            let merge_label = new_block(ctx)?;

            let condition_label = ctx.current_label();
            let condition = munch_expression(e, ctx, st)?;
            terminate(ctx, Instr::JumpIf { pred: condition, holds: if_label, fails: else_label });

            enter(ctx, if_label);
            link(ctx, condition_label);
            seal(ctx, if_label);
            let if_terminated = munch_statement(&**if_stmt, ctx, st)?;
            let if_end_label = ctx.current_label();
            if !if_terminated {
                terminate(ctx, Instr::JumpTo(merge_label));
            }

            enter(ctx, else_label);
            link(ctx, condition_label);
            seal(ctx, else_label);
            let else_terminated = munch_statement(&**else_stmt, ctx, st)?;
            let else_end_label = ctx.current_label();
            if !else_terminated {
                terminate(ctx, Instr::JumpTo(merge_label));
            }

            if if_terminated && else_terminated {
                return Ok(true);
            }

            enter(ctx, merge_label);
            if !if_terminated {
                link(ctx, if_end_label);
            }
            if !else_terminated {
                link(ctx, else_end_label);
            }
            seal(ctx, merge_label);
            Ok(false)
        },
        Stmt::While(e, body_stmt) => {
            let header_label = new_block(ctx)?;
            let body_label = new_block(ctx)?;
            let exit_label = new_block(ctx)?;

            let parent_label = ctx.current_label();
            terminate(ctx, Instr::JumpTo(header_label));
            enter(ctx, header_label);
            link(ctx, parent_label);
            let condition = munch_expression(e, ctx, st)?;
            terminate(ctx, Instr::JumpIf { pred: condition, holds: body_label, fails: exit_label });
            let header_end_label = ctx.current_label();

            enter(ctx, body_label);
            link(ctx, header_end_label);
            seal(ctx, body_label);
            if !munch_statement(&**body_stmt, ctx, st)? {
                let body_end_label = ctx.current_label();
                terminate(ctx, Instr::JumpTo(header_label));
                enter(ctx, header_label);
                link(ctx, body_end_label);
            }
            seal(ctx, header_label);

            enter(ctx, exit_label);
            link(ctx, header_end_label);
            seal(ctx, exit_label);
            Ok(false)
        },
        Stmt::For(init_stmt, e, step_stmt, body_stmt) => {
            let ghost s0 = *stmt;
            match &**init_stmt {
                Some(init) => {
                    proof {
                        if let Stmt::For(i0, _, _, _) = s0 {
                            assert(decreases_to!(s0 => i0));
                            if let Some(x) = *i0 {
                                assert(decreases_to!(i0 => x));
                            }
                        }
                    }
                    if munch_statement(init, ctx, st)? {
                        return Ok(true);
                    }
                },
                None => {},
            }

            let header_label = new_block(ctx)?;
            let body_label = new_block(ctx)?;
            let step_label = new_block(ctx)?;
            let exit_label = new_block(ctx)?;

            let parent_label = ctx.current_label();
            terminate(ctx, Instr::JumpTo(header_label));
            enter(ctx, header_label);
            link(ctx, parent_label);
            let condition = munch_expression(e, ctx, st)?;
            terminate(ctx, Instr::JumpIf { pred: condition, holds: body_label, fails: exit_label });
            let header_end_label = ctx.current_label();

            enter(ctx, body_label);
            link(ctx, header_end_label);
            seal(ctx, body_label);
            if !munch_statement(&**body_stmt, ctx, st)? {
                let body_end_label = ctx.current_label();
                terminate(ctx, Instr::JumpTo(step_label));
                enter(ctx, step_label);
                link(ctx, body_end_label);
                seal(ctx, step_label);

                let step_terminates = match &**step_stmt {
                    Some(step) => {
                        proof {
                            if let Stmt::For(_, _, s1, _) = s0 {
                                assert(decreases_to!(s0 => s1));
                                if let Some(x) = *s1 {
                                    assert(decreases_to!(s1 => x));
                                }
                            }
                        }
                        munch_statement(step, ctx, st)?
                    },
                    None => false,
                };

                if !step_terminates {
                    let step_end_label = ctx.current_label();
                    terminate(ctx, Instr::JumpTo(header_label));
                    enter(ctx, header_label);
                    link(ctx, step_end_label);
                }
            }
            seal(ctx, header_label);

            enter(ctx, exit_label);
            link(ctx, header_end_label);
            seal(ctx, exit_label);
            Ok(false)
        },
        Stmt::Block(stmts) => {
            let ghost s0 = *stmt;
            let mut terminates = false;
            let mut i: usize = 0;
            while i < stmts.len()
                invariant
                    st.wf(),
                    extends(*old(ctx), *ctx),
                    s0 == *stmt,
                    s0 matches Stmt::Block(v) && v@ == stmts@,
                    i <= stmts@.len(),
                    terminates ==> ctx.block(ctx.current()).terminator is Some,
                decreases stmts@.len() - i,
            {
                proof {
                    if let Stmt::Block(v) = s0 {
                        assert(decreases_to!(s0 => v));
                        assert(decreases_to!(v => v@));
                        assert(decreases_to!(v@ => v@[i as int]));
                    }
                }
                terminates = munch_statement(&stmts[i], ctx, st)?;
                if terminates {
                    break;
                }
                i = i + 1;
            }
            Ok(terminates)
        },
        Stmt::Ret(e) => {
            let return_operand = match e {
                Some(x) => Some(munch_expression(x, ctx, st)?),
                None => None,
            };
            terminate(ctx, Instr::Return(return_operand));
            Ok(true)
        },
        Stmt::Expr(e) => {
            if resolve_pointer_mul_ambiguity(e, st).is_none() {
                munch_expression(e, ctx, st)?;
            }
            Ok(false)
        },
        Stmt::Assert(e) => {
            let pass_label = new_block(ctx)?;
            let fail_label = new_block(ctx)?;

            let parent_label = ctx.current_label();
            let condition = munch_expression(e, ctx, st)?;
            terminate(ctx, Instr::JumpIf { pred: condition, holds: pass_label, fails: fail_label });

            enter(ctx, fail_label);
            link(ctx, parent_label);
            terminate(ctx, Instr::Throw(Exception::Abort));
            seal(ctx, fail_label);

            enter(ctx, pass_label);
            link(ctx, parent_label);
            seal(ctx, pass_label);
            Ok(false)
        },
    }
}

/// Transform the body of a function into its IR: parameters are defined in the entry
/// block, a void function that can finish without `return` returns implicitly, and the
/// trivial phi nodes are removed.
pub fn munch_function_body(typ: &Typ, params: &Vec<Variable>, body: &Stmt, st: &SymbolTable) -> (r: Result<IRContext, String>)
    requires
        st.wf(),
    ensures
        r matches Ok(ctx) ==> {
            &&& ctx.wf()
            &&& ctx.has_block(Label(0))
            &&& forall|l: Label| #[trigger] ctx.has_block(l) ==> no_trivial_phi(ctx, ctx.block(l))
        },
{
    let mut ctx = IRContext::new();
    let entry_label = ctx.current_label();
    let mut i: usize = 0;
    while i < params.len()
        invariant
            ready(ctx),
            ctx.has_block(Label(0)),
            entry_label == Label(0),
            i <= params@.len(),
        decreases params@.len() - i,
    {
        let temp = new_temp(&mut ctx, params[i].0.duplicate())?;
        define(&mut ctx, &params[i].1, temp);
        i = i + 1;
    }
    let terminated = munch_statement(body, &mut ctx, st)?;
    let is_void = match typ {
        Typ::Void => true,
        _ => false,
    };
    if !terminated && is_void {
        terminate(&mut ctx, Instr::Return(None));
    }
    ctx.finalize_trivial_phis();
    Ok(ctx)
}

/// Names of the functions that a program defines and that the symbol table records as
/// defined, in program order.
pub open spec fn defined_functions(decls: Seq<GlobalDeclaration>, defined: Set<Seq<char>>) -> Seq<Seq<char>>
    decreases decls.len(),
{
    if decls.len() == 0 {
        Seq::empty()
    } else {
        let rest = defined_functions(decls.drop_last(), defined);
        match decls.last() {
            GlobalDeclaration::FDefn(_, name, _, _) => if defined.contains(name@) { rest.push(name@) } else { rest },
            _ => rest,
        }
    }
}

/// Transform every function that the program defines into IR, paired with its name.
pub fn munch_program(ast: &ProgramAST, st: &SymbolTable) -> (r: Result<Vec<(Ident, IRContext)>, String>)
    requires
        st.wf(),
    ensures
        r matches Ok(p) ==> {
            &&& p@.map_values(|e: (Ident, IRContext)| e.0@) == defined_functions(ast@, st@.defined)
            &&& forall|i: int| 0 <= i < p@.len() ==> (#[trigger] p@[i]).1.wf() && p@[i].1.has_block(Label(0))
        },
{
    let mut out: Vec<(Ident, IRContext)> = Vec::new();
    let mut i: usize = 0;
    while i < ast.len()
        invariant
            st.wf(),
            i <= ast@.len(),
            out@.map_values(|e: (Ident, IRContext)| e.0@) == defined_functions(ast@.take(i as int), st@.defined),
            forall|k: int| 0 <= k < out@.len() ==> (#[trigger] out@[k]).1.wf() && out@[k].1.has_block(Label(0)),
        decreases ast@.len() - i,
    {
        proof {
            assert(ast@.take(i as int + 1).drop_last() =~= ast@.take(i as int));
        }
        match &ast[i] {
            GlobalDeclaration::FDefn(ret_typ, name, params, body) => {
                if st.is_function_defined(name) {
                    let ctx = munch_function_body(ret_typ, params, body, st)?;
                    let ghost before = out@;
                    out.push((name.clone(), ctx));
                    proof {
                        assert(out@.map_values(|e: (Ident, IRContext)| e.0@)
                            =~= before.map_values(|e: (Ident, IRContext)| e.0@).push(name@));
                    }
                }
            },
            _ => {},
        }
        i = i + 1;
    }
    assert(ast@.take(ast@.len() as int) =~= ast@);
    Ok(out)
}

} // verus!
