//! Semantic analysis: scoping, definite assignment and type checking of C0 programs.
use vstd::prelude::*;

use crate::ast::{annotation, type_of, AsnOp, BinOp, Expr, GlobalDeclaration, Ident, ProgramAST, Stmt, Typ, TypV, UnOp, Variable};
use crate::function_context::{declared, defined, ident_set, insert_ident, FunctionModel};
use crate::symbol_table::{field_lookup, SymbolModel, SymbolTable};

verus! {

/// Helper to check if a pointer's underlying type is valid.
pub open spec fn ptr_type_valid(t: TypV) -> bool
    decreases t,
{
    match t {
        TypV::Int | TypV::Bool | TypV::Struct(_) => true,
        TypV::Array(inner, _) | TypV::Pointer(inner, _) => ptr_type_valid(*inner),
        _ => false,
    }
}

/// Whether a variable can be of a type.
pub open spec fn var_type_valid(t: TypV) -> bool {
    match t {
        TypV::Int | TypV::Bool => true,
        TypV::Array(inner, _) | TypV::Pointer(inner, _) => ptr_type_valid(*inner),
        _ => false,
    }
}

/// Helper to check if a pointer's underlying type is valid.
pub fn is_ptr_type_valid(typ: &Typ) -> (r: bool)
    ensures
        r == ptr_type_valid(typ@),
    decreases typ,
{
    match typ {
        Typ::Int | Typ::Bool | Typ::Struct(_) => true,
        Typ::Array(inner, _) => is_ptr_type_valid(&**inner),
        Typ::Pointer(inner, _) => is_ptr_type_valid(&**inner),
        Typ::Void | Typ::Null | Typ::Typedef(_) => false,
    }
}

/// Helper to check whether a variable can be of given type.
pub fn is_var_type_valid(typ: &Typ) -> (r: bool)
    ensures
        r == var_type_valid(typ@),
{
    match typ {
        Typ::Int | Typ::Bool => true,
        Typ::Array(inner, _) => is_ptr_type_valid(&**inner),
        Typ::Pointer(inner, _) => is_ptr_type_valid(&**inner),
        Typ::Void | Typ::Null | Typ::Typedef(_) | Typ::Struct(_) => false,
    }
}

/// Identity and total dimensions of a (possibly dereferenced) variable.
pub open spec fn pointer_var_depth(e: Expr) -> Option<(Seq<char>, int)>
    decreases e,
{
    match e {
        Expr::Variable(v, _) => Some((v@, 0int)),
        Expr::Deref(inner, d, _) => match pointer_var_depth(*inner) {
            Some((v, n)) => Some((v, n + d)),
            None => None,
        },
        _ => None,
    }
}

/// Determine the identity and dimensions of a pointer type; `None` when the expression
/// is not a dereferenced variable or its total dimension does not fit in a word.
pub fn get_pointer_var_depth(expr: &Expr) -> (r: Option<(Ident, usize)>)
    ensures
        r is Some <==> (pointer_var_depth(*expr) matches Some((_, n)) && n <= usize::MAX),
        r matches Some((v, n)) ==> pointer_var_depth(*expr) == Some((v@, n as int)),
    decreases expr,
{
    match expr {
        Expr::Variable(var, _) => Some((var.clone(), 0)),
        Expr::Deref(inner, depth, _) => {
            proof {
                lemma_depth_nonneg(**inner);
            }
            match get_pointer_var_depth(&**inner) {
                Some((var, inner_depth)) => match inner_depth.checked_add(*depth) {
                    Some(n) => Some((var, n)),
                    None => None,
                },
                None => None,
            }
        },
        _ => None,
    }
}

proof fn lemma_depth_nonneg(e: Expr)
    ensures
        pointer_var_depth(e) matches Some((_, n)) ==> n >= 0,
    decreases e,
{
    if let Expr::Deref(inner, _, _) = e {
        lemma_depth_nonneg(*inner);
    }
}

/// Resolution of a `t * x` statement that declares a pointer variable `x` of alias type `t`.
pub open spec fn pointer_declaration(m: SymbolModel, e: Expr) -> Option<(TypV, Seq<char>)> {
    match e {
        Expr::Binop(lhs, BinOp::Mul, rhs, _) => match *lhs {
            Expr::Variable(id, _) => if crate::symbol_table::is_alias(m, id@) {
                match pointer_var_depth(*rhs) {
                    Some((v, n)) => if n + 1 <= usize::MAX {
                        Some((TypV::Pointer(Box::new(TypV::Typedef(id@)), (n + 1) as usize), v))
                    } else {
                        None
                    },
                    None => None,
                }
            } else {
                None
            },
            _ => None,
        },
        _ => None,
    }
}

/// Resolve ambiguity between pointers and multiplication operation.
/// If the expression declares a pointer, the function returns Some(pointer_var).
pub fn resolve_pointer_mul_ambiguity(expr: &Expr, st: &SymbolTable) -> (r: Option<Variable>)
    requires
        st.wf(),
    ensures
        r is Some <==> pointer_declaration(st@, *expr) is Some,
        r matches Some(v) ==> pointer_declaration(st@, *expr) == Some((v.0@, v.1@)),
{
    match expr {
        Expr::Binop(lhs, BinOp::Mul, rhs, _) => match &**lhs {
            Expr::Variable(id, _) => {
                if st.is_typedef(id) {
                    match get_pointer_var_depth(&**rhs) {
                        Some((var_id, depth)) => {
                            if depth < usize::MAX {
                                let alias = Typ::Typedef(id.clone());
                                assert(alias@ == TypV::Typedef(id@));
                                let t = Typ::Pointer(Box::new(alias), depth + 1);
                                assert(t@ == TypV::Pointer(Box::new(TypV::Typedef(id@)), (depth + 1) as usize));
                                Some((t, var_id))
                            } else {
                                None
                            }
                        },
                        None => {
                            proof { lemma_depth_nonneg(**rhs); }
                            None
                        },
                    }
                } else {
                    None
                }
            },
            _ => None,
        },
        _ => None,
    }
}


/// Result of typechecking an expression or statement.
pub struct TcResult {
    /// Does the statement always return?
    pub returns: bool,
    /// Variables defined in this expression/statement (names are distinct).
    pub defines: Vec<Ident>,
}

impl TcResult {
    /// No returns, no defines in statement/expression.
    pub fn ok() -> (r: Self)
        ensures
            !r.returns,
            r.defines@.len() == 0,
    {
        TcResult { returns: false, defines: Vec::new() }
    }

    /// Statement/expression defines variables, no return.
    pub fn ok_def(defines: Vec<Ident>) -> (r: Self)
        ensures
            !r.returns,
            r.defines == defines,
    {
        TcResult { returns: false, defines }
    }

    /// Statement returns.
    pub fn ok_ret(defines: Vec<Ident>) -> (r: Self)
        ensures
            r.returns,
            r.defines == defines,
    {
        TcResult { returns: true, defines }
    }
}

/// Two types may meet in a comparison, assignment or merge: they are equal, or one is
/// the null type and the other a pointer.
pub open spec fn compatible(a: TypV, b: TypV) -> bool {
    a == b || (a is Null && b is Pointer) || (a is Pointer && b is Null)
}

/// Result type of a binary operator whose operands are of type `t`.
pub open spec fn binop_result(op: BinOp, t: TypV) -> Option<TypV> {
    match op {
        BinOp::Add | BinOp::Sub | BinOp::Mul | BinOp::Div | BinOp::Mod | BinOp::And | BinOp::Xor
        | BinOp::Or | BinOp::Sal | BinOp::Sar => if t == TypV::Int { Some(TypV::Int) } else { None },
        BinOp::LAnd | BinOp::LOr => if t == TypV::Bool { Some(TypV::Bool) } else { None },
        BinOp::CmpEq | BinOp::CmpNeq => if t != TypV::Void && !(t is Struct) { Some(TypV::Bool) } else { None },
        BinOp::Lt | BinOp::Gt | BinOp::Lte | BinOp::Gte => if t == TypV::Int { Some(TypV::Bool) } else { None },
    }
}

/// Result type of a unary operator.
pub open spec fn unop_result(op: UnOp) -> TypV {
    match op {
        UnOp::Neg | UnOp::Not => TypV::Int,
        UnOp::LNot => TypV::Bool,
    }
}

/// Type of dereferencing `d` levels of a pointer type.
pub open spec fn deref_type(t: TypV, d: usize) -> Option<TypV> {
    match t {
        TypV::Pointer(inner, pd) => if pd > d {
            Some(TypV::Pointer(inner, (pd - d) as usize))
        } else if pd == d {
            Some(*inner)
        } else {
            None
        },
        _ => None,
    }
}

/// Type of indexing into an array type.
pub open spec fn index_type(t: TypV) -> Option<TypV> {
    match t {
        TypV::Array(inner, d) => if d > 1 { Some(TypV::Array(inner, (d - 1) as usize)) } else { Some(*inner) },
        _ => None,
    }
}

/// Pointer type produced by allocating a value of type `t`.
pub open spec fn alloc_type(t: TypV) -> Option<TypV> {
    match t {
        TypV::Pointer(inner, d) => if d + 1 <= usize::MAX { Some(TypV::Pointer(inner, (d + 1) as usize)) } else { None },
        _ => Some(TypV::Pointer(Box::new(t), 1)),
    }
}

/// Array type produced by allocating an array of elements of type `t`.
pub open spec fn alloc_array_type(t: TypV) -> Option<TypV> {
    match t {
        TypV::Array(inner, d) => if d + 1 <= usize::MAX { Some(TypV::Array(inner, (d + 1) as usize)) } else { None },
        _ => Some(TypV::Array(Box::new(t), 1)),
    }
}

/// A type may be allocated on the heap.
pub open spec fn alloc_ok(m: SymbolModel, t: TypV) -> bool {
    (t matches TypV::Struct(sid) ==> m.structs.contains_key(sid)) && (t is Struct || var_type_valid(t))
}

/// An argument of type `a` may be passed for a parameter of type `p`.
pub open spec fn arg_fits(a: TypV, p: TypV) -> bool {
    a == p || (a is Null && p is Pointer)
}

/// An annotated expression is well typed in function `f` under the symbol table `m`:
/// every node carries the type that the typing rules give it.
pub open spec fn expr_ok(m: SymbolModel, f: Seq<char>, e: Expr) -> bool
    decreases e,
{
    let fm = m.functions[f];
    match e {
        Expr::Number(_) | Expr::Bool(_) | Expr::Null => true,
        Expr::Variable(v, t) => t is Some && defined(fm, v@) && annotation(t) == fm.vars[v@].typ,
        Expr::Binop(l, op, r, t) => {
            &&& expr_ok(m, f, *l)
            &&& expr_ok(m, f, *r)
            &&& compatible(type_of(*l), type_of(*r))
            &&& t is Some
            &&& binop_result(op, type_of(*l)) == Some(annotation(t))
        },
        Expr::Unop(op, x, t) => expr_ok(m, f, *x) && t is Some && annotation(t) == unop_result(op)
            && type_of(*x) == unop_result(op),
        Expr::Ternop(c, a, b, t) => {
            &&& expr_ok(m, f, *c)
            &&& expr_ok(m, f, *a)
            &&& expr_ok(m, f, *b)
            &&& type_of(*c) == TypV::Bool
            &&& compatible(type_of(*a), type_of(*b))
            &&& t is Some
            &&& annotation(t) == (if type_of(*a) == TypV::Null { type_of(*b) } else { type_of(*a) })
            &&& annotation(t) != TypV::Void
            &&& !(annotation(t) is Struct)
        },
        Expr::Call(g, args, t) => {
            &&& m.functions.contains_key(g@)
            &&& !declared(fm, g@)
            &&& fm.calls.contains(g@)
            &&& t is Some
            &&& annotation(t) == m.types[g@]
            &&& args@.len() == m.functions[g@].params.len()
            &&& forall|i: int| 0 <= i < args@.len() ==> expr_ok(m, f, #[trigger] args@[i])
                && arg_fits(type_of(args@[i]), m.functions[g@].params[i])
        },
        Expr::Deref(p, d, t) => expr_ok(m, f, *p) && t is Some && deref_type(type_of(*p), d) == Some(annotation(t)),
        Expr::ArrayIndex(a, i, t) => {
            &&& expr_ok(m, f, *a)
            &&& expr_ok(m, f, *i)
            &&& type_of(*i) == TypV::Int
            &&& t is Some
            &&& index_type(type_of(*a)) == Some(annotation(t))
        },
        Expr::StructDeref(x, fld, t) => {
            &&& expr_ok(m, f, *x)
            &&& t is Some
            &&& type_of(*x) matches TypV::Struct(sid)
            &&& m.structs.contains_key(sid)
            &&& field_lookup(m.structs[sid], fld@) == Some(annotation(t))
        },
        Expr::Alloc(t0, t) => t is Some && alloc_ok(m, t0@) && alloc_type(t0@) == Some(annotation(t)),
        Expr::AllocArray(t0, n, t) => {
            &&& expr_ok(m, f, *n)
            &&& type_of(*n) == TypV::Int
            &&& t is Some
            &&& alloc_ok(m, t0@)
            &&& alloc_array_type(t0@) == Some(annotation(t))
        },
    }
}

/// `m2` differs from `m1` at most in the calls recorded for function `f`, which only grow.
pub open spec fn calls_only(m1: SymbolModel, m2: SymbolModel, f: Seq<char>) -> bool {
    &&& m2.types == m1.types
    &&& m2.structs == m1.structs
    &&& m2.defined == m1.defined
    &&& m2.header == m1.header
    &&& m2.functions.dom() == m1.functions.dom()
    &&& forall|g: Seq<char>| g != f && #[trigger] m1.functions.contains_key(g) ==> m2.functions[g] == m1.functions[g]
    &&& m1.functions.contains_key(f) ==> {
        &&& m2.functions[f].vars == m1.functions[f].vars
        &&& m2.functions[f].params == m1.functions[f].params
        &&& m2.functions[f].scopes == m1.functions[f].scopes
        &&& m1.functions[f].calls.subset_of(m2.functions[f].calls)
    }
}

/// Typing of an expression survives further calls being recorded.
pub proof fn lemma_expr_ok_stable(m1: SymbolModel, m2: SymbolModel, f: Seq<char>, e: Expr)
    requires
        calls_only(m1, m2, f),
        m1.functions.contains_key(f),
        expr_ok(m1, f, e),
    ensures
        expr_ok(m2, f, e),
    decreases e,
{
    match e {
        Expr::Binop(l, _, r, _) => {
            lemma_expr_ok_stable(m1, m2, f, *l);
            lemma_expr_ok_stable(m1, m2, f, *r);
        },
        Expr::Unop(_, x, _) => lemma_expr_ok_stable(m1, m2, f, *x),
        Expr::Ternop(c, a, b, _) => {
            lemma_expr_ok_stable(m1, m2, f, *c);
            lemma_expr_ok_stable(m1, m2, f, *a);
            lemma_expr_ok_stable(m1, m2, f, *b);
        },
        Expr::Call(g, args, _) => {
            assert forall|i: int| 0 <= i < args@.len() implies expr_ok(m2, f, #[trigger] args@[i]) by {
                lemma_expr_ok_stable(m1, m2, f, args@[i]);
            }
        },
        Expr::Deref(p, _, _) => lemma_expr_ok_stable(m1, m2, f, *p),
        Expr::ArrayIndex(a, i, _) => {
            lemma_expr_ok_stable(m1, m2, f, *a);
            lemma_expr_ok_stable(m1, m2, f, *i);
        },
        Expr::StructDeref(x, _, _) => lemma_expr_ok_stable(m1, m2, f, *x),
        Expr::AllocArray(_, n, _) => lemma_expr_ok_stable(m1, m2, f, *n),
        _ => {},
    }
}

/// `calls_only` composes.
pub proof fn lemma_calls_only_trans(m1: SymbolModel, m2: SymbolModel, m3: SymbolModel, f: Seq<char>)
    requires
        calls_only(m1, m2, f),
        calls_only(m2, m3, f),
    ensures
        calls_only(m1, m3, f),
{
    assert forall|g: Seq<char>| g != f && #[trigger] m1.functions.contains_key(g) implies m3.functions[g] == m1.functions[g] by {
        assert(m2.functions.contains_key(g));
    }
}


/// Type of an expression made of literals, variables defined in scope and unary and
/// binary operators, by C0's typing rules: `int` literals and arithmetic, `bool`
/// literals and logic, comparisons `<`, `<=`, `>`, `>=` of ints and `==`, `!=` of
/// compatible small types giving `bool`. None for an ill-typed expression or one of
/// any other form.
pub open spec fn operator_type(m: SymbolModel, f: Seq<char>, e: Expr) -> Option<TypV>
    decreases e,
{
    let fm = m.functions[f];
    match e {
        Expr::Number(_) => Some(TypV::Int),
        Expr::Bool(_) => Some(TypV::Bool),
        Expr::Null => Some(TypV::Null),
        Expr::Variable(v, _) => if defined(fm, v@) { Some(fm.vars[v@].typ) } else { None },
        Expr::Binop(l, op, r, _) => match (operator_type(m, f, *l), operator_type(m, f, *r)) {
            (Some(a), Some(b)) => if compatible(a, b) { binop_result(op, a) } else { None },
            _ => None,
        },
        Expr::Unop(op, x, _) => if operator_type(m, f, *x) == Some(unop_result(op)) { Some(unop_result(op)) } else { None },
        _ => None,
    }
}

/// The typing of operator expressions does not depend on the calls a function records.
pub proof fn lemma_operator_type_stable(m1: SymbolModel, m2: SymbolModel, f: Seq<char>, e: Expr)
    requires
        calls_only(m1, m2, f),
        m1.functions.contains_key(f),
    ensures
        operator_type(m1, f, e) == operator_type(m2, f, e),
    decreases e,
{
    match e {
        Expr::Binop(l, _, r, _) => {
            lemma_operator_type_stable(m1, m2, f, *l);
            lemma_operator_type_stable(m1, m2, f, *r);
        },
        Expr::Unop(_, x, _) => lemma_operator_type_stable(m1, m2, f, *x),
        _ => {},
    }
}

/// Comparing two ints with `<`, `<=`, `>` or `>=` is well typed, of type `bool`.
pub proof fn lemma_int_comparison_type(m: SymbolModel, f: Seq<char>, l: Expr, op: BinOp, r: Expr, t: Option<Typ>)
    requires
        op is Lt || op is Lte || op is Gt || op is Gte,
        operator_type(m, f, l) == Some(TypV::Int),
        operator_type(m, f, r) == Some(TypV::Int),
    ensures
        operator_type(m, f, Expr::Binop(Box::new(l), op, Box::new(r), t)) == Some(TypV::Bool),
{
}

/// Error raised by semantic analysis.
fn sema_error(msg: &str) -> (r: String) {
    String::from_str(msg)
}

/// Perform semantic analysis on an expression in function `id`: annotate every node
/// with its type. On success the expression is well typed (`expr_ok`); the symbol table
/// changes at most by the calls recorded for `id`.
pub fn analyze_expr(id: &Ident, expr: &mut Expr, st: &mut SymbolTable) -> (r: Result<TcResult, String>)
    requires
        old(st).wf(),
        old(st)@.functions.contains_key(id@),
    ensures
        final(st).wf(),
        calls_only(old(st)@, final(st)@, id@),
        r matches Ok(res) ==> expr_ok(final(st)@, id@, *final(expr)) && !res.returns && res.defines@.len() == 0,
        lvalue(*final(expr)) == lvalue(*old(expr)),
        operator_type(old(st)@, id@, *old(expr)) matches Some(t) ==> r is Ok && type_of(*final(expr)) == t,
    decreases *old(expr), 1nat,
{
    let ghost m0 = st@;
    let ghost e0 = *expr;
    match expr {
        Expr::Number(_) | Expr::Bool(_) | Expr::Null => Ok(TcResult::ok()),
        Expr::Variable(var_id, typ) => {
            let ctx = st.get_function_context(id);
            let t = match ctx.get_var_type(var_id) {
                Some(t) => t,
                None => return Err(sema_error("unknown variable")),
            };
            if !ctx.is_var_defined(var_id) {
                return Err(sema_error("variable not defined in this scope"));
            }
            *typ = Some(t);
            Ok(TcResult::ok())
        },
        Expr::Binop(l_expr, bin_op, r_expr, typ) => {
            analyze_expr(id, &mut **l_expr, st)?;
            let ghost m1 = st@;
            proof {
                lemma_operator_type_stable(m0, m1, id@, **r_expr);
            }
            analyze_expr(id, &mut **r_expr, st)?;
            proof {
                lemma_expr_ok_stable(m1, st@, id@, **l_expr);
                lemma_calls_only_trans(m0, m1, st@, id@);
            }
            let e_typ = l_expr.get_type();
            let r_typ = r_expr.get_type();
            let e_null = match e_typ { Typ::Null => true, _ => false };
            let e_ptr = match e_typ { Typ::Pointer(..) => true, _ => false };
            let r_null = match r_typ { Typ::Null => true, _ => false };
            let r_ptr = match r_typ { Typ::Pointer(..) => true, _ => false };
            if !(e_typ.same(&r_typ) || (e_null && r_ptr) || (e_ptr && r_null)) {
                return Err(sema_error("binary operands must be of the same type"));
            }
            let result = match bin_op {
                BinOp::Add | BinOp::Sub | BinOp::Mul | BinOp::Div | BinOp::Mod | BinOp::And
                | BinOp::Xor | BinOp::Or | BinOp::Sal | BinOp::Sar => {
                    if !e_typ.same(&Typ::Int) {
                        return Err(sema_error("binary operator expected int"));
                    }
                    Typ::Int
                },
                BinOp::LAnd | BinOp::LOr => {
                    if !e_typ.same(&Typ::Bool) {
                        return Err(sema_error("binary operator expected bool"));
                    }
                    Typ::Bool
                },
                BinOp::CmpEq | BinOp::CmpNeq => {
                    let is_struct = match e_typ { Typ::Struct(_) => true, _ => false };
                    if e_typ.same(&Typ::Void) || is_struct {
                        return Err(sema_error("comparison does not support this type"));
                    }
                    Typ::Bool
                },
                BinOp::Lt | BinOp::Gt | BinOp::Lte | BinOp::Gte => {
                    if !e_typ.same(&Typ::Int) {
                        return Err(sema_error("binary operator expected int"));
                    }
                    Typ::Bool
                },
            };
            *typ = Some(result);
            Ok(TcResult::ok())
        },
        Expr::Unop(un_op, sub, typ) => {
            let t = match un_op {
                UnOp::Neg | UnOp::Not => Typ::Int,
                UnOp::LNot => Typ::Bool,
            };
            analyze_expr(id, &mut **sub, st)?;
            if !sub.get_type().same(&t) {
                return Err(sema_error("operand to the unary operator is of unsupported type"));
            }
            *typ = Some(t);
            Ok(TcResult::ok())
        },
        Expr::Ternop(cond_expr, if_expr, else_expr, typ) => {
            analyze_expr(id, &mut **cond_expr, st)?;
            if !cond_expr.get_type().same(&Typ::Bool) {
                return Err(sema_error("condition in ternary must evaluate to bool"));
            }
            let ghost m1 = st@;
            analyze_expr(id, &mut **if_expr, st)?;
            let ghost m2 = st@;
            analyze_expr(id, &mut **else_expr, st)?;
            proof {
                lemma_expr_ok_stable(m1, m2, id@, **cond_expr);
                lemma_expr_ok_stable(m2, st@, id@, **cond_expr);
                lemma_expr_ok_stable(m2, st@, id@, **if_expr);
                lemma_calls_only_trans(m0, m1, m2, id@);
                lemma_calls_only_trans(m0, m2, st@, id@);
            }
            let if_typ = if_expr.get_type();
            let else_typ = else_expr.get_type();
            let if_null = match if_typ { Typ::Null => true, _ => false };
            let if_ptr = match if_typ { Typ::Pointer(..) => true, _ => false };
            let else_null = match else_typ { Typ::Null => true, _ => false };
            let else_ptr = match else_typ { Typ::Pointer(..) => true, _ => false };
            if !(if_typ.same(&else_typ) || (if_null && else_ptr) || (if_ptr && else_null)) {
                return Err(sema_error("ternary arms must be of matching type"));
            }
            let e_typ = if if_null { else_typ } else { if_typ };
            let is_struct = match e_typ { Typ::Struct(_) => true, _ => false };
            if e_typ.same(&Typ::Void) || is_struct {
                return Err(sema_error("ternary does not support operating over this type"));
            }
            *typ = Some(e_typ);
            Ok(TcResult::ok())
        },
        Expr::Call(func_id, args, typ) => {
            let (ret_typ, params) = match st.get_function_signature(func_id) {
                Some(sig) => sig,
                None => return Err(sema_error("call to unknown function")),
            };
            if st.get_function_context(id).is_var_declared(func_id) {
                return Err(sema_error("function is shadowed by a variable"));
            }
            if args.len() != params.len() {
                return Err(sema_error("mismatching argument list length in function call"));
            }
            let ghost pv = st@.functions[func_id@].params;
            assert(e0 == *old(expr));
            analyze_args(id, args, &params, st, Ghost(e0))?;
            let ghost mb = st@;
            st.get_mut_function_context(id).insert_function_call(func_id.clone());
            proof {
                assert(st@.functions.dom() =~= mb.functions.dom());
                assert forall|j: int| 0 <= j < args@.len() implies expr_ok(st@, id@, #[trigger] args@[j]) by {
                    lemma_expr_ok_stable(mb, st@, id@, args@[j]);
                }
                lemma_calls_only_trans(m0, mb, st@, id@);
            }
            *typ = Some(ret_typ);
            Ok(TcResult::ok())
        },
        Expr::Deref(pointer_expr, depth, typ) => {
            analyze_expr(id, &mut **pointer_expr, st)?;
            match pointer_expr.get_type() {
                Typ::Pointer(inner, pointer_depth) => {
                    let t = if pointer_depth > *depth {
                        Typ::Pointer(inner, pointer_depth - *depth)
                    } else if pointer_depth == *depth {
                        *inner
                    } else {
                        return Err(sema_error("dimension mismatch for pointer dereference"));
                    };
                    *typ = Some(t);
                },
                _ => return Err(sema_error("bad source for pointer dereference")),
            }
            Ok(TcResult::ok())
        },
        Expr::ArrayIndex(array_expr, index_expr, typ) => {
            analyze_expr(id, &mut **array_expr, st)?;
            let ghost m1 = st@;
            analyze_expr(id, &mut **index_expr, st)?;
            proof {
                lemma_expr_ok_stable(m1, st@, id@, **array_expr);
                lemma_calls_only_trans(m0, m1, st@, id@);
            }
            if !index_expr.get_type().same(&Typ::Int) {
                return Err(sema_error("array indices must evaluate to integers"));
            }
            match array_expr.get_type() {
                Typ::Array(inner, d) => {
                    let t = if d > 1 { Typ::Array(inner, d - 1) } else { *inner };
                    *typ = Some(t);
                },
                _ => return Err(sema_error("cannot index on a non-array type")),
            }
            Ok(TcResult::ok())
        },
        Expr::StructDeref(struct_expr, field_id, typ) => {
            analyze_expr(id, &mut **struct_expr, st)?;
            match struct_expr.get_type() {
                Typ::Struct(struct_id) => {
                    if !st.is_struct_defined(&struct_id) {
                        return Err(sema_error("field access on undefined struct"));
                    }
                    match st.get_struct_field_type(&struct_id, field_id) {
                        Some(t) => {
                            *typ = Some(t);
                        },
                        None => return Err(sema_error("struct does not have this field")),
                    }
                },
                _ => return Err(sema_error("field access on a non-struct type")),
            }
            Ok(TcResult::ok())
        },
        Expr::Alloc(alloc_type, typ) => {
            let mut t0 = Typ::Void;
            std::mem::swap(&mut t0, alloc_type);
            let t = st.resolve_type(t0)?;
            let ok = check_alloc_type(&t, st);
            *alloc_type = t;
            if !ok {
                return Err(sema_error("bad type for heap allocation"));
            }
            let t = match alloc_type {
                Typ::Pointer(inner, d) => {
                    if *d == usize::MAX {
                        return Err(sema_error("pointer depth overflow"));
                    }
                    Typ::Pointer(Box::new((**inner).duplicate()), *d + 1)
                },
                _ => Typ::Pointer(Box::new(alloc_type.duplicate()), 1),
            };
            *typ = Some(t);
            Ok(TcResult::ok())
        },
        Expr::AllocArray(elem_type, size_expr, typ) => {
            let mut t0 = Typ::Void;
            std::mem::swap(&mut t0, elem_type);
            let t = st.resolve_type(t0)?;
            let ok = check_alloc_type(&t, st);
            *elem_type = t;
            if !ok {
                return Err(sema_error("bad type for heap allocation"));
            }
            analyze_expr(id, &mut **size_expr, st)?;
            if !size_expr.get_type().same(&Typ::Int) {
                return Err(sema_error("array allocation requires an integer size"));
            }
            let t = match elem_type {
                Typ::Array(inner, d) => {
                    if *d == usize::MAX {
                        return Err(sema_error("array dimensions overflow"));
                    }
                    Typ::Array(Box::new((**inner).duplicate()), *d + 1)
                },
                _ => Typ::Array(Box::new(elem_type.duplicate()), 1),
            };
            *typ = Some(t);
            Ok(TcResult::ok())
        },
    }
}

/// A type may be allocated on the heap.
fn check_alloc_type(t: &Typ, st: &SymbolTable) -> (r: bool)
    requires
        st.wf(),
    ensures
        r == alloc_ok(st@, t@),
{
    match t {
        Typ::Struct(struct_id) => st.is_struct_defined(struct_id),
        _ => is_var_type_valid(t),
    }
}


/// `m2` differs from `m1` only in the context of function `f`, whose parameters stay.
pub open spec fn frame(m1: SymbolModel, m2: SymbolModel, f: Seq<char>) -> bool {
    &&& m2.types == m1.types
    &&& m2.structs == m1.structs
    &&& m2.defined == m1.defined
    &&& m2.header == m1.header
    &&& m2.functions.dom() == m1.functions.dom()
    &&& forall|g: Seq<char>| g != f && #[trigger] m1.functions.contains_key(g) ==> m2.functions[g] == m1.functions[g]
    &&& m1.functions.contains_key(f) ==> m2.functions[f].params == m1.functions[f].params
}

/// The open scopes of function `f` are the same in both models.
pub open spec fn same_scopes(m1: SymbolModel, m2: SymbolModel, f: Seq<char>) -> bool {
    m2.functions[f].scopes.stack == m1.functions[f].scopes.stack
}

proof fn lemma_frame_trans(m1: SymbolModel, m2: SymbolModel, m3: SymbolModel, f: Seq<char>)
    requires
        frame(m1, m2, f),
        frame(m2, m3, f),
    ensures
        frame(m1, m3, f),
{
    assert forall|g: Seq<char>| g != f && #[trigger] m1.functions.contains_key(g) implies m3.functions[g] == m1.functions[g] by {
        assert(m2.functions.contains_key(g));
    }
}

proof fn lemma_calls_only_frame(m1: SymbolModel, m2: SymbolModel, f: Seq<char>)
    requires
        calls_only(m1, m2, f),
    ensures
        frame(m1, m2, f),
        m1.functions.contains_key(f) ==> same_scopes(m1, m2, f),
{
}

/// Enter a new scope in function `id`.
fn ctx_enter(id: &Ident, st: &mut SymbolTable) -> (r: Result<(), String>)
    requires
        old(st).wf(),
        old(st)@.functions.contains_key(id@),
    ensures
        final(st).wf(),
        final(st)@.functions.contains_key(id@),
        frame(old(st)@, final(st)@, id@),
        r is Ok ==> final(st)@.functions[id@].scopes.stack
            == old(st)@.functions[id@].scopes.stack.push(old(st)@.functions[id@].scopes.count),
        r is Err ==> same_scopes(old(st)@, final(st)@, id@),
        r is Ok <==> old(st)@.functions[id@].scopes.count < usize::MAX,
        r is Ok ==> final(st)@ == (SymbolModel {
            functions: old(st)@.functions.insert(id@, FunctionModel {
                scopes: crate::function_context::enter_model(old(st)@.functions[id@].scopes),
                ..old(st)@.functions[id@]
            }),
            ..old(st)@
        }),
        r is Err ==> final(st)@ == old(st)@,
{
    let ghost m = st@;
    let ctx = st.get_mut_function_context(id);
    if !ctx.can_enter_scope() {
        proof {
            assert(st@.functions.dom() =~= m.functions.dom());
            assert(st@.functions =~= m.functions);
        }
        return Err(sema_error("too many scopes"));
    }
    ctx.enter_scope();
    proof { assert(st@.functions.dom() =~= m.functions.dom()); }
    Ok(())
}

/// Leave the current scope of function `id`.
fn ctx_exit(id: &Ident, st: &mut SymbolTable)
    requires
        old(st).wf(),
        old(st)@.functions.contains_key(id@),
        old(st)@.functions[id@].scopes.stack.len() > 0,
    ensures
        final(st).wf(),
        final(st)@.functions.contains_key(id@),
        frame(old(st)@, final(st)@, id@),
        final(st)@.functions[id@].scopes.stack == old(st)@.functions[id@].scopes.stack.drop_last(),
{
    let ghost m = st@;
    st.get_mut_function_context(id).exit_scope();
    proof { assert(st@.functions.dom() =~= m.functions.dom()); }
}

/// Declare a variable in function `id`.
fn ctx_declare(id: &Ident, st: &mut SymbolTable, var: Variable) -> (r: Result<(), String>)
    requires
        old(st).wf(),
        old(st)@.functions.contains_key(id@),
    ensures
        final(st).wf(),
        final(st)@.functions.contains_key(id@),
        frame(old(st)@, final(st)@, id@),
        same_scopes(old(st)@, final(st)@, id@),
        r is Ok ==> final(st)@.functions[id@].vars.contains_key(var.1@) && final(st)@.functions[id@].vars[var.1@].typ == var.0@,
        r is Ok <==> (var.0@ != TypV::Void && !declared(old(st)@.functions[id@], var.1@)),
        r is Ok ==> final(st)@ == (SymbolModel {
            functions: old(st)@.functions.insert(id@, FunctionModel {
                vars: old(st)@.functions[id@].vars.insert(var.1@, crate::function_context::VarModel {
                    typ: var.0@,
                    decl_scope: old(st)@.functions[id@].scopes.current_id,
                    defn_scope: None,
                }),
                ..old(st)@.functions[id@]
            }),
            ..old(st)@
        }),
        r is Err ==> final(st)@ == old(st)@,
{
    let ghost m = st@;
    let r = st.get_mut_function_context(id).declare_var(var);
    proof {
        assert(st@.functions.dom() =~= m.functions.dom());
        if r is Err {
            assert(st@.functions =~= m.functions);
        }
    }
    r
}

/// Define a variable in function `id`.
fn ctx_define(id: &Ident, st: &mut SymbolTable, var: Variable) -> (r: Result<(), String>)
    requires
        old(st).wf(),
        old(st)@.functions.contains_key(id@),
    ensures
        final(st).wf(),
        final(st)@.functions.contains_key(id@),
        frame(old(st)@, final(st)@, id@),
        same_scopes(old(st)@, final(st)@, id@),
        r is Ok ==> final(st)@.functions[id@].vars.contains_key(var.1@) && final(st)@.functions[id@].vars[var.1@].typ == var.0@,
        r is Ok <==> var.0@ != TypV::Void,
        r is Ok ==> final(st)@ == (SymbolModel {
            functions: old(st)@.functions.insert(id@, FunctionModel {
                vars: old(st)@.functions[id@].vars.insert(
                    var.1@,
                    crate::function_context::defined_record(old(st)@.functions[id@], var.1@, var.0@),
                ),
                ..old(st)@.functions[id@]
            }),
            ..old(st)@
        }),
        r is Err ==> final(st)@ == old(st)@,
{
    let ghost m = st@;
    let r = st.get_mut_function_context(id).define_var(var);
    proof {
        assert(st@.functions.dom() =~= m.functions.dom());
        if r is Err {
            assert(st@.functions =~= m.functions);
        }
    }
    r
}

/// Define, in the current scope of function `id`, every variable declared but undefined.
fn ctx_define_all(id: &Ident, st: &mut SymbolTable) -> (r: Vec<Ident>)
    requires
        old(st).wf(),
        old(st)@.functions.contains_key(id@),
    ensures
        final(st).wf(),
        final(st)@.functions.contains_key(id@),
        frame(old(st)@, final(st)@, id@),
        same_scopes(old(st)@, final(st)@, id@),
        final(st)@ == (SymbolModel {
            functions: old(st)@.functions.insert(id@, FunctionModel {
                vars: crate::function_context::promote_all(old(st)@.functions[id@]),
                ..old(st)@.functions[id@]
            }),
            ..old(st)@
        }),
        ident_set(r@) == Set::new(|k: Seq<char>| declared(old(st)@.functions[id@], k) && !defined(old(st)@.functions[id@], k)),
{
    let ghost m = st@;
    let r = st.get_mut_function_context(id).define_all_vars();
    proof { assert(st@.functions.dom() =~= m.functions.dom()); }
    r
}

/// Type of a variable of function `id`, as an error when unknown.
fn ctx_var_type(id: &Ident, st: &SymbolTable, var: &Ident) -> (r: Result<Typ, String>)
    requires
        st.wf(),
        st@.functions.contains_key(id@),
    ensures
        r is Ok <==> st@.functions[id@].vars.contains_key(var@),
        r matches Ok(t) ==> t@ == st@.functions[id@].vars[var@].typ,
{
    match st.get_function_context(id).get_var_type(var) {
        Some(t) => Ok(t),
        None => Err(sema_error("unknown variable")),
    }
}

/// An expression that may be assigned to: a variable, or a dereference, index or field
/// access based on one.
pub open spec fn lvalue(e: Expr) -> bool
    decreases e,
{
    match e {
        Expr::Variable(_, _) => true,
        Expr::Deref(inner, _, _) | Expr::ArrayIndex(inner, _, _) | Expr::StructDeref(inner, _, _) => lvalue(*inner),
        _ => false,
    }
}

/// Whether an expression may be assigned to.
pub fn is_lvalue_expr(expr: &Expr) -> (r: bool)
    ensures
        r == lvalue(*expr),
    decreases expr,
{
    match expr {
        Expr::Variable(_, _) => true,
        Expr::Deref(inner, _, _) => is_lvalue_expr(&**inner),
        Expr::ArrayIndex(inner, _, _) => is_lvalue_expr(&**inner),
        Expr::StructDeref(inner, _, _) => is_lvalue_expr(&**inner),
        _ => false,
    }
}

/// Perform semantic analysis on an assignment target: an assignable expression whose
/// variable is declared. Returns the type assigned to.
pub fn analyze_assign_target(id: &Ident, expr: &mut Expr, st: &mut SymbolTable) -> (r: Result<Typ, String>)
    requires
        old(st).wf(),
        old(st)@.functions.contains_key(id@),
    ensures
        final(st).wf(),
        calls_only(old(st)@, final(st)@, id@),
        r matches Ok(t) ==> t@ == type_of(*final(expr)) && lvalue(*final(expr)),
        r is Ok && *old(expr) is Variable ==> declared(old(st)@.functions[id@], old(expr)->Variable_0@),
        r is Ok && !(*old(expr) is Variable) ==> expr_ok(final(st)@, id@, *final(expr)),
{
    let ghost m0 = st@;
    match expr {
        Expr::Variable(var_id, typ) => {
            let ctx = st.get_function_context(id);
            if !ctx.is_var_declared(var_id) {
                return Err(sema_error("variable not declared in this scope"));
            }
            let var_typ = match ctx.get_var_type(var_id) {
                Some(t) => t,
                None => return Err(sema_error("unknown variable")),
            };
            *typ = Some(var_typ.duplicate());
            Ok(var_typ)
        },
        Expr::Deref(..) | Expr::ArrayIndex(..) | Expr::StructDeref(..) => {
            let base_is_lvalue = is_lvalue_expr(expr);
            if !base_is_lvalue {
                return Err(sema_error("assignment target must be based on an lvalue expression"));
            }
            analyze_expr(id, expr, st)?;
            Ok(expr.get_type())
        },
        _ => Err(sema_error("invalid assignment target")),
    }
}


/// Analyze the arguments of a call against the parameter types of the callee.
fn analyze_args(id: &Ident, args: &mut Vec<Expr>, params: &Vec<Typ>, st: &mut SymbolTable, Ghost(e0): Ghost<Expr>) -> (r: Result<(), String>)
    requires
        old(st).wf(),
        old(st)@.functions.contains_key(id@),
        old(args)@.len() == params@.len(),
        e0 matches Expr::Call(_, a, _) && a@ == old(args)@,
    ensures
        final(st).wf(),
        calls_only(old(st)@, final(st)@, id@),
        final(args)@.len() == old(args)@.len(),
        r is Ok ==> forall|j: int| 0 <= j < final(args)@.len() ==> expr_ok(final(st)@, id@, #[trigger] final(args)@[j])
            && arg_fits(type_of(final(args)@[j]), crate::function_context::typ_views(params@)[j]),
    decreases e0, 0nat,
{
    let ghost m0 = st@;
    let ghost pv = crate::function_context::typ_views(params@);
    let ghost old_args = args@;
    let mut i: usize = 0;
    while i < args.len()
        invariant
            m0 == old(st)@,
            e0 matches Expr::Call(_, a, _) && a@ == old_args,
            old_args == old(args)@,
            args@.len() == old_args.len(),
            forall|j: int| i <= j < args@.len() ==> #[trigger] args@[j] == old_args[j],
            st.wf(),
            st@.functions.contains_key(id@),
            calls_only(m0, st@, id@),
            i <= args@.len(),
            args@.len() == params@.len(),
            crate::function_context::typ_views(params@) == pv,
            forall|j: int| 0 <= j < i ==> expr_ok(st@, id@, #[trigger] args@[j]) && arg_fits(type_of(args@[j]), pv[j]),
        decreases args@.len() - i,
    {
        let ghost mi = st@;
        let ghost before = args@;
        proof {
            assert(args@[i as int] == old_args[i as int]);
            if let Expr::Call(_, a, _) = e0 {
                assert(decreases_to!(e0 => a));
                assert(decreases_to!(a => a@));
                assert(decreases_to!(a@ => a@[i as int]));
            }
        }
        let res = analyze_expr(id, &mut args[i], st);
        let at = args[i].get_type();
        proof {
            lemma_calls_only_trans(m0, mi, st@, id@);
            assert forall|j: int| 0 <= j < i implies expr_ok(st@, id@, #[trigger] args@[j]) && arg_fits(type_of(args@[j]), pv[j]) by {
                assert(args@[j] == before[j]);
                lemma_expr_ok_stable(mi, st@, id@, before[j]);
            }
        }
        res?;
        let at_null = match at {
            Typ::Null => true,
            _ => false,
        };
        let p_ptr = match params[i] {
            Typ::Pointer(..) => true,
            _ => false,
        };
        if !(at.same(&params[i]) || (at_null && p_ptr)) {
            return Err(sema_error("argument type does not match parameter type"));
        }
        i = i + 1;
    }
    Ok(())
}


/// The identifiers of `a`, in order, that occur in `b`.
pub open spec fn idents_in(a: Seq<Ident>, b: Set<Seq<char>>) -> Seq<Ident>
    decreases a.len(),
{
    if a.len() == 0 {
        a
    } else if b.contains(a.last()@) {
        idents_in(a.drop_last(), b).push(a.last())
    } else {
        idents_in(a.drop_last(), b)
    }
}

/// Identifiers of `a` that also occur in `b`.
fn intersect_idents(a: &Vec<Ident>, b: &Vec<Ident>) -> (r: Vec<Ident>)
    ensures
        r@ == idents_in(a@, ident_set(b@)),
{
    let mut r: Vec<Ident> = Vec::new();
    let mut i: usize = 0;
    while i < a.len()
        invariant
            i <= a@.len(),
            r@ == idents_in(a@.take(i as int), ident_set(b@)),
        decreases a@.len() - i,
    {
        proof {
            assert(a@.take(i + 1).drop_last() =~= a@.take(i as int));
        }
        if crate::function_context::contains_ident(b, &a[i]) {
            r.push(a[i].clone());
        }
        i = i + 1;
    }
    proof {
        assert(a@.take(a@.len() as int) =~= a@);
    }
    r
}

/// Append identifiers to a list of identifiers.
fn extend_idents(a: &mut Vec<Ident>, b: Vec<Ident>)
    ensures
        final(a)@ == old(a)@ + b@,
{
    let mut i: usize = 0;
    while i < b.len()
        invariant
            i <= b@.len(),
            a@ == old(a)@ + b@.take(i as int),
        decreases b@.len() - i,
    {
        a.push(b[i].clone());
        proof {
            assert(b@.take(i + 1) =~= b@.take(i as int).push(b@[i as int]));
            assert(a@ =~= old(a)@ + b@.take(i + 1));
        }
        i = i + 1;
    }
    proof {
        assert(b@.take(b@.len() as int) =~= b@);
    }
}

/// The identifiers of `vars`, in order, that are declared in an open scope of `m`.
pub open spec fn declared_in(vars: Seq<Ident>, m: FunctionModel) -> Seq<Ident>
    decreases vars.len(),
{
    if vars.len() == 0 {
        vars
    } else if declared(m, vars.last()@) {
        declared_in(vars.drop_last(), m).push(vars.last())
    } else {
        declared_in(vars.drop_last(), m)
    }
}

/// Make the variables of a list defined in the current scope of function `id` when they
/// are declared in an open scope; returns those that were. Fails when such a variable
/// has type void.
fn redefine_declared(id: &Ident, st: &mut SymbolTable, vars: &Vec<Ident>) -> (r: Result<Vec<Ident>, String>)
    requires
        old(st).wf(),
        old(st)@.functions.contains_key(id@),
    ensures
        final(st).wf(),
        final(st)@.functions.contains_key(id@),
        frame(old(st)@, final(st)@, id@),
        same_scopes(old(st)@, final(st)@, id@),
        r is Ok <==> forall|i: int| 0 <= i < vars@.len() && declared(old(st)@.functions[id@], #[trigger] vars@[i]@)
            ==> old(st)@.functions[id@].vars[vars@[i]@].typ != TypV::Void,
        r matches Ok(kept) ==> kept@ == declared_in(vars@, old(st)@.functions[id@]),
{
    let ghost m0 = st@;
    let ghost f0 = st@.functions[id@];
    let mut kept: Vec<Ident> = Vec::new();
    let mut i: usize = 0;
    while i < vars.len()
        invariant
            m0 == old(st)@,
            f0 == m0.functions[id@],
            i <= vars@.len(),
            st.wf(),
            st@.functions.contains_key(id@),
            frame(m0, st@, id@),
            same_scopes(m0, st@, id@),
            forall|k: Seq<char>| #[trigger] declared(st@.functions[id@], k) == declared(f0, k),
            forall|k: Seq<char>| declared(f0, k) ==> #[trigger] st@.functions[id@].vars[k].typ == f0.vars[k].typ,
            kept@ == declared_in(vars@.take(i as int), f0),
            forall|j: int| 0 <= j < i && declared(f0, #[trigger] vars@[j]@) ==> f0.vars[vars@[j]@].typ != TypV::Void,
        decreases vars@.len() - i,
    {
        proof {
            assert(vars@.take(i + 1).drop_last() =~= vars@.take(i as int));
            assert(vars@.take(i + 1).last() == vars@[i as int]);
        }
        if st.get_function_context(id).is_var_declared(&vars[i]) {
            let t = ctx_var_type(id, st, &vars[i])?;
            let ghost mi = st@;
            let d = ctx_define(id, st, (t, vars[i].clone()));
            proof {
                lemma_frame_trans(m0, mi, st@, id@);
                if d is Ok {
                    let fi = mi.functions[id@];
                    assert forall|k: Seq<char>| #[trigger] declared(st@.functions[id@], k) == declared(f0, k) by {
                        assert(declared(fi, k) == declared(f0, k));
                    }
                    assert forall|k: Seq<char>| declared(f0, k) implies #[trigger] st@.functions[id@].vars[k].typ == f0.vars[k].typ by {
                        assert(declared(fi, k));
                    }
                }
            }
            d?;
            kept.push(vars[i].clone());
        }
        i = i + 1;
    }
    proof {
        assert(vars@.take(vars@.len() as int) =~= vars@);
    }
    Ok(kept)
}

/// The context of a function once variable `k` of type `t` is declared in its current
/// scope, and defined there too where `define`.
pub open spec fn declared_model(m: FunctionModel, k: Seq<char>, t: TypV, define: bool) -> FunctionModel {
    let d = FunctionModel {
        vars: m.vars.insert(k, crate::function_context::VarModel { typ: t, decl_scope: m.scopes.current_id, defn_scope: None }),
        ..m
    };
    if define {
        FunctionModel { vars: d.vars.insert(k, crate::function_context::defined_record(d, k, t)), ..d }
    } else {
        d
    }
}

/// Declare (and optionally define) a variable after checking its name and type.
fn analyze_declaration(id: &Ident, var: &mut Variable, st: &mut SymbolTable, define: bool) -> (r: Result<(), String>)
    requires
        old(st).wf(),
        old(st)@.functions.contains_key(id@),
    ensures
        final(st).wf(),
        final(st)@.functions.contains_key(id@),
        frame(old(st)@, final(st)@, id@),
        same_scopes(old(st)@, final(st)@, id@),
        r is Ok ==> var_type_valid(final(var).0@) && final(st)@.functions[id@].vars.contains_key(final(var).1@)
            && final(st)@.functions[id@].vars[final(var).1@].typ == final(var).0@,
        r is Ok <==> !crate::symbol_table::is_alias(old(st)@, old(var).1@) && (crate::symbol_table::resolve_in(old(st)@, old(var).0@)
            matches Some(t) && var_type_valid(t)) && !declared(old(st)@.functions[id@], old(var).1@),
        r is Ok ==> final(var).1 == old(var).1 && Some(final(var).0@) == crate::symbol_table::resolve_in(old(st)@, old(var).0@),
        r is Ok ==> final(st)@ == (SymbolModel {
            functions: old(st)@.functions.insert(id@, declared_model(old(st)@.functions[id@], final(var).1@, final(var).0@, define)),
            ..old(st)@
        }),
        r is Err ==> final(st)@ == old(st)@,
{
    let ghost m0 = st@;
    if st.is_typedef(&var.1) {
        return Err(sema_error("variable name is a type definition"));
    }
    let mut t0 = Typ::Void;
    std::mem::swap(&mut t0, &mut var.0);
    let t = st.resolve_type(t0)?;
    var.0 = t;
    if !is_var_type_valid(&var.0) {
        return Err(sema_error("variable declared with an invalid type"));
    }
    ctx_declare(id, st, (var.0.duplicate(), var.1.clone()))?;
    let ghost m1 = st@;
    let ghost f0 = m0.functions[id@];
    let ghost d = FunctionModel {
        vars: f0.vars.insert(var.1@, crate::function_context::VarModel { typ: var.0@, decl_scope: f0.scopes.current_id, defn_scope: None }),
        ..f0
    };
    proof {
        assert(m1.functions =~= m0.functions.insert(id@, d));
        assert(m1.functions[id@] == d);
    }
    if define {
        ctx_define(id, st, (var.0.duplicate(), var.1.clone()))?;
        proof {
            lemma_frame_trans(m0, m1, st@, id@);
            assert(st@.functions =~= m0.functions.insert(id@, declared_model(f0, var.1@, var.0@, define)));
        }
    } else {
        proof {
            assert(st@.functions =~= m0.functions.insert(id@, declared_model(f0, var.1@, var.0@, define)));
        }
    }
    Ok(())
}

proof fn lemma_push_drop<T>(s: Seq<T>, x: T)
    ensures
        s.push(x).drop_last() == s,
{
    assert(s.push(x).drop_last() =~= s);
}

/// Perform semantic analysis on a statement of function `id`. On success the open
/// scopes of the function are as they were; only the function's own context changes.
/// The statement always returns: a return, a conditional whose branches both return,
/// a block with a statement that returns, a `for` loop whose initialization returns.
pub open spec fn stmt_returns(s: Stmt) -> bool
    decreases s, 0nat,
{
    match s {
        Stmt::Ret(_) => true,
        Stmt::Cond(_, a, b) => stmt_returns(*a) && stmt_returns(*b),
        Stmt::For(init, _, _, _) => match *init {
            Some(i) => stmt_returns(i),
            None => false,
        },
        Stmt::Block(v) => {
            proof {
                assert(decreases_to!(s => v));
                assert(decreases_to!(v => v@));
            }
            seq_returns(v@, v@.len() as int)
        },
        _ => false,
    }
}

/// Some statement among the first `n` of `v` always returns.
pub open spec fn seq_returns(v: Seq<Stmt>, n: int) -> bool
    decreases v, n,
{
    if n <= 0 || n > v.len() {
        false
    } else {
        seq_returns(v, n - 1) || stmt_returns(v[n - 1])
    }
}

pub fn analyze_stmt(id: &Ident, stmt: &mut Stmt, st: &mut SymbolTable) -> (r: Result<TcResult, String>)
    requires
        old(st).wf(),
        old(st)@.functions.contains_key(id@),
    ensures
        final(st).wf(),
        final(st)@.functions.contains_key(id@),
        frame(old(st)@, final(st)@, id@),
        r is Ok ==> same_scopes(old(st)@, final(st)@, id@),
        r matches Ok(res) ==> res.returns == stmt_returns(*old(stmt)),
    decreases *old(stmt), 1nat,
{
    let ghost m0 = st@;
    let ghost s0 = *stmt;
    match stmt {
        Stmt::Decl(var) => {
            analyze_declaration(id, var, st, false)?;
            Ok(TcResult::ok())
        },
        Stmt::Defn(var, expr) => {
            if st.is_typedef(&var.1) {
                return Err(sema_error("variable name is a type definition"));
            }
            let mut t0 = Typ::Void;
            std::mem::swap(&mut t0, &mut var.0);
            let t = st.resolve_type(t0)?;
            var.0 = t;
            if !is_var_type_valid(&var.0) {
                return Err(sema_error("variable declared with an invalid type"));
            }
            analyze_expr(id, expr, st)?;
            proof { lemma_calls_only_frame(m0, st@, id@); }
            let et = expr.get_type();
            let is_ptr = match var.0 { Typ::Pointer(..) => true, _ => false };
            let e_null = match et { Typ::Null => true, _ => false };
            if !(var.0.same(&et) || (is_ptr && e_null)) {
                return Err(sema_error("mismatching types in defining variable"));
            }
            let ghost m1 = st@;
            ctx_declare(id, st, (var.0.duplicate(), var.1.clone()))?;
            let ghost m2 = st@;
            ctx_define(id, st, (var.0.duplicate(), var.1.clone()))?;
            proof {
                lemma_frame_trans(m0, m1, m2, id@);
                lemma_frame_trans(m0, m2, st@, id@);
            }
            let mut defines: Vec<Ident> = Vec::new();
            defines.push(var.1.clone());
            Ok(TcResult::ok_def(defines))
        },
        Stmt::Asgn(target, asn_op, expr) => {
            if *asn_op == AsnOp::Equal {
                if let Some(mut var) = resolve_pointer_mul_ambiguity(target, st) {
                    analyze_declaration(id, &mut var, st, false)?;
                    let ghost m1 = st@;
                    analyze_expr(id, expr, st)?;
                    proof { lemma_calls_only_frame(m1, st@, id@); lemma_frame_trans(m0, m1, st@, id@); }
                    let et = expr.get_type();
                    let is_ptr = match var.0 { Typ::Pointer(..) => true, _ => false };
                    let e_null = match et { Typ::Null => true, _ => false };
                    if !(var.0.same(&et) || (is_ptr && e_null)) {
                        return Err(sema_error("mismatching types in defining variable"));
                    }
                    let ghost m2 = st@;
                    ctx_define(id, st, (var.0.duplicate(), var.1.clone()))?;
                    proof { lemma_frame_trans(m0, m2, st@, id@); }
                    let mut defines: Vec<Ident> = Vec::new();
                    defines.push(var.1);
                    return Ok(TcResult::ok_def(defines));
                }
            }
            let target_var: Option<Ident> = match target {
                Expr::Variable(var_id, _) => Some(var_id.clone()),
                _ => None,
            };
            let lhs_typ = analyze_assign_target(id, target, st)?;
            let ghost m1 = st@;
            analyze_expr(id, expr, st)?;
            proof {
                lemma_calls_only_trans(m0, m1, st@, id@);
                lemma_calls_only_frame(m0, st@, id@);
            }
            if !is_var_type_valid(&lhs_typ) {
                return Err(sema_error("assignment target has an invalid type"));
            }
            let et = expr.get_type();
            if et.same(&Typ::Void) {
                return Err(sema_error("cannot assign the void type"));
            }
            if *asn_op == AsnOp::Equal {
                let is_ptr = match lhs_typ { Typ::Pointer(..) => true, _ => false };
                let e_null = match et { Typ::Null => true, _ => false };
                if !(et.same(&lhs_typ) || (is_ptr && e_null)) {
                    return Err(sema_error("mismatching types in assignment"));
                }
            } else {
                if let Some(var_id) = &target_var {
                    if !st.get_function_context(id).is_var_defined(var_id) {
                        return Err(sema_error("variable not defined in this scope"));
                    }
                }
                if let Some(binop) = asn_op.to_binop() {
                    let mut binop_expr = Expr::Binop(Box::new(target.duplicate()), binop, Box::new(expr.duplicate()), None);
                    let ghost m2 = st@;
                    analyze_expr(id, &mut binop_expr, st)?;
                    proof { lemma_calls_only_frame(m2, st@, id@); lemma_frame_trans(m0, m2, st@, id@); }
                    if !binop_expr.get_type().same(&lhs_typ) {
                        return Err(sema_error("mismatching types in assignment"));
                    }
                }
            }
            match target_var {
                Some(var_id) => {
                    let ghost m3 = st@;
                    ctx_define(id, st, (lhs_typ, var_id.clone()))?;
                    proof { lemma_frame_trans(m0, m3, st@, id@); }
                    let mut defines: Vec<Ident> = Vec::new();
                    defines.push(var_id);
                    Ok(TcResult::ok_def(defines))
                },
                None => Ok(TcResult::ok()),
            }
        },
        Stmt::Cond(cond_expr, if_stmt, else_stmt) => {
            analyze_expr(id, cond_expr, st)?;
            if !cond_expr.get_type().same(&Typ::Bool) {
                return Err(sema_error("condition expression must evaluate to bool"));
            }
            let ghost m1 = st@;
            proof { lemma_calls_only_frame(m0, m1, id@); }
            ctx_enter(id, st)?;
            let ghost m2 = st@;
            let if_res = analyze_stmt(id, &mut **if_stmt, st)?;
            let ghost m3 = st@;
            ctx_exit(id, st);
            let ghost m4 = st@;
            proof {
                lemma_push_drop(m1.functions[id@].scopes.stack, m1.functions[id@].scopes.count);
                lemma_frame_trans(m0, m1, m2, id@);
                lemma_frame_trans(m0, m2, m3, id@);
                lemma_frame_trans(m0, m3, m4, id@);
            }
            ctx_enter(id, st)?;
            let ghost m5 = st@;
            let else_res = analyze_stmt(id, &mut **else_stmt, st)?;
            let ghost m6 = st@;
            ctx_exit(id, st);
            let ghost m7 = st@;
            proof {
                lemma_push_drop(m4.functions[id@].scopes.stack, m4.functions[id@].scopes.count);
                lemma_frame_trans(m0, m4, m5, id@);
                lemma_frame_trans(m0, m5, m6, id@);
                lemma_frame_trans(m0, m6, m7, id@);
            }
            let both = intersect_idents(&if_res.defines, &else_res.defines);
            let defines = redefine_declared(id, st, &both)?;
            proof { lemma_frame_trans(m0, m7, st@, id@); }
            let mut res = TcResult::ok_def(defines);
            if if_res.returns && else_res.returns {
                res.returns = true;
            }
            Ok(res)
        },
        Stmt::While(cond_expr, body_stmt) => {
            analyze_expr(id, cond_expr, st)?;
            if !cond_expr.get_type().same(&Typ::Bool) {
                return Err(sema_error("while loop condition must evaluate to bool"));
            }
            let ghost m1 = st@;
            proof { lemma_calls_only_frame(m0, m1, id@); }
            ctx_enter(id, st)?;
            let ghost m2 = st@;
            analyze_stmt(id, &mut **body_stmt, st)?;
            let ghost m3 = st@;
            ctx_exit(id, st);
            proof {
                lemma_push_drop(m1.functions[id@].scopes.stack, m1.functions[id@].scopes.count);
                lemma_frame_trans(m0, m1, m2, id@);
                lemma_frame_trans(m0, m2, m3, id@);
                lemma_frame_trans(m0, m3, st@, id@);
            }
            Ok(TcResult::ok())
        },
        Stmt::For(init_stmt, cond_expr, step_stmt, body_stmt) => {
            let mut res = TcResult::ok();
            ctx_enter(id, st)?;
            let ghost m1 = st@;
            match &mut **init_stmt {
                Some(init) => {
                    proof {
                        if let Stmt::For(i0, _, _, _) = s0 {
                            assert(decreases_to!(s0 => i0));
                            if let Some(x) = *i0 {
                                assert(decreases_to!(i0 => x));
                            }
                        }
                    }
                    res = analyze_stmt(id, init, st)?;
                },
                None => {},
            }
            let ghost m2 = st@;
            analyze_expr(id, cond_expr, st)?;
            proof { lemma_calls_only_frame(m2, st@, id@); }
            if !cond_expr.get_type().same(&Typ::Bool) {
                return Err(sema_error("for loop condition must evaluate to bool"));
            }
            let ghost m3 = st@;
            ctx_enter(id, st)?;
            let ghost m4 = st@;
            let body_res = analyze_stmt(id, &mut **body_stmt, st)?;
            let ghost m5 = st@;
            ctx_exit(id, st);
            let ghost m6 = st@;
            proof {
                lemma_push_drop(m3.functions[id@].scopes.stack, m3.functions[id@].scopes.count);
                lemma_frame_trans(m0, m1, m2, id@);
                lemma_frame_trans(m0, m2, m3, id@);
                lemma_frame_trans(m0, m3, m4, id@);
                lemma_frame_trans(m0, m4, m5, id@);
                lemma_frame_trans(m0, m5, m6, id@);
            }
            redefine_declared(id, st, &body_res.defines)?;
            let ghost m7 = st@;
            proof { lemma_frame_trans(m0, m6, m7, id@); }
            match &mut **step_stmt {
                Some(step) => {
                    proof {
                        if let Stmt::For(_, _, s1, _) = s0 {
                            assert(decreases_to!(s0 => s1));
                            if let Some(x) = *s1 {
                                assert(decreases_to!(s1 => x));
                            }
                        }
                    }
                    analyze_stmt(id, step, st)?;
                },
                None => {},
            }
            let ghost m8 = st@;
            proof { lemma_frame_trans(m0, m7, m8, id@); }
            ctx_exit(id, st);
            let ghost m9 = st@;
            proof {
                lemma_push_drop(m0.functions[id@].scopes.stack, m0.functions[id@].scopes.count);
                lemma_frame_trans(m0, m8, m9, id@);
            }
            let kept = redefine_declared(id, st, &res.defines)?;
            proof { lemma_frame_trans(m0, m9, st@, id@); }
            res.defines = kept;
            Ok(res)
        },
        Stmt::Block(stmts) => {
            if stmts.len() == 0 {
                proof {
                    assert(!seq_returns(stmts@, 0));
                    assert(!stmt_returns(s0));
                }
                return Ok(TcResult::ok());
            }
            assert(s0 == *old(stmt));
            analyze_block(id, stmts, st, Ghost(s0))
        },
        Stmt::Ret(expr) => {
            let (typ, _) = st.get_function_signature(id).unwrap();
            match expr {
                Some(expr) => {
                    analyze_expr(id, expr, st)?;
                    proof { lemma_calls_only_frame(m0, st@, id@); }
                    let expr_typ = expr.get_type();
                    let e_ptr = match expr_typ { Typ::Pointer(..) => true, _ => false };
                    let e_null = match expr_typ { Typ::Null => true, _ => false };
                    let t_ptr = match typ { Typ::Pointer(..) => true, _ => false };
                    let t_null = match typ { Typ::Null => true, _ => false };
                    if !(expr_typ.same(&typ) || (e_ptr && t_null) || (t_ptr && e_null)) {
                        return Err(sema_error("returned value does not match the return type"));
                    }
                    if expr_typ.same(&Typ::Void) {
                        return Err(sema_error("return cannot use a void expression"));
                    }
                },
                None => {
                    if !typ.same(&Typ::Void) {
                        return Err(sema_error("returning void from a non-void function"));
                    }
                },
            }
            let ghost m1 = st@;
            let all = ctx_define_all(id, st);
            proof { lemma_frame_trans(m0, m1, st@, id@); }
            Ok(TcResult::ok_ret(all))
        },
        Stmt::Assert(expr) => {
            analyze_expr(id, expr, st)?;
            proof { lemma_calls_only_frame(m0, st@, id@); }
            if !expr.get_type().same(&Typ::Bool) {
                return Err(sema_error("assert expression must evaluate to bool"));
            }
            Ok(TcResult::ok())
        },
        Stmt::Expr(expr) => {
            if let Some(mut var) = resolve_pointer_mul_ambiguity(expr, st) {
                analyze_declaration(id, &mut var, st, false)?;
                Ok(TcResult::ok())
            } else {
                let res = analyze_expr(id, expr, st)?;
                proof { lemma_calls_only_frame(m0, st@, id@); }
                let allowed = match expr {
                    Expr::Call(..) | Expr::Alloc(..) | Expr::AllocArray(..) => true,
                    _ => match expr.get_type() {
                        Typ::Int | Typ::Bool | Typ::Pointer(..) | Typ::Array(..) | Typ::Null | Typ::Void => true,
                        _ => false,
                    },
                };
                if !allowed {
                    return Err(sema_error("bad expression statement"));
                }
                Ok(res)
            }
        },
        Stmt::NoOp() => Ok(TcResult::ok()),
    }
}


/// Analyze the statements of a non-empty block in a scope of their own.
fn analyze_block(id: &Ident, stmts: &mut Vec<Stmt>, st: &mut SymbolTable, Ghost(s0): Ghost<Stmt>) -> (r: Result<TcResult, String>)
    requires
        old(st).wf(),
        old(st)@.functions.contains_key(id@),
        s0 matches Stmt::Block(v) && v@ == old(stmts)@,
    ensures
        final(st).wf(),
        final(st)@.functions.contains_key(id@),
        frame(old(st)@, final(st)@, id@),
        r is Ok ==> same_scopes(old(st)@, final(st)@, id@),
        r matches Ok(res) ==> res.returns == seq_returns(old(stmts)@, old(stmts)@.len() as int),
    decreases s0, 0nat,
{
    let ghost m0 = st@;
    let mut block_res = TcResult::ok();
    ctx_enter(id, st)?;
    let ghost m1 = st@;
    let ghost old_stmts = stmts@;
    let mut i: usize = 0;
    while i < stmts.len()
        invariant
            m0 == old(st)@,
            old_stmts == old(stmts)@,
            s0 matches Stmt::Block(v) && v@ == old_stmts,
            old_stmts.len() == stmts@.len(),
            forall|j: int| i <= j < stmts@.len() ==> #[trigger] stmts@[j] == old_stmts[j],
            i <= stmts@.len(),
            st.wf(),
            st@.functions.contains_key(id@),
            frame(m0, st@, id@),
            m1.functions[id@].scopes.stack == m0.functions[id@].scopes.stack.push(m0.functions[id@].scopes.count),
            same_scopes(m1, st@, id@),
            block_res.returns == seq_returns(old_stmts, i as int),
        decreases stmts@.len() - i,
    {
        proof {
            assert(stmts@[i as int] == old_stmts[i as int]);
            if let Stmt::Block(v) = s0 {
                assert(decreases_to!(s0 => v));
                assert(decreases_to!(v => v@));
                assert(decreases_to!(v@ => v@[i as int]));
            }
        }
        let ghost mi = st@;
        let res = match analyze_stmt(id, &mut stmts[i], st) {
            Ok(res) => res,
            Err(e) => {
                proof { lemma_frame_trans(m0, mi, st@, id@); }
                return Err(e);
            },
        };
        proof { lemma_frame_trans(m0, mi, st@, id@); }
        extend_idents(&mut block_res.defines, res.defines);
        if res.returns && !block_res.returns {
            block_res.returns = true;
            let ghost mj = st@;
            let all = ctx_define_all(id, st);
            proof { lemma_frame_trans(m0, mj, st@, id@); }
            extend_idents(&mut block_res.defines, all);
        } else if res.returns {
            block_res.returns = true;
        }
        proof {
            assert(seq_returns(old_stmts, i + 1) == (seq_returns(old_stmts, i as int) || stmt_returns(old_stmts[i as int])));
        }
        i = i + 1;
    }
    let ghost m2 = st@;
    ctx_exit(id, st);
    proof {
        lemma_push_drop(m0.functions[id@].scopes.stack, m0.functions[id@].scopes.count);
        lemma_frame_trans(m0, m2, st@, id@);
    }
    let ghost m3 = st@;
    let kept = redefine_declared(id, st, &block_res.defines)?;
    proof { lemma_frame_trans(m0, m3, st@, id@); }
    block_res.defines = kept;
    Ok(block_res)
}


/// Add every identifier of `ids` to the set held by `to`.
fn add_idents(to: &mut Vec<Ident>, ids: &Vec<Ident>)
    ensures
        ident_set(final(to)@) == ident_set(old(to)@).union(ident_set(ids@)),
{
    let ghost t0 = to@;
    let mut i: usize = 0;
    while i < ids.len()
        invariant
            i <= ids@.len(),
            forall|k: Seq<char>| #[trigger] ident_set(to@).contains(k)
                <==> (ident_set(t0).contains(k) || exists|j: int| 0 <= j < i && (#[trigger] ids@[j])@ == k),
        decreases ids@.len() - i,
    {
        let ghost prev = to@;
        insert_ident(to, ids[i].clone());
        proof {
            assert forall|k: Seq<char>| #[trigger] ident_set(to@).contains(k)
                <==> (ident_set(t0).contains(k) || exists|j: int| 0 <= j < i + 1 && (#[trigger] ids@[j])@ == k) by {
                if k == ids@[i as int]@ {
                    assert(ident_set(to@).contains(k));
                } else if exists|j: int| 0 <= j < i + 1 && (#[trigger] ids@[j])@ == k {
                    let j = choose|j: int| 0 <= j < i + 1 && (#[trigger] ids@[j])@ == k;
                    assert(j < i);
                }
            }
        }
        i = i + 1;
    }
    assert(ident_set(to@) =~= ident_set(t0).union(ident_set(ids@)));
}

/// Perform semantic analysis on the body of function `id`, which returns `typ`; gives
/// back the functions that the body calls. Fails when the body does not pass the
/// analysis, or when a function that returns a value may finish without returning.
pub fn analyze_function(id: &Ident, ast: &mut Stmt, typ: &Typ, st: &mut SymbolTable) -> (r: Result<Vec<Ident>, String>)
    requires
        old(st).wf(),
        old(st)@.functions.contains_key(id@),
    ensures
        final(st).wf(),
        final(st)@.functions.contains_key(id@),
        frame(old(st)@, final(st)@, id@),
        r matches Ok(calls) ==> ident_set(calls@) == final(st)@.functions[id@].calls,
{
    let res = analyze_stmt(id, ast, st)?;
    if !res.returns && !typ.same(&Typ::Void) {
        return Err(sema_error("function must always return a value"));
    }
    Ok(st.get_function_context(id).get_function_calls())
}

/// Every function that some function calls is defined.
pub open spec fn calls_defined(m: SymbolModel) -> bool {
    forall|g: Seq<char>| #[trigger] m.functions.contains_key(g) ==> m.functions[g].calls.subset_of(m.defined)
}

/// Perform semantic analysis on a program made of a header and a source file, and give
/// back its symbol table. A header may not define functions; `main` is declared as a
/// function of no parameters returning `int`; every function that is called, and
/// `main`, must be defined.
pub fn analyze_program(header_ast: &mut ProgramAST, source_ast: &mut ProgramAST) -> (r: Result<SymbolTable, String>)
    ensures
        r matches Ok(st) ==> {
            &&& st.wf()
            &&& st@.defined.contains("main"@)
            &&& st@.functions.contains_key("main"@)
            &&& st@.types["main"@] == TypV::Int
            &&& st@.functions["main"@].params.len() == 0
            &&& calls_defined(st@)
            &&& forall|i: int| 0 <= i < old(header_ast)@.len() ==> !(#[trigger] old(header_ast)@[i] is FDefn)
        },
{
    let mut st = SymbolTable::new();
    let ghost h0 = header_ast@;
    let mut i: usize = 0;
    while i < header_ast.len()
        invariant
            h0 == old(header_ast)@,
            header_ast@.len() == h0.len(),
            i <= header_ast@.len(),
            st.wf(),
            forall|j: int| 0 <= j < header_ast@.len() ==> (#[trigger] header_ast@[j] is FDefn) == (h0[j] is FDefn),
            forall|j: int| 0 <= j < i ==> !(#[trigger] h0[j] is FDefn),
            forall|g: Seq<char>| #[trigger] st@.functions.contains_key(g) ==> st@.functions[g].calls == Set::<Seq<char>>::empty(),
        decreases header_ast@.len() - i,
    {
        let ghost before = header_ast@;
        match &mut header_ast[i] {
            GlobalDeclaration::TDefn(typ, tid) => {
                st.add_typedef(tid, typ)?;
            },
            GlobalDeclaration::SDefn(sid, fields) => {
                st.define_struct(sid, fields.as_mut_slice())?;
            },
            GlobalDeclaration::FDecl(typ, fid, params) => {
                let ghost m = st@;
                st.declare_function(fid, typ, params.as_mut_slice(), true)?;
                proof {
                    assert forall|g: Seq<char>| #[trigger] st@.functions.contains_key(g) implies
                        st@.functions[g].calls == Set::<Seq<char>>::empty() by {
                        if g != fid@ {
                            assert(m.functions.contains_key(g));
                        }
                    }
                }
            },
            GlobalDeclaration::FDefn(..) => {
                return Err(sema_error("function definitions are illegal in a header file"));
            },
            GlobalDeclaration::SDecl(..) => {},
        }
        proof {
            assert(before[i as int] is FDefn == (h0[i as int] is FDefn));
        }
        i = i + 1;
    }
    let main_id = String::from_str("main");
    proof { reveal_strlit("main"); }
    let mut to_define: Vec<Ident> = Vec::new();
    to_define.push(main_id.clone());
    let mut main_typ = Typ::Int;
    let mut no_params: Vec<Variable> = Vec::new();
    let ghost m = st@;
    st.declare_function(&main_id, &mut main_typ, no_params.as_mut_slice(), false)?;
    proof {
        assert(to_define@[0]@ == "main"@);
        assert forall|g: Seq<char>| #[trigger] st@.functions.contains_key(g) implies
            st@.functions[g].calls.subset_of(ident_set(to_define@)) by {
            if g != main_id@ {
                assert(m.functions.contains_key(g));
            }
        }
    }
    let mut k: usize = 0;
    while k < source_ast.len()
        invariant
            h0 == old(header_ast)@,
            forall|j: int| 0 <= j < h0.len() ==> !(#[trigger] h0[j] is FDefn),
            k <= source_ast@.len(),
            st.wf(),
            st@.functions.contains_key("main"@),
            st@.types.contains_key("main"@),
            st@.types["main"@] == TypV::Int,
            st@.functions["main"@].params.len() == 0,
            ident_set(to_define@).contains("main"@),
            forall|g: Seq<char>| #[trigger] st@.functions.contains_key(g) ==> st@.functions[g].calls.subset_of(ident_set(to_define@)),
        decreases source_ast@.len() - k,
    {
        let ghost m1 = st@;
        match &mut source_ast[k] {
            GlobalDeclaration::TDefn(typ, tid) => {
                st.add_typedef(tid, typ)?;
            },
            GlobalDeclaration::SDefn(sid, fields) => {
                st.define_struct(sid, fields.as_mut_slice())?;
            },
            GlobalDeclaration::FDecl(typ, fid, params) => {
                st.declare_function(fid, typ, params.as_mut_slice(), false)?;
                proof {
                    assert forall|g: Seq<char>| #[trigger] st@.functions.contains_key(g) implies
                        st@.functions[g].calls.subset_of(ident_set(to_define@)) by {
                        if g != fid@ {
                            assert(m1.functions.contains_key(g));
                        }
                    }
                }
            },
            GlobalDeclaration::FDefn(typ, fid, params, body) => {
                st.define_function(fid, typ, params.as_mut_slice())?;
                let ghost m2 = st@;
                let calls = analyze_function(fid, body, typ, &mut st)?;
                let ghost t0 = to_define@;
                add_idents(&mut to_define, &calls);
                proof {
                    assert forall|g: Seq<char>| #[trigger] st@.functions.contains_key(g) implies
                        st@.functions[g].calls.subset_of(ident_set(to_define@)) by {
                        if g != fid@ {
                            assert(m2.functions.contains_key(g));
                            assert(m1.functions.contains_key(g));
                        }
                    }
                    if fid@ != "main"@ {
                        assert(m2.functions.contains_key("main"@));
                    }
                }
            },
            GlobalDeclaration::SDecl(..) => {},
        }
        k = k + 1;
    }
    let mut j: usize = 0;
    while j < to_define.len()
        invariant
            j <= to_define@.len(),
            st.wf(),
            forall|q: int| 0 <= q < j ==> st@.defined.contains(#[trigger] to_define@[q]@),
        decreases to_define@.len() - j,
    {
        if !st.is_function_defined(&to_define[j]) {
            return Err(sema_error("missing definition for a called function"));
        }
        j = j + 1;
    }
    proof {
        assert(ident_set(to_define@).subset_of(st@.defined)) by {
            assert forall|k: Seq<char>| ident_set(to_define@).contains(k) implies st@.defined.contains(k) by {
                let q = choose|q: int| 0 <= q < to_define@.len() && to_define@[q]@ == k;
                assert(st@.defined.contains(to_define@[q]@));
            }
        }
    }
    Ok(st)
}

} // verus!
