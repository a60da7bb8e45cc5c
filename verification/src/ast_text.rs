//! Text of abstract syntax trees, as printed when the tree is dumped.
use vstd::prelude::*;

use crate::ast::{AsnOp, Expr, GlobalDeclaration, PostOp, Stmt, Typ, TypV, Variable};
use crate::ir_text::{binop_symbol, unop_symbol};
use crate::text::{decimal_spec, push_char, push_decimal, push_signed_decimal, push_str, signed_decimal_spec};

verus! {

/// `s` repeated `n` times.
pub open spec fn repeated(s: Seq<char>, n: nat) -> Seq<char>
    decreases n,
{
    if n == 0 {
        Seq::empty()
    } else {
        repeated(s, (n - 1) as nat) + s
    }
}

/// Number of `[]` or `*` after an array or pointer type: one per dimension, at least one.
pub open spec fn marks(d: usize) -> nat {
    if d == 0 { 1 } else { d as nat }
}

/// C0 text of a type.
pub open spec fn typ_text(t: TypV) -> Seq<char>
    decreases t,
{
    match t {
        TypV::Void => "void"@,
        TypV::Int => "int"@,
        TypV::Bool => "bool"@,
        TypV::Null => "NULL"@,
        TypV::Struct(id) => "struct "@ + id,
        TypV::Array(inner, d) => typ_text(*inner) + repeated("[]"@, marks(d)),
        TypV::Pointer(inner, d) => typ_text(*inner) + repeated("*"@, marks(d)),
        TypV::Typedef(id) => id,
    }
}

/// Text of a type annotation: `void` where there is none.
pub open spec fn annotation_text(t: Option<Typ>) -> Seq<char> {
    match t {
        Some(t) => typ_text(t@),
        None => "void"@,
    }
}

/// Symbol of an assignment operator.
pub open spec fn asn_symbol(op: AsnOp) -> Seq<char> {
    match op {
        AsnOp::Equal => "="@,
        AsnOp::Times => "*="@,
        AsnOp::Div => "/="@,
        AsnOp::Mod => "%="@,
        AsnOp::Plus => "+="@,
        AsnOp::Minus => "-="@,
        AsnOp::And => "&="@,
        AsnOp::Xor => "^="@,
        AsnOp::Or => "|="@,
        AsnOp::Sal => "<<="@,
        AsnOp::Sar => ">>="@,
    }
}

/// Symbol of a postfix operator.
pub open spec fn post_symbol(op: PostOp) -> Seq<char> {
    match op {
        PostOp::Inc => "++"@,
        PostOp::Dec => "--"@,
    }
}

/// Text of an expression: its constructor and its parts, with each annotation.
pub open spec fn expr_text(e: Expr) -> Seq<char>
    decreases e,
{
    match e {
        Expr::Number(v) => "Number("@ + signed_decimal_spec(v) + ")"@,
        Expr::Bool(b) => "Bool("@ + (if b { "true"@ } else { "false"@ }) + ")"@,
        Expr::Null => "NULL"@,
        Expr::Variable(id, t) => "Variable(\""@ + id@ + "\", "@ + annotation_text(t) + ")"@,
        Expr::Binop(l, op, r, t) => "Binop("@ + expr_text(*l) + ", "@ + binop_symbol(op) + ", "@ + expr_text(*r) + ", "@
            + annotation_text(t) + ")"@,
        Expr::Unop(op, x, t) => "Unop("@ + unop_symbol(op) + ", "@ + expr_text(*x) + ", "@ + annotation_text(t) + ")"@,
        Expr::Ternop(c, a, b, t) => "Ternop("@ + expr_text(*c) + ", "@ + expr_text(*a) + ", "@ + expr_text(*b) + ", "@
            + annotation_text(t) + ")"@,
        Expr::Call(id, args, t) => {
            proof {
                assert(decreases_to!(e => args));
                assert(decreases_to!(args => args@));
            }
            "Call(\""@ + id@ + "\", ["@ + exprs_text(args@) + "], "@ + annotation_text(t) + ")"@
        },
        Expr::Deref(x, d, t) => "Deref("@ + expr_text(*x) + ", "@ + decimal_spec(d) + ", "@ + annotation_text(t) + ")"@,
        Expr::ArrayIndex(a, i, t) => "ArrayIndex("@ + expr_text(*a) + ", "@ + expr_text(*i) + ", "@ + annotation_text(t)
            + ")"@,
        Expr::StructDeref(x, f, t) => "StructDeref("@ + expr_text(*x) + ", "@ + f@ + ", "@ + annotation_text(t) + ")"@,
        Expr::Alloc(at, t) => "Alloc("@ + typ_text(at@) + ", "@ + annotation_text(t) + ")"@,
        Expr::AllocArray(at, n, t) => "AllocArray("@ + typ_text(at@) + ", "@ + expr_text(*n) + ", "@ + annotation_text(t)
            + ")"@,
    }
}

/// Texts of expressions joined by `, `.
pub open spec fn exprs_text(s: Seq<Expr>) -> Seq<char>
    decreases s,
{
    if s.len() == 0 {
        Seq::empty()
    } else if s.len() == 1 {
        expr_text(s[0])
    } else {
        exprs_text(s.subrange(0, s.len() - 1)) + ", "@ + expr_text(s[s.len() - 1])
    }
}

/// Text of an optional statement: nothing where there is none.
pub open spec fn opt_stmt_text(s: Option<Stmt>) -> Seq<char>
    decreases s,
{
    match s {
        Some(x) => stmt_text(x),
        None => Seq::empty(),
    }
}

/// Text of a statement: its constructor and its parts.
pub open spec fn stmt_text(s: Stmt) -> Seq<char>
    decreases s,
{
    match s {
        Stmt::Decl(v) => "Decl("@ + typ_text(v.0@) + ", \""@ + v.1@ + "\")"@,
        Stmt::Defn(v, e) => "Defn("@ + typ_text(v.0@) + ", \""@ + v.1@ + "\", "@ + expr_text(e) + ")"@,
        Stmt::Asgn(l, op, r) => "Asgn(\""@ + expr_text(l) + "\", "@ + asn_symbol(op) + ", "@ + expr_text(r) + ")"@,
        Stmt::Cond(e, a, b) => "Cond("@ + expr_text(e) + ", "@ + stmt_text(*a) + ", "@ + stmt_text(*b) + ")"@,
        Stmt::While(e, b) => "While("@ + expr_text(e) + ", "@ + stmt_text(*b) + ")"@,
        Stmt::For(init, e, step, body) => "For("@ + opt_stmt_text(*init) + ", "@ + expr_text(e) + ", "@ + opt_stmt_text(
            *step,
        ) + ", "@ + stmt_text(*body) + ")"@,
        Stmt::Block(stmts) => {
            proof {
                assert(decreases_to!(s => stmts));
                assert(decreases_to!(stmts => stmts@));
            }
            "Block(["@ + stmts_text(stmts@) + "])"@
        },
        Stmt::Ret(e) => match e {
            Some(e) => "Ret("@ + expr_text(e) + ")"@,
            None => "Ret(void)"@,
        },
        Stmt::Expr(e) => "Expr("@ + expr_text(e) + ")"@,
        Stmt::Assert(e) => "Assert("@ + expr_text(e) + ")"@,
        Stmt::NoOp() => "NoOp"@,
    }
}

/// Texts of statements joined by `, `.
pub open spec fn stmts_text(s: Seq<Stmt>) -> Seq<char>
    decreases s,
{
    if s.len() == 0 {
        Seq::empty()
    } else if s.len() == 1 {
        stmt_text(s[0])
    } else {
        stmts_text(s.subrange(0, s.len() - 1)) + ", "@ + stmt_text(s[s.len() - 1])
    }
}

/// Texts of the items of a list joined by `, `, each given by `f`.
pub open spec fn list_text(vs: Seq<Variable>, f: spec_fn(Variable) -> Seq<char>) -> Seq<char>
    decreases vs.len(),
{
    if vs.len() == 0 {
        Seq::empty()
    } else if vs.len() == 1 {
        f(vs[0])
    } else {
        list_text(vs.drop_last(), f) + ", "@ + f(vs.last())
    }
}

/// A parameter: `(<type>, "<name>")`.
pub open spec fn param_text(v: Variable) -> Seq<char> {
    "("@ + typ_text(v.0@) + ", \""@ + v.1@ + "\")"@
}

/// A field: `<type> <name>;`.
pub open spec fn field_text(v: Variable) -> Seq<char> {
    typ_text(v.0@) + " "@ + v.1@ + ";"@
}

/// Text of a global declaration: a function definition with its parameters and body, or
/// a struct definition with its fields; nothing for the others.
pub open spec fn decl_text(d: GlobalDeclaration) -> Seq<char> {
    match d {
        GlobalDeclaration::FDefn(t, id, ps, body) => typ_text(t@) + " "@ + id@ + "("@ + list_text(ps@, |v: Variable| param_text(v))
            + "):\n"@ + stmt_text(body),
        GlobalDeclaration::SDefn(id, fs) => "struct "@ + id@ + " {"@ + list_text(fs@, |v: Variable| field_text(v)) + "}"@,
        _ => Seq::empty(),
    }
}

fn push_string(out: &mut String, s: &String)
    ensures
        final(out)@ == old(out)@ + s@,
{
    push_str(out, s.as_str());
}

fn push_repeated(out: &mut String, s: &str, n: usize)
    ensures
        final(out)@ == old(out)@ + repeated(s@, n as nat),
{
    let mut k: usize = 0;
    assert(old(out)@ + repeated(s@, 0) =~= old(out)@);
    while k < n
        invariant
            k <= n,
            out@ == old(out)@ + repeated(s@, k as nat),
        decreases n - k,
    {
        push_str(out, s);
        assert(old(out)@ + repeated(s@, (k + 1) as nat) =~= old(out)@ + repeated(s@, k as nat) + s@);
        k = k + 1;
    }
}

fn push_typ(out: &mut String, t: &Typ)
    ensures
        final(out)@ == old(out)@ + typ_text(t@),
    decreases t,
{
    match t {
        Typ::Void => push_str(out, "void"),
        Typ::Int => push_str(out, "int"),
        Typ::Bool => push_str(out, "bool"),
        Typ::Null => push_str(out, "NULL"),
        Typ::Struct(id) => {
            push_str(out, "struct ");
            push_string(out, id);
            assert(final(out)@ =~= old(out)@ + ("struct "@ + id@));
        },
        Typ::Array(inner, d) => {
            push_typ(out, &**inner);
            push_repeated(out, "[]", if *d == 0 { 1 } else { *d });
            assert(final(out)@ =~= old(out)@ + (typ_text((**inner)@) + repeated("[]"@, marks(*d))));
        },
        Typ::Pointer(inner, d) => {
            push_typ(out, &**inner);
            push_repeated(out, "*", if *d == 0 { 1 } else { *d });
            assert(final(out)@ =~= old(out)@ + (typ_text((**inner)@) + repeated("*"@, marks(*d))));
        },
        Typ::Typedef(id) => push_string(out, id),
    }
}

fn push_annotation(out: &mut String, t: &Option<Typ>)
    ensures
        final(out)@ == old(out)@ + annotation_text(*t),
{
    match t {
        Some(t) => push_typ(out, t),
        None => push_str(out, "void"),
    }
}

impl Typ {
    /// C0 text of the type: arrays and pointers with one `[]` or `*` per dimension.
    pub fn text(&self) -> (r: String)
        ensures
            r@ == typ_text(self@),
    {
        let mut out = String::new();
        push_typ(&mut out, self);
        assert(out@ =~= typ_text(self@));
        out
    }
}

impl AsnOp {
    /// Symbol of the assignment operator.
    pub fn symbol(&self) -> (r: &'static str)
        ensures
            r@ == asn_symbol(*self),
    {
        match self {
            AsnOp::Equal => "=",
            AsnOp::Times => "*=",
            AsnOp::Div => "/=",
            AsnOp::Mod => "%=",
            AsnOp::Plus => "+=",
            AsnOp::Minus => "-=",
            AsnOp::And => "&=",
            AsnOp::Xor => "^=",
            AsnOp::Or => "|=",
            AsnOp::Sal => "<<=",
            AsnOp::Sar => ">>=",
        }
    }
}

impl PostOp {
    /// Symbol of the postfix operator.
    pub fn symbol(&self) -> (r: &'static str)
        ensures
            r@ == post_symbol(*self),
    {
        match self {
            PostOp::Inc => "++",
            PostOp::Dec => "--",
        }
    }
}

#[verifier::spinoff_prover]
#[verifier::rlimit(60)]
fn push_expr(out: &mut String, e: &Expr)
    ensures
        final(out)@ == old(out)@ + expr_text(*e),
    decreases e,
{
    let ghost o = out@;
    match e {
        Expr::Number(v) => {
            push_str(out, "Number(");
            push_signed_decimal(out, *v);
            push_str(out, ")");
            assert(out@ =~= o + ("Number("@ + signed_decimal_spec(*v) + ")"@));
        },
        Expr::Bool(b) => {
            push_str(out, "Bool(");
            if *b {
                push_str(out, "true");
            } else {
                push_str(out, "false");
            }
            push_str(out, ")");
            assert(out@ =~= o + ("Bool("@ + (if *b { "true"@ } else { "false"@ }) + ")"@));
        },
        Expr::Null => push_str(out, "NULL"),
        Expr::Variable(id, t) => {
            push_str(out, "Variable(\"");
            push_string(out, id);
            push_str(out, "\", ");
            push_annotation(out, t);
            push_str(out, ")");
            assert(out@ =~= o + ("Variable(\""@ + id@ + "\", "@ + annotation_text(*t) + ")"@));
        },
        Expr::Binop(l, op, r, t) => {
            push_str(out, "Binop(");
            push_expr(out, &**l);
            push_str(out, ", ");
            push_str(out, op.symbol());
            push_str(out, ", ");
            push_expr(out, &**r);
            push_str(out, ", ");
            push_annotation(out, t);
            push_str(out, ")");
            assert(out@ =~= o + ("Binop("@ + expr_text(**l) + ", "@ + binop_symbol(*op) + ", "@ + expr_text(**r) + ", "@
                + annotation_text(*t) + ")"@));
        },
        Expr::Unop(op, x, t) => {
            push_str(out, "Unop(");
            push_str(out, op.symbol());
            push_str(out, ", ");
            push_expr(out, &**x);
            push_str(out, ", ");
            push_annotation(out, t);
            push_str(out, ")");
            assert(out@ =~= o + ("Unop("@ + unop_symbol(*op) + ", "@ + expr_text(**x) + ", "@ + annotation_text(*t) + ")"@));
        },
        Expr::Ternop(c, a, b, t) => {
            push_str(out, "Ternop(");
            push_expr(out, &**c);
            push_str(out, ", ");
            push_expr(out, &**a);
            push_str(out, ", ");
            push_expr(out, &**b);
            push_str(out, ", ");
            push_annotation(out, t);
            push_str(out, ")");
            assert(out@ =~= o + ("Ternop("@ + expr_text(**c) + ", "@ + expr_text(**a) + ", "@ + expr_text(**b) + ", "@
                + annotation_text(*t) + ")"@));
        },
        Expr::Call(id, args, t) => {
            push_str(out, "Call(\"");
            push_string(out, id);
            push_str(out, "\", [");
            let ghost before = out@;
            let mut k: usize = 0;
            assert(args@.subrange(0, 0) =~= Seq::<Expr>::empty());
            while k < args.len()
                invariant
                    k <= args@.len(),
                    *e == Expr::Call(*id, *args, *t),
                    out@ == before + exprs_text(args@.subrange(0, k as int)),
                decreases args@.len() - k,
            {
                proof {
                    let ee = *e;
                    if let Expr::Call(_, a, _) = ee {
                        assert(decreases_to!(ee => a));
                        assert(decreases_to!(a => a@));
                        assert(decreases_to!(a@ => a@[k as int]));
                    }
                    let p = args@.subrange(0, k + 1);
                    assert(p.subrange(0, p.len() - 1) =~= args@.subrange(0, k as int));
                    assert(p[p.len() - 1] == args@[k as int]);
                    if k == 0 {
                        assert(p[0] == args@[0]);
                    }
                }
                if k > 0 {
                    push_str(out, ", ");
                }
                push_expr(out, &args[k]);
                k = k + 1;
            }
            assert(args@.subrange(0, k as int) =~= args@);
            push_str(out, "], ");
            push_annotation(out, t);
            push_str(out, ")");
            assert(out@ =~= o + ("Call(\""@ + id@ + "\", ["@ + exprs_text(args@) + "], "@ + annotation_text(*t) + ")"@));
        },
        Expr::Deref(x, d, t) => {
            push_str(out, "Deref(");
            push_expr(out, &**x);
            push_str(out, ", ");
            push_decimal(out, *d);
            push_str(out, ", ");
            push_annotation(out, t);
            push_str(out, ")");
            assert(out@ =~= o + ("Deref("@ + expr_text(**x) + ", "@ + decimal_spec(*d) + ", "@ + annotation_text(*t) + ")"@));
        },
        Expr::ArrayIndex(a, i, t) => {
            push_str(out, "ArrayIndex(");
            push_expr(out, &**a);
            push_str(out, ", ");
            push_expr(out, &**i);
            push_str(out, ", ");
            push_annotation(out, t);
            push_str(out, ")");
            assert(out@ =~= o + ("ArrayIndex("@ + expr_text(**a) + ", "@ + expr_text(**i) + ", "@ + annotation_text(*t)
                + ")"@));
        },
        Expr::StructDeref(x, f, t) => {
            push_str(out, "StructDeref(");
            push_expr(out, &**x);
            push_str(out, ", ");
            push_string(out, f);
            push_str(out, ", ");
            push_annotation(out, t);
            push_str(out, ")");
            assert(out@ =~= o + ("StructDeref("@ + expr_text(**x) + ", "@ + f@ + ", "@ + annotation_text(*t) + ")"@));
        },
        Expr::Alloc(at, t) => {
            push_str(out, "Alloc(");
            push_typ(out, at);
            push_str(out, ", ");
            push_annotation(out, t);
            push_str(out, ")");
            assert(out@ =~= o + ("Alloc("@ + typ_text(at@) + ", "@ + annotation_text(*t) + ")"@));
        },
        Expr::AllocArray(at, n, t) => {
            push_str(out, "AllocArray(");
            push_typ(out, at);
            push_str(out, ", ");
            push_expr(out, &**n);
            push_str(out, ", ");
            push_annotation(out, t);
            push_str(out, ")");
            assert(out@ =~= o + ("AllocArray("@ + typ_text(at@) + ", "@ + expr_text(**n) + ", "@ + annotation_text(*t)
                + ")"@));
        },
    }
}

impl Expr {
    /// Text of the expression: its constructor and its parts, with each annotation.
    pub fn text(&self) -> (r: String)
        ensures
            r@ == expr_text(*self),
    {
        let mut out = String::new();
        push_expr(&mut out, self);
        assert(out@ =~= expr_text(*self));
        out
    }
}

fn push_opt_stmt(out: &mut String, s: &Option<Stmt>)
    ensures
        final(out)@ == old(out)@ + opt_stmt_text(*s),
    decreases s,
{
    match s {
        Some(x) => push_stmt(out, x),
        None => {
            assert(old(out)@ + opt_stmt_text(*s) =~= old(out)@);
        },
    }
}

fn push_stmt(out: &mut String, s: &Stmt)
    ensures
        final(out)@ == old(out)@ + stmt_text(*s),
    decreases s,
{
    let ghost o = out@;
    match s {
        Stmt::Decl(v) => {
            push_str(out, "Decl(");
            push_typ(out, &v.0);
            push_str(out, ", \"");
            push_string(out, &v.1);
            push_str(out, "\")");
            assert(out@ =~= o + ("Decl("@ + typ_text(v.0@) + ", \""@ + v.1@ + "\")"@));
        },
        Stmt::Defn(v, e) => {
            push_str(out, "Defn(");
            push_typ(out, &v.0);
            push_str(out, ", \"");
            push_string(out, &v.1);
            push_str(out, "\", ");
            push_expr(out, e);
            push_str(out, ")");
            assert(out@ =~= o + ("Defn("@ + typ_text(v.0@) + ", \""@ + v.1@ + "\", "@ + expr_text(*e) + ")"@));
        },
        Stmt::Asgn(l, op, r) => {
            push_str(out, "Asgn(\"");
            push_expr(out, l);
            push_str(out, "\", ");
            push_str(out, op.symbol());
            push_str(out, ", ");
            push_expr(out, r);
            push_str(out, ")");
            assert(out@ =~= o + ("Asgn(\""@ + expr_text(*l) + "\", "@ + asn_symbol(*op) + ", "@ + expr_text(*r) + ")"@));
        },
        Stmt::Cond(e, a, b) => {
            push_str(out, "Cond(");
            push_expr(out, e);
            push_str(out, ", ");
            push_stmt(out, &**a);
            push_str(out, ", ");
            push_stmt(out, &**b);
            push_str(out, ")");
            assert(out@ =~= o + ("Cond("@ + expr_text(*e) + ", "@ + stmt_text(**a) + ", "@ + stmt_text(**b) + ")"@));
        },
        Stmt::While(e, b) => {
            push_str(out, "While(");
            push_expr(out, e);
            push_str(out, ", ");
            push_stmt(out, &**b);
            push_str(out, ")");
            assert(out@ =~= o + ("While("@ + expr_text(*e) + ", "@ + stmt_text(**b) + ")"@));
        },
        Stmt::For(init, e, step, body) => {
            push_str(out, "For(");
            push_opt_stmt(out, &**init);
            push_str(out, ", ");
            push_expr(out, e);
            push_str(out, ", ");
            push_opt_stmt(out, &**step);
            push_str(out, ", ");
            push_stmt(out, &**body);
            push_str(out, ")");
            assert(out@ =~= o + ("For("@ + opt_stmt_text(**init) + ", "@ + expr_text(*e) + ", "@ + opt_stmt_text(**step)
                + ", "@ + stmt_text(**body) + ")"@));
        },
        Stmt::Block(stmts) => {
            push_str(out, "Block([");
            let ghost before = out@;
            let mut k: usize = 0;
            assert(stmts@.subrange(0, 0) =~= Seq::<Stmt>::empty());
            while k < stmts.len()
                invariant
                    k <= stmts@.len(),
                    *s == Stmt::Block(*stmts),
                    out@ == before + stmts_text(stmts@.subrange(0, k as int)),
                decreases stmts@.len() - k,
            {
                proof {
                    let ss = *s;
                    if let Stmt::Block(a) = ss {
                        assert(decreases_to!(ss => a));
                        assert(decreases_to!(a => a@));
                        assert(decreases_to!(a@ => a@[k as int]));
                    }
                    let p = stmts@.subrange(0, k + 1);
                    assert(p.subrange(0, p.len() - 1) =~= stmts@.subrange(0, k as int));
                    assert(p[p.len() - 1] == stmts@[k as int]);
                    if k == 0 {
                        assert(p[0] == stmts@[0]);
                    }
                }
                if k > 0 {
                    push_str(out, ", ");
                }
                push_stmt(out, &stmts[k]);
                k = k + 1;
            }
            assert(stmts@.subrange(0, k as int) =~= stmts@);
            push_str(out, "])");
            assert(out@ =~= o + ("Block(["@ + stmts_text(stmts@) + "])"@));
        },
        Stmt::Ret(e) => match e {
            Some(e) => {
                push_str(out, "Ret(");
                push_expr(out, e);
                push_str(out, ")");
                assert(out@ =~= o + ("Ret("@ + expr_text(*e) + ")"@));
            },
            None => push_str(out, "Ret(void)"),
        },
        Stmt::Expr(e) => {
            push_str(out, "Expr(");
            push_expr(out, e);
            push_str(out, ")");
            assert(out@ =~= o + ("Expr("@ + expr_text(*e) + ")"@));
        },
        Stmt::Assert(e) => {
            push_str(out, "Assert(");
            push_expr(out, e);
            push_str(out, ")");
            assert(out@ =~= o + ("Assert("@ + expr_text(*e) + ")"@));
        },
        Stmt::NoOp() => push_str(out, "NoOp"),
    }
}

impl Stmt {
    /// Text of the statement: its constructor and its parts.
    pub fn text(&self) -> (r: String)
        ensures
            r@ == stmt_text(*self),
    {
        let mut out = String::new();
        push_stmt(&mut out, self);
        assert(out@ =~= stmt_text(*self));
        out
    }
}

fn push_list(out: &mut String, vs: &Vec<Variable>, fields: bool)
    ensures
        final(out)@ == old(out)@ + list_text(
            vs@,
            if fields { |v: Variable| field_text(v) } else { |v: Variable| param_text(v) },
        ),
{
    let ghost f: spec_fn(Variable) -> Seq<char> = if fields { |v: Variable| field_text(v) } else { |v: Variable| param_text(v) };
    let ghost o = out@;
    let mut k: usize = 0;
    assert(vs@.take(0) =~= Seq::<Variable>::empty());
    while k < vs.len()
        invariant
            k <= vs@.len(),
            f == (if fields { |v: Variable| field_text(v) } else { |v: Variable| param_text(v) }),
            out@ == o + list_text(vs@.take(k as int), f),
        decreases vs@.len() - k,
    {
        proof {
            let p = vs@.take(k + 1);
            assert(p.drop_last() =~= vs@.take(k as int));
            assert(p.last() == vs@[k as int]);
            if k == 0 {
                assert(p[0] == vs@[0]);
            }
        }
        let ghost before = out@;
        if k > 0 {
            push_str(out, ", ");
        }
        let ghost mid = out@;
        let v = &vs[k];
        if fields {
            push_typ(out, &v.0);
            push_str(out, " ");
            push_string(out, &v.1);
            push_str(out, ";");
            assert(out@ =~= mid + field_text(*v));
        } else {
            push_str(out, "(");
            push_typ(out, &v.0);
            push_str(out, ", \"");
            push_string(out, &v.1);
            push_str(out, "\")");
            assert(out@ =~= mid + param_text(*v));
        }
        assert(out@ =~= o + list_text(vs@.take(k + 1), f));
        k = k + 1;
    }
    assert(vs@.take(k as int) =~= vs@);
}

impl GlobalDeclaration {
    /// Text of the declaration: a function definition with its parameters and body, or a
    /// struct definition with its fields; empty for the other declarations.
    pub fn text(&self) -> (r: String)
        ensures
            r@ == decl_text(*self),
    {
        let mut out = String::new();
        match self {
            GlobalDeclaration::FDefn(t, id, ps, body) => {
                push_typ(&mut out, t);
                push_str(&mut out, " ");
                push_string(&mut out, id);
                push_str(&mut out, "(");
                push_list(&mut out, ps, false);
                push_str(&mut out, "):\n");
                push_stmt(&mut out, body);
            },
            GlobalDeclaration::SDefn(id, fs) => {
                push_str(&mut out, "struct ");
                push_string(&mut out, id);
                push_str(&mut out, " {");
                push_list(&mut out, fs, true);
                push_str(&mut out, "}");
            },
            _ => {},
        }
        assert(out@ =~= decl_text(*self));
        out
    }
}

} // verus!
