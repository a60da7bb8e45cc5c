use c0mpile::ast::{AsnOp, BinOp, Expr, GlobalDeclaration, PostOp, Stmt, Typ, UnOp};

fn s(x: &str) -> String {
    x.to_string()
}

#[test]
fn types_as_text() {
    assert_eq!(Typ::Int.text(), "int");
    assert_eq!(Typ::Null.text(), "NULL");
    assert_eq!(Typ::Struct(s("node")).text(), "struct node");
    assert_eq!(Typ::Array(Box::new(Typ::Int), 2).text(), "int[][]");
    assert_eq!(Typ::Pointer(Box::new(Typ::Bool), 1).text(), "bool*");
    assert_eq!(Typ::Pointer(Box::new(Typ::Array(Box::new(Typ::Int), 1)), 3).text(), "int[]***");
    assert_eq!(Typ::Array(Box::new(Typ::Int), 0).text(), "int[]");
    assert_eq!(Typ::Typedef(s("tree")).text(), "tree");
}

#[test]
fn expressions_as_text() {
    let e = Expr::Binop(
        Box::new(Expr::Variable(s("x"), Some(Typ::Int))),
        BinOp::Add,
        Box::new(Expr::Number(-3)),
        None,
    );
    assert_eq!(e.text(), "Binop(Variable(\"x\", int), +, Number(-3), void)");
    let call = Expr::Call(s("f"), vec![Expr::Bool(true), Expr::Null], Some(Typ::Bool));
    assert_eq!(call.text(), "Call(\"f\", [Bool(true), NULL], bool)");
    let empty_call = Expr::Call(s("g"), vec![], None);
    assert_eq!(empty_call.text(), "Call(\"g\", [], void)");
    let deref = Expr::Deref(Box::new(Expr::Variable(s("p"), None)), 2, None);
    assert_eq!(deref.text(), "Deref(Variable(\"p\", void), 2, void)");
    let alloc = Expr::AllocArray(Typ::Int, Box::new(Expr::Number(4)), Some(Typ::Array(Box::new(Typ::Int), 1)));
    assert_eq!(alloc.text(), "AllocArray(int, Number(4), int[])");
    let un = Expr::Unop(UnOp::LNot, Box::new(Expr::Bool(false)), None);
    assert_eq!(un.text(), "Unop(!, Bool(false), void)");
    let field = Expr::StructDeref(Box::new(Expr::Variable(s("q"), None)), s("next"), None);
    assert_eq!(field.text(), "StructDeref(Variable(\"q\", void), next, void)");
}

#[test]
fn statements_as_text() {
    let block = Stmt::Block(vec![
        Stmt::Decl((Typ::Int, s("x"))),
        Stmt::Asgn(Expr::Variable(s("x"), None), AsnOp::Plus, Expr::Number(1)),
        Stmt::Ret(None),
    ]);
    assert_eq!(
        block.text(),
        "Block([Decl(int, \"x\"), Asgn(\"Variable(\"x\", void)\", +=, Number(1)), Ret(void)])"
    );
    let for_loop = Stmt::For(
        Box::new(None),
        Expr::Bool(true),
        Box::new(Some(Stmt::NoOp())),
        Box::new(Stmt::Block(vec![])),
    );
    assert_eq!(for_loop.text(), "For(, Bool(true), NoOp, Block([]))");
    let cond = Stmt::Cond(Expr::Bool(true), Box::new(Stmt::Assert(Expr::Null)), Box::new(Stmt::Expr(Expr::Number(0))));
    assert_eq!(cond.text(), "Cond(Bool(true), Assert(NULL), Expr(Number(0)))");
}

#[test]
fn declarations_as_text() {
    let f = GlobalDeclaration::FDefn(
        Typ::Int,
        s("main"),
        vec![(Typ::Int, s("a")), (Typ::Bool, s("b"))],
        Stmt::Ret(Some(Expr::Number(0))),
    );
    assert_eq!(f.text(), "int main((int, \"a\"), (bool, \"b\")):\nRet(Number(0))");
    let g = GlobalDeclaration::FDefn(Typ::Void, s("g"), vec![], Stmt::NoOp());
    assert_eq!(g.text(), "void g():\nNoOp");
    let st = GlobalDeclaration::SDefn(s("pt"), vec![(Typ::Int, s("x")), (Typ::Int, s("y"))]);
    assert_eq!(st.text(), "struct pt {int x;, int y;}");
    assert_eq!(GlobalDeclaration::TDefn(Typ::Int, s("t")).text(), "");
}

#[test]
fn operator_symbols() {
    assert_eq!(AsnOp::Sar.symbol(), ">>=");
    assert_eq!(AsnOp::Equal.symbol(), "=");
    assert_eq!(PostOp::Inc.symbol(), "++");
    assert_eq!(PostOp::Dec.symbol(), "--");
}
