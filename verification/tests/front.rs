use c0mpile::ast::{AsnOp, BinOp, Expr, GlobalDeclaration, PostOp, Stmt, Typ, UnOp};
use c0mpile::function_context::{FunctionContext, ScopeContext};
use c0mpile::lexer::{parse_char_literal, parse_decimal, parse_hex, skip_block_comment};
use c0mpile::semantics::{analyze_program, is_var_type_valid};
use c0mpile::symbol_table::SymbolTable;

fn s(x: &str) -> String {
    x.to_string()
}

fn main_returning(body: Vec<Stmt>) -> GlobalDeclaration {
    GlobalDeclaration::FDefn(Typ::Int, s("main"), vec![], Stmt::Block(body))
}

#[test]
fn scope_exit_undoes_enter() {
    let mut scopes = ScopeContext::new();
    let before = scopes.depth();
    scopes.enter_scope();
    assert_eq!(scopes.depth(), before + 1);
    let inner = scopes.current();
    assert!(scopes.is_active(inner));
    scopes.exit_scope();
    assert_eq!(scopes.depth(), before);
    assert!(!scopes.is_active(inner));
}

#[test]
fn declare_then_define_variable() {
    let mut ctx = FunctionContext::new(&[]);
    ctx.enter_scope();
    assert!(!ctx.is_var_declared(&s("x")));
    assert!(ctx.declare_var((Typ::Int, s("x"))).is_ok());
    assert!(ctx.is_var_declared(&s("x")));
    assert!(!ctx.is_var_defined(&s("x")));
    assert!(ctx.define_var((Typ::Int, s("x"))).is_ok());
    assert!(ctx.is_var_defined(&s("x")));
    assert!(matches!(ctx.get_var_type(&s("x")), Some(Typ::Int)));
    assert!(ctx.declare_var((Typ::Bool, s("x"))).is_err());
}

#[test]
fn parameters_are_defined() {
    let mut ctx = FunctionContext::new(&[(Typ::Int, s("a")), (Typ::Bool, s("b"))]);
    // Parameters live in the function's outermost scope, which opens with the body.
    assert!(!ctx.is_var_defined(&s("a")));
    ctx.enter_scope();
    assert!(ctx.is_var_defined(&s("a")));
    assert!(ctx.is_var_defined(&s("b")));
    assert_eq!(ctx.get_params().len(), 2);
}

#[test]
fn function_calls_recorded_once() {
    let mut ctx = FunctionContext::new(&[]);
    ctx.insert_function_call(s("f"));
    ctx.insert_function_call(s("f"));
    ctx.insert_function_call(s("g"));
    assert_eq!(ctx.get_function_calls().len(), 2);
}

#[test]
fn typedef_resolves() {
    let mut st = SymbolTable::new();
    assert!(st.add_typedef(&s("num"), &Typ::Int).is_ok());
    assert!(st.is_typedef(&s("num")));
    assert!(matches!(st.resolve_type(Typ::Typedef(s("num"))), Ok(Typ::Int)));
    assert!(st.resolve_type(Typ::Typedef(s("nothing"))).is_err());
    assert!(st.add_typedef(&s("num"), &Typ::Bool).is_err());
    assert!(st.add_typedef(&s("nil"), &Typ::Void).is_err());
}

#[test]
fn struct_fields_and_errors() {
    let mut st = SymbolTable::new();
    let mut fields = vec![(Typ::Int, s("x")), (Typ::Bool, s("y"))];
    assert!(st.define_struct(&s("point"), &mut fields).is_ok());
    assert!(st.is_struct_defined(&s("point")));
    assert!(matches!(st.get_struct_field_type(&s("point"), &s("y")), Some(Typ::Bool)));
    assert!(st.get_struct_field_type(&s("point"), &s("z")).is_none());
    assert_eq!(st.get_struct_fields(&s("point")).map(|f| f.len()), Some(2));
    let mut again = vec![(Typ::Int, s("x"))];
    assert!(st.define_struct(&s("point"), &mut again).is_err());
    let mut repeated = vec![(Typ::Int, s("x")), (Typ::Int, s("x"))];
    assert!(st.define_struct(&s("pair"), &mut repeated).is_err());
}

#[test]
fn function_declarations() {
    let mut st = SymbolTable::new();
    let mut t = Typ::Int;
    let mut params = vec![(Typ::Int, s("a"))];
    assert!(st.declare_function(&s("f"), &mut t, &mut params, false).is_ok());
    assert!(st.is_function(&s("f")));
    assert!(!st.is_function_defined(&s("f")));
    let mut t2 = Typ::Bool;
    let mut params2 = vec![(Typ::Int, s("a"))];
    assert!(st.declare_function(&s("f"), &mut t2, &mut params2, false).is_err());
    let mut t3 = Typ::Int;
    let mut params3 = vec![(Typ::Int, s("b"))];
    assert!(st.define_function(&s("f"), &mut t3, &mut params3).is_ok());
    assert!(st.is_function_defined(&s("f")));
    let mut t4 = Typ::Int;
    let mut params4 = vec![(Typ::Int, s("b"))];
    assert!(st.define_function(&s("f"), &mut t4, &mut params4).is_err());
    let mut t5 = Typ::Int;
    let mut params5 = vec![];
    assert!(st.declare_function(&s("main"), &mut t5, &mut params5, true).is_err());
    let sig = st.get_function_signature(&s("f")).unwrap();
    assert!(matches!(sig.0, Typ::Int));
    assert_eq!(sig.1.len(), 1);
}

#[test]
fn variable_types() {
    assert!(is_var_type_valid(&Typ::Int));
    assert!(is_var_type_valid(&Typ::Pointer(Box::new(Typ::Int), 1)));
    assert!(!is_var_type_valid(&Typ::Void));
}

#[test]
fn operator_elaboration() {
    assert!(matches!(PostOp::Inc.to_binop(), BinOp::Add));
    assert!(matches!(PostOp::Dec.to_binop(), BinOp::Sub));
    assert!(matches!(AsnOp::Plus.to_binop(), Some(BinOp::Add)));
    assert!(AsnOp::Equal.to_binop().is_none());
}

#[test]
fn program_returning_constant_passes() {
    let mut header = vec![];
    let mut source = vec![main_returning(vec![Stmt::Ret(Some(Expr::Number(3)))])];
    let st = analyze_program(&mut header, &mut source).unwrap();
    assert!(st.is_function_defined(&s("main")));
}

#[test]
fn program_without_return_fails() {
    let mut header = vec![];
    let mut source = vec![main_returning(vec![Stmt::NoOp()])];
    assert!(analyze_program(&mut header, &mut source).is_err());
}

#[test]
fn program_without_main_fails() {
    let mut header = vec![];
    let mut source = vec![GlobalDeclaration::FDefn(
        Typ::Int,
        s("f"),
        vec![],
        Stmt::Block(vec![Stmt::Ret(Some(Expr::Number(0)))]),
    )];
    assert!(analyze_program(&mut header, &mut source).is_err());
}

#[test]
fn header_may_not_define_functions() {
    let mut header = vec![main_returning(vec![Stmt::Ret(Some(Expr::Number(0)))])];
    let mut source = vec![];
    assert!(analyze_program(&mut header, &mut source).is_err());
}

#[test]
fn call_of_undefined_function_fails() {
    let mut header = vec![];
    let mut source = vec![
        GlobalDeclaration::FDecl(Typ::Int, s("g"), vec![]),
        main_returning(vec![Stmt::Ret(Some(Expr::Call(s("g"), vec![], None)))]),
    ];
    assert!(analyze_program(&mut header, &mut source).is_err());
}

#[test]
fn call_of_header_function_passes() {
    let mut header = vec![GlobalDeclaration::FDecl(Typ::Int, s("g"), vec![(Typ::Int, s("x"))])];
    let mut source = vec![main_returning(vec![Stmt::Ret(Some(Expr::Call(s("g"), vec![Expr::Number(1)], None)))])];
    let st = analyze_program(&mut header, &mut source).unwrap();
    assert!(st.is_header_function(&s("g")));
}

#[test]
fn type_mismatch_fails() {
    let mut header = vec![];
    let mut source = vec![main_returning(vec![
        Stmt::Defn((Typ::Int, s("x")), Expr::Bool(true)),
        Stmt::Ret(Some(Expr::Variable(s("x"), None))),
    ])];
    assert!(analyze_program(&mut header, &mut source).is_err());
}

#[test]
fn use_of_undefined_variable_fails() {
    let mut header = vec![];
    let mut source = vec![main_returning(vec![
        Stmt::Decl((Typ::Int, s("x"))),
        Stmt::Ret(Some(Expr::Variable(s("x"), None))),
    ])];
    assert!(analyze_program(&mut header, &mut source).is_err());
}

#[test]
fn both_branches_returning_returns() {
    let mut header = vec![];
    let mut source = vec![main_returning(vec![Stmt::Cond(
        Expr::Bool(true),
        Box::new(Stmt::Ret(Some(Expr::Number(1)))),
        Box::new(Stmt::Ret(Some(Expr::Number(2)))),
    )])];
    assert!(analyze_program(&mut header, &mut source).is_ok());
}

#[test]
fn arithmetic_annotates_types() {
    let mut header = vec![];
    let mut source = vec![main_returning(vec![Stmt::Ret(Some(Expr::Binop(
        Box::new(Expr::Number(1)),
        BinOp::Add,
        Box::new(Expr::Unop(UnOp::Neg, Box::new(Expr::Number(2)), None)),
        None,
    )))])];
    assert!(analyze_program(&mut header, &mut source).is_ok());
    if let GlobalDeclaration::FDefn(_, _, _, Stmt::Block(body)) = &source[0] {
        if let Stmt::Ret(Some(e)) = &body[0] {
            assert!(matches!(e.get_type(), Typ::Int));
            return;
        }
    }
    panic!("unexpected shape");
}

#[test]
fn decimal_constants() {
    assert_eq!(parse_decimal(b"0"), Some(0));
    assert_eq!(parse_decimal(b"42"), Some(42));
    assert_eq!(parse_decimal(b"2147483648"), Some(2147483648));
    assert_eq!(parse_decimal(b"2147483649"), None);
    assert_eq!(parse_decimal(b""), None);
    assert_eq!(parse_decimal(b"4a"), None);
}

#[test]
fn hexadecimal_constants() {
    assert_eq!(parse_hex(b"ff"), Some(255));
    assert_eq!(parse_hex(b"FFFFFFFF"), Some(4294967295));
    assert_eq!(parse_hex(b"100000000"), None);
    assert_eq!(parse_hex(b"g"), None);
}

#[test]
fn character_literals() {
    assert_eq!(parse_char_literal(b"a"), Some(97));
    assert_eq!(parse_char_literal(b"\\n"), Some(10));
    assert_eq!(parse_char_literal(b"\\0"), Some(0));
    assert_eq!(parse_char_literal(b"\\\\"), Some(92));
    assert_eq!(parse_char_literal(b"\\q"), None);
    assert_eq!(parse_char_literal(&[7]), None);
}

#[test]
fn nested_block_comments() {
    assert_eq!(skip_block_comment(b" plain */ int"), Some(9));
    assert_eq!(skip_block_comment(b" a /* b */ c */x"), Some(15));
    assert_eq!(skip_block_comment(b" never closed"), None);
    assert_eq!(skip_block_comment(b" /* */"), None);
}

#[test]
fn conditional_returns_only_when_both_branches_return() {
    let mut st = SymbolTable::new();
    let mut t = Typ::Int;
    let mut params: Vec<(Typ, String)> = vec![];
    assert!(st.define_function(&s("f"), &mut t, &mut params).is_ok());
    let mut stmt = Stmt::Cond(
        Expr::Bool(true),
        Box::new(Stmt::Ret(Some(Expr::Number(1)))),
        Box::new(Stmt::NoOp()),
    );
    let res = c0mpile::semantics::analyze_stmt(&s("f"), &mut stmt, &mut st).unwrap();
    assert!(!res.returns);
    assert!(res.defines.is_empty());
    let mut both = Stmt::Cond(
        Expr::Bool(true),
        Box::new(Stmt::Ret(Some(Expr::Number(1)))),
        Box::new(Stmt::Ret(Some(Expr::Number(2)))),
    );
    let res2 = c0mpile::semantics::analyze_stmt(&s("f"), &mut both, &mut st).unwrap();
    assert!(res2.returns);
}
