use c0mpile::args::{parse_arguments, ArgError, Config, EmitTarget};
use c0mpile::ast::{BinOp, Expr, GlobalDeclaration, Stmt, Typ, UnOp};
use c0mpile::codegen::munch_program;
use c0mpile::ir::{Exception, Instr, Label, Operand};
use c0mpile::llvm::{
    array_index_elem_size, cast_to_i32, cast_to_i64, collect_function_signatures, collect_struct_definitions,
    emit_i1, emit_i32, emit_ptr, generate_declarations, generate_instr, generate_llvm, llvm_type, FunctionSignature,
    HelpersContext,
};
use c0mpile::semantics::analyze_program;
use c0mpile::symbol_table::SymbolTable;

fn s(x: &str) -> String {
    x.to_string()
}

fn konst(v: i64) -> Operand {
    Operand::Const((v, Typ::Int))
}

fn temp(id: usize, t: Typ) -> Operand {
    Operand::Temp((id, t))
}

fn int_ptr() -> Typ {
    Typ::Pointer(Box::new(Typ::Int), 1)
}

/// Lower one instruction with no signatures and no source functions.
fn lower(instr: &Instr, allow_unsafe: bool) -> (Result<String, String>, HelpersContext, usize) {
    let st = SymbolTable::new();
    let mut h = HelpersContext::new();
    let mut aux = 0usize;
    let r = generate_instr(instr, &vec![], &vec![], &st, &Typ::Int, allow_unsafe, &mut h, &mut aux);
    (r, h, aux)
}

#[test]
fn llvm_types_and_operands() {
    assert_eq!(llvm_type(&Typ::Int), Some("i32"));
    assert_eq!(llvm_type(&Typ::Bool), Some("i1"));
    assert_eq!(llvm_type(&Typ::Void), Some("void"));
    assert_eq!(llvm_type(&Typ::Struct(s("p"))), Some("ptr"));
    assert_eq!(llvm_type(&Typ::Typedef(s("t"))), None);
    assert_eq!(emit_i1(&Operand::Const((0, Typ::Bool))), Some(s("false")));
    assert_eq!(emit_i1(&temp(3, Typ::Bool)), Some(s("%t3")));
    assert_eq!(emit_i1(&temp(3, Typ::Int)), None);
    assert_eq!(emit_i32(&konst(-7)), Some(s("-7")));
    assert_eq!(emit_ptr(&Operand::Const((0, Typ::Null))), "null");
    assert_eq!(emit_ptr(&Operand::Const((16, int_ptr()))), "inttoptr (i64 16 to ptr)");
}

#[test]
fn widening_casts_number_auxiliary_values() {
    let mut aux = 4usize;
    assert_eq!(cast_to_i32(&temp(2, Typ::Bool), &mut aux), Some((s("%aux4"), s("\t%aux4 = zext i1 %t2 to i32\n"))));
    assert_eq!(aux, 5);
    assert_eq!(cast_to_i32(&temp(2, Typ::Int), &mut aux), Some((s("%t2"), s(""))));
    assert_eq!(aux, 5);
    assert_eq!(cast_to_i64(&temp(1, Typ::Int), &mut aux), Some((s("%aux5"), s("\t%aux5 = sext i32 %t1 to i64\n"))));
    assert_eq!(cast_to_i64(&konst(9), &mut aux), Some((s("9"), s(""))));
    assert_eq!(aux, 6);
    assert_eq!(cast_to_i64(&temp(1, int_ptr()), &mut aux), None);
}

#[test]
fn element_sizes() {
    let st = SymbolTable::new();
    assert_eq!(array_index_elem_size(&Typ::Array(Box::new(Typ::Int), 1), &st), Ok(4));
    assert_eq!(array_index_elem_size(&Typ::Array(Box::new(Typ::Bool), 1), &st), Ok(1));
    assert_eq!(array_index_elem_size(&Typ::Array(Box::new(Typ::Int), 2), &st), Ok(8));
    assert!(array_index_elem_size(&Typ::Int, &st).is_err());
    assert!(array_index_elem_size(&Typ::Array(Box::new(Typ::Struct(s("none"))), 1), &st).is_err());
}

#[test]
fn arithmetic_lowering() {
    let add = Instr::BinOp { op: BinOp::Add, dest: (2, Typ::Int), lhs: temp(0, Typ::Int), rhs: konst(1) };
    let (r, h, aux) = lower(&add, false);
    assert_eq!(r, Ok(s("\t%t2 = add i32 %t0, 1\n")));
    assert_eq!(h, HelpersContext::new());
    assert_eq!(aux, 0);
    let div = Instr::BinOp { op: BinOp::Div, dest: (2, Typ::Int), lhs: temp(0, Typ::Int), rhs: temp(1, Typ::Int) };
    let (r, h, _) = lower(&div, false);
    assert_eq!(r, Ok(s("\tcall void @_c0_llvm_check_div(i32 %t0, i32 %t1)\n\t%t2 = sdiv i32 %t0, %t1\n")));
    assert!(h.needs_div_check);
    let (r, h, _) = lower(&div, true);
    assert_eq!(r, Ok(s("\t%t2 = sdiv i32 %t0, %t1\n")));
    assert!(!h.needs_div_check);
    let shl = Instr::BinOp { op: BinOp::Sal, dest: (2, Typ::Int), lhs: temp(0, Typ::Int), rhs: konst(3) };
    let (r, h, _) = lower(&shl, false);
    assert_eq!(r, Ok(s("\tcall void @_c0_llvm_check_shift(i32 3)\n\t%t2 = shl i32 %t0, 3\n")));
    assert!(h.needs_shift_check);
}

#[test]
fn comparison_lowering() {
    let lt = Instr::BinOp { op: BinOp::Lt, dest: (3, Typ::Bool), lhs: temp(0, Typ::Bool), rhs: konst(1) };
    let (r, _, aux) = lower(&lt, false);
    assert_eq!(r, Ok(s("\t%aux0 = zext i1 %t0 to i32\n\t%t3 = icmp slt i32 %aux0, 1\n")));
    assert_eq!(aux, 1);
    let eq = Instr::BinOp { op: BinOp::CmpEq, dest: (3, Typ::Bool), lhs: temp(0, int_ptr()), rhs: Operand::Const((0, Typ::Null)) };
    assert_eq!(lower(&eq, false).0, Ok(s("\t%t3 = icmp eq ptr %t0, null\n")));
    let lt_ptr = Instr::BinOp { op: BinOp::Lt, dest: (3, Typ::Bool), lhs: temp(0, int_ptr()), rhs: temp(1, int_ptr()) };
    assert!(lower(&lt_ptr, false).0.is_err());
    let and = Instr::BinOp { op: BinOp::LAnd, dest: (3, Typ::Bool), lhs: temp(0, Typ::Bool), rhs: Operand::Const((1, Typ::Bool)) };
    assert_eq!(lower(&and, false).0, Ok(s("\t%t3 = and i1 %t0, true\n")));
}

#[test]
fn pointer_arithmetic_lowering() {
    let add = Instr::BinOp { op: BinOp::Add, dest: (5, int_ptr()), lhs: temp(4, int_ptr()), rhs: temp(0, Typ::Int) };
    let (r, h, aux) = lower(&add, false);
    assert_eq!(
        r,
        Ok(s("\t%aux0 = sext i32 %t0 to i64\n\t%aux1 = call ptr @_c0_llvm_check_not_null(ptr %t4)\n\t%t5 = getelementptr inbounds i8, ptr %aux1, i64 %aux0\n"))
    );
    assert!(h.needs_null_check && !h.needs_array_check);
    assert_eq!(aux, 2);
    let arr = Typ::Array(Box::new(Typ::Int), 1);
    let sub = Instr::BinOp { op: BinOp::Sub, dest: (5, arr.clone()), lhs: temp(4, arr.clone()), rhs: konst(3) };
    let (r, _, aux) = lower(&sub, true);
    assert_eq!(
        r,
        Ok(s("\t%aux0 = sub i64 0, 3\n\t%aux1 = mul i64 %aux0, 4\n\t%t5 = getelementptr inbounds i8, ptr %t4, i64 %aux1\n"))
    );
    assert_eq!(aux, 2);
    let (r, h, _) = lower(&sub, false);
    assert_eq!(
        r,
        Ok(s("\t%aux0 = sub i64 0, 3\n\t%aux1 = mul i64 %aux0, 4\n\t%aux2 = call ptr @_c0_llvm_check_not_null(ptr %t4)\n\tcall void @_c0_llvm_check_array(ptr %aux2, i64 %aux1)\n\t%t5 = getelementptr inbounds i8, ptr %aux2, i64 %aux1\n"))
    );
    assert!(h.needs_null_check && h.needs_array_check);
}

#[test]
fn control_and_data_lowering() {
    assert_eq!(lower(&Instr::Label(Label(3)), false).0, Ok(s("L3:\n")));
    assert_eq!(lower(&Instr::JumpTo(Label(2)), false).0, Ok(s("\tbr label %L2\n")));
    let br = Instr::JumpIf { pred: temp(1, Typ::Bool), holds: Label(1), fails: Label(2) };
    assert_eq!(lower(&br, false).0, Ok(s("\tbr i1 %t1, label %L1, label %L2\n")));
    assert_eq!(lower(&Instr::Return(Some(konst(0))), false).0, Ok(s("\tret i32 0\n")));
    assert_eq!(lower(&Instr::Return(None), false).0, Ok(s("\tret void\n")));
    let (r, h, _) = lower(&Instr::Throw(Exception::Abort), false);
    assert_eq!(r, Ok(s("\tcall void @abort()\n\tunreachable\n")));
    assert!(h.needs_abort);
    let phi = Instr::Phi { dest: (4, Typ::Int), srcs: vec![(Label(1), konst(1)), (Label(2), temp(3, Typ::Int))] };
    assert_eq!(lower(&phi, false).0, Ok(s("\t%t4 = phi i32 [ 1, %L1 ], [ %t3, %L2 ]\n")));
    let mv = Instr::Move { dest: (1, Typ::Bool), src: Operand::Const((1, Typ::Bool)) };
    assert_eq!(lower(&mv, false).0, Ok(s("\t%t1 = or i1 true, false\n")));
    let mv = Instr::Move { dest: (1, int_ptr()), src: temp(0, int_ptr()) };
    assert_eq!(lower(&mv, false).0, Ok(s("\t%t1 = select i1 true, ptr %t0, ptr null\n")));
    let neg = Instr::UnOp { op: UnOp::Neg, dest: (2, Typ::Int), src: temp(1, Typ::Int) };
    assert_eq!(lower(&neg, false).0, Ok(s("\t%t2 = sub i32 0, %t1\n")));
    let bad = Instr::UnOp { op: UnOp::Neg, dest: (2, Typ::Int), src: temp(1, Typ::Bool) };
    assert!(lower(&bad, false).0.is_err());
}

#[test]
fn memory_lowering() {
    let load = Instr::Load { dest: (3, Typ::Int), addr: temp(2, int_ptr()) };
    let (r, h, aux) = lower(&load, false);
    assert_eq!(r, Ok(s("\t%aux0 = call ptr @_c0_llvm_check_not_null(ptr %t2)\n\t%t3 = load i32, ptr %aux0\n")));
    assert!(h.needs_null_check);
    assert_eq!(aux, 1);
    assert_eq!(lower(&load, true).0, Ok(s("\t%t3 = load i32, ptr %t2\n")));
    let store = Instr::Store { addr: temp(2, int_ptr()), src: konst(7) };
    assert_eq!(lower(&store, true).0, Ok(s("\tstore i32 7, ptr %t2\n")));
    let alloc = Instr::Alloc { dest: (4, int_ptr()), size: konst(4) };
    let (r, h, _) = lower(&alloc, false);
    assert_eq!(r, Ok(s("\t%t4 = call ptr @calloc(i64 1, i64 4)\n")));
    assert!(h.needs_alloc);
    let arr = Instr::AllocArray { dest: (4, Typ::Array(Box::new(Typ::Int), 1)), size: konst(4), count: temp(1, Typ::Int) };
    let (r, h, _) = lower(&arr, false);
    assert_eq!(r, Ok(s("\t%aux0 = sext i32 %t1 to i64\n\t%t4 = call ptr @_c0_llvm_alloc_array(i64 %aux0, i64 4)\n")));
    assert!(h.needs_alloc && h.needs_alloc_array);
}

#[test]
fn call_lowering() {
    let st = SymbolTable::new();
    let sigs = vec![
        (s("f"), FunctionSignature { return_typ: Typ::Int, param_typs: vec![Typ::Int, Typ::Bool] }),
        (s("g"), FunctionSignature { return_typ: Typ::Void, param_typs: vec![] }),
    ];
    let defined = vec![s("f")];
    let mut h = HelpersContext::new();
    let mut aux = 0usize;
    let call = Instr::Call { dest: Some((7, Typ::Int)), name: s("f"), args: vec![konst(2), temp(1, Typ::Bool)] };
    let r = generate_instr(&call, &sigs, &defined, &st, &Typ::Int, false, &mut h, &mut aux);
    assert_eq!(r, Ok(s("\t%t7 = call i32 @_c0_f(i32 2, i1 %t1)\n")));
    let tail = Instr::TailCall { name: s("g"), args: vec![] };
    let r = generate_instr(&tail, &sigs, &defined, &st, &Typ::Void, false, &mut h, &mut aux);
    assert_eq!(r, Ok(s("\ttail call void @g()\n\tret void\n")));
    let tail_f = Instr::TailCall { name: s("f"), args: vec![konst(2), Operand::Const((0, Typ::Bool))] };
    let r = generate_instr(&tail_f, &sigs, &defined, &st, &Typ::Int, false, &mut h, &mut aux);
    assert_eq!(r, Ok(s("\t%aux0 = tail call i32 @_c0_f(i32 2, i1 false)\n\tret i32 %aux0\n")));
    let short = Instr::Call { dest: None, name: s("f"), args: vec![konst(2)] };
    assert!(generate_instr(&short, &sigs, &defined, &st, &Typ::Int, false, &mut h, &mut aux).is_err());
    let unknown = Instr::Call { dest: None, name: s("h"), args: vec![] };
    assert!(generate_instr(&unknown, &sigs, &defined, &st, &Typ::Int, false, &mut h, &mut aux).is_err());
}

#[test]
fn helpers_are_emitted_as_needed() {
    assert_eq!(HelpersContext::new().emit(), "");
    let mut h = HelpersContext::new();
    h.needs_abort = true;
    h.needs_alloc = true;
    assert_eq!(h.emit(), "declare void @abort()\ndeclare ptr @calloc(i64, i64)\n");
    let mut h = HelpersContext::new();
    h.needs_shift_check = true;
    let text = h.emit();
    assert!(text.starts_with("define internal void @_c0_llvm_check_shift(i32 %rhs) {\nL0:\n"));
    assert!(text.ends_with("}\n\ndeclare i32 @raise(i32)\n"));
}

#[test]
fn signatures_and_declarations() {
    let header = vec![
        GlobalDeclaration::FDecl(Typ::Int, s("f"), vec![(Typ::Int, s("a")), (Typ::Bool, s("b"))]),
        GlobalDeclaration::FDecl(Typ::Void, s("g"), vec![]),
        GlobalDeclaration::FDecl(Typ::Bool, s("f"), vec![(int_ptr(), s("p"))]),
    ];
    let source = vec![GlobalDeclaration::FDefn(Typ::Void, s("g"), vec![], Stmt::Block(vec![]))];
    let mut sigs = vec![];
    collect_function_signatures(&header, &mut sigs);
    collect_function_signatures(&source, &mut sigs);
    assert_eq!(sigs.len(), 2);
    assert_eq!(sigs[0].0, "f");
    assert_eq!(sigs[1].0, "g");
    let decls = generate_declarations(&sigs, &vec![s("g")]).unwrap();
    assert_eq!(decls, vec![s("declare i1 @f(ptr)")]);
}

#[test]
fn struct_types_are_defined_once() {
    let header = vec![GlobalDeclaration::SDefn(s("pt"), vec![(Typ::Int, s("x")), (Typ::Bool, s("y"))])];
    let source = vec![
        GlobalDeclaration::SDefn(s("pt"), vec![(Typ::Int, s("x"))]),
        GlobalDeclaration::SDefn(s("q"), vec![(Typ::Pointer(Box::new(Typ::Struct(s("pt"))), 1), s("p"))]),
    ];
    assert_eq!(
        collect_struct_definitions(&header, &source),
        Ok(vec![s("%struct.pt = type { i32, i1 }"), s("%struct.q = type { ptr }")])
    );
    let bad = vec![GlobalDeclaration::SDefn(s("r"), vec![(Typ::Typedef(s("t")), s("x"))])];
    assert!(collect_struct_definitions(&vec![], &bad).is_err());
}

#[test]
fn whole_program_to_llvm() {
    let mut header = vec![];
    let mut source = vec![GlobalDeclaration::FDefn(
        Typ::Int,
        s("main"),
        vec![],
        Stmt::Block(vec![Stmt::Ret(Some(Expr::Binop(
            Box::new(Expr::Number(7)),
            BinOp::Div,
            Box::new(Expr::Number(2)),
            None,
        )))]),
    )];
    let st = analyze_program(&mut header, &mut source).unwrap();
    let ir = munch_program(&source, &st).unwrap();
    let text = generate_llvm(&header, &source, &ir, &st, false).unwrap();
    assert!(text.starts_with("define i32 @_c0_main() {\nL0:\n"));
    assert!(text.contains("call void @_c0_llvm_check_div(i32 7, i32 2)\n"));
    assert!(text.contains("\tret i32 %t"));
    assert!(text.contains("define internal void @_c0_llvm_check_div(i32 %lhs, i32 %rhs) {\n"));
    assert!(text.ends_with("declare i32 @raise(i32)\n"));
    let text_unsafe = generate_llvm(&header, &source, &ir, &st, true).unwrap();
    assert!(!text_unsafe.contains("_c0_llvm_check_div"));
    assert!(text_unsafe.ends_with("}\n\n"));
}

fn args(list: &[&str]) -> Vec<String> {
    list.iter().map(|a| a.to_string()).collect()
}

#[test]
fn arguments_set_options() {
    let c = match parse_arguments(&args(&["c0c", "-O2", "--emit", "x86-64", "-l", "lib.h0", "-v", "--dump-ir", "prog.c0"])) {
        Ok(c) => c,
        Err(_) => panic!("arguments refused"),
    };
    assert_eq!(c.optimizer_level, 2);
    assert_eq!(c.target, EmitTarget::X86_64);
    assert_eq!(c.header, Some(s("lib.h0")));
    assert_eq!(c.source, Some(s("prog.c0")));
    assert!(c.verbose && c.dump_ir && !c.dump_ast && !c.check && !c.allow_unsafe);
    let c = match parse_arguments(&args(&["c0c", "-O", "-ellvm", "-u", "-t", "--dump-ast", "a.c0"])) {
        Ok(c) => c,
        Err(_) => panic!("arguments refused"),
    };
    assert_eq!(c.optimizer_level, 1);
    assert_eq!(c.target, EmitTarget::Llvm);
    assert!(c.allow_unsafe && c.check && c.dump_ast);
    let c = match parse_arguments(&args(&["c0c", "-O+7", "a.c0", "b.c0"])) {
        Ok(c) => c,
        Err(_) => panic!("arguments refused"),
    };
    assert_eq!(c.optimizer_level, 7);
    assert_eq!(c.source, Some(s("b.c0")));
}

#[test]
fn default_options() {
    let c = Config::default();
    assert_eq!(c.optimizer_level, 0);
    assert_eq!(c.target, EmitTarget::Abstract);
    assert_eq!(c.source, None);
    assert_eq!(c.header, None);
}

#[test]
fn argument_errors() {
    assert!(matches!(parse_arguments(&args(&["c0c", "-O300", "a.c0"])), Err(ArgError::InvalidOptimizationLevel)));
    assert!(matches!(parse_arguments(&args(&["c0c", "-Ox", "a.c0"])), Err(ArgError::InvalidOptimizationLevel)));
    assert!(matches!(parse_arguments(&args(&["c0c", "a.c0", "-e"])), Err(ArgError::ExpectedTarget)));
    match parse_arguments(&args(&["c0c", "-e", "wasm", "a.c0"])) {
        Err(ArgError::UnknownTarget(t)) => assert_eq!(t, "wasm"),
        _ => panic!("expected an unknown target"),
    }
    assert!(matches!(parse_arguments(&args(&["c0c", "a.c0", "--link"])), Err(ArgError::ExpectedHeader)));
    match parse_arguments(&args(&["c0c", "-x", "a.c0"])) {
        Err(ArgError::UnknownFlag(f)) => assert_eq!(f, "-x"),
        _ => panic!("expected an unknown flag"),
    }
    assert!(matches!(parse_arguments(&args(&["c0c", "-v"])), Err(ArgError::ExpectedSource)));
}
