use c0mpile::ast::{BinOp, Expr, GlobalDeclaration, Stmt, Typ, UnOp};
use c0mpile::cfg::{
    compute_uses_of_all_temps, get_block_labels_in_rpo, get_dest_temp_from_instruction,
    get_operands_from_instruction, get_predecessors_for_all_blocks, get_reachable_labels,
    get_successors_of_block,
};
use c0mpile::codegen::{munch_program, type_size_bytes};
use c0mpile::ir::{BasicBlock, IRContext, Instr, Label, Operand};
use c0mpile::lattice::{get_lattice_value_of_operand, join_lattice, same_value, update_lattice, LatticeValue};
use c0mpile::regalloc::{color_to_register, register_allocation, register_to_color, spill_all_temps, SPILL};
use c0mpile::semantics::analyze_program;
use c0mpile::x86asm::{Immediate, StackVar, Width, X86Instr, X86Operand, X86Reg, X86WReg};
use c0mpile::x86codegen::generate_assembly;
use c0mpile::x86ctx::{format_label, generate_traps, signed_immediate_value, Trap, X86Context};

fn s(x: &str) -> String {
    x.to_string()
}

fn int_const(v: i64) -> Operand {
    Operand::Const((v, Typ::Int))
}

fn reg(r: X86Reg, w: Width) -> X86Operand {
    X86Operand::Register(X86WReg { register: r, width: w })
}

fn imm(v: i64, w: Width) -> X86Operand {
    X86Operand::Immediate(Immediate { value: v, width: w })
}

fn empty_context() -> X86Context {
    let ir = IRContext::new();
    X86Context::new(vec![], 0, s(".L_f_"), &ir, &vec![], 0).unwrap()
}

/// A diamond: 0 branches to 1 and 2, which both jump to 3.
fn diamond() -> IRContext {
    let mut ctx = IRContext::new();
    let l1 = ctx.create_block();
    let l2 = ctx.create_block();
    let l3 = ctx.create_block();
    let t = ctx.create_temp(Typ::Bool);
    ctx.add_instr_to_block(Instr::Move { dest: (t.0, Typ::Bool), src: Operand::Const((1, Typ::Bool)) });
    ctx.set_block_terminator(Instr::JumpIf { pred: Operand::Temp(t), holds: l1, fails: l2 });
    ctx.switch_to_block(l1);
    ctx.set_block_terminator(Instr::JumpTo(l3));
    ctx.switch_to_block(l2);
    ctx.set_block_terminator(Instr::JumpTo(l3));
    ctx.switch_to_block(l3);
    ctx.set_block_terminator(Instr::Return(None));
    ctx
}

#[test]
fn new_context_has_entry_block() {
    let ctx = IRContext::new();
    assert_eq!(ctx.get_temps_count(), 0);
    assert_eq!(ctx.current_label(), Label(0));
    assert!(ctx.get_block(Label(0)).unwrap().sealed);
    assert!(ctx.get_block(Label(1)).is_none());
}

#[test]
fn blocks_and_temps_are_numbered() {
    let mut ctx = IRContext::new();
    assert_eq!(ctx.create_block(), Label(1));
    assert_eq!(ctx.create_block(), Label(2));
    let t0 = ctx.create_temp(Typ::Int);
    let t1 = ctx.create_temp(Typ::Bool);
    assert_eq!((t0.0, t1.0), (0, 1));
    assert_eq!(ctx.get_temps_count(), 2);
}

#[test]
fn read_gives_back_write() {
    let mut ctx = IRContext::new();
    let t = ctx.create_temp(Typ::Int);
    ctx.write_variable(&s("x"), (t.0, Typ::Int), Label(0));
    let r = ctx.read_variable(&s("x"), Label(0)).unwrap();
    assert_eq!(r.0, t.0);
    assert!(ctx.read_variable(&s("y"), Label(0)).is_none());
}

#[test]
fn merge_of_two_definitions_makes_a_phi() {
    let mut ctx = IRContext::new();
    let l1 = ctx.create_block();
    let l2 = ctx.create_block();
    let l3 = ctx.create_block();
    let a = ctx.create_temp(Typ::Int);
    let b = ctx.create_temp(Typ::Int);
    ctx.write_variable(&s("x"), (a.0, Typ::Int), l1);
    ctx.write_variable(&s("x"), (b.0, Typ::Int), l2);
    ctx.switch_to_block(l3);
    ctx.add_pred_to_block(l1);
    ctx.add_pred_to_block(l2);
    ctx.seal_block(l3);
    let r = ctx.read_variable(&s("x"), l3).unwrap();
    assert_eq!(r.0, 2);
    let merge = ctx.get_block(l3).unwrap();
    assert!(matches!(&merge.body[0], Instr::Phi { dest, srcs } if dest.0 == 2 && srcs.len() == 2));
}

#[test]
fn same_definition_needs_no_phi() {
    let mut ctx = IRContext::new();
    let l1 = ctx.create_block();
    let l2 = ctx.create_block();
    let a = ctx.create_temp(Typ::Int);
    ctx.write_variable(&s("x"), (a.0, Typ::Int), Label(0));
    ctx.switch_to_block(l1);
    ctx.add_pred_to_block(Label(0));
    ctx.seal_block(l1);
    ctx.switch_to_block(l2);
    ctx.add_pred_to_block(Label(0));
    ctx.add_pred_to_block(l1);
    ctx.seal_block(l2);
    let r = ctx.read_variable(&s("x"), l2).unwrap();
    assert_eq!(r.0, a.0);
    ctx.finalize_trivial_phis();
    assert!(ctx.get_block(l2).unwrap().body.iter().all(|i| !matches!(i, Instr::Phi { .. })));
}

#[test]
fn successors_and_operands() {
    let mut b = BasicBlock::new(Label(4));
    assert!(get_successors_of_block(&b).is_empty());
    b.terminator = Some(Instr::JumpIf { pred: int_const(1), holds: Label(5), fails: Label(6) });
    assert_eq!(get_successors_of_block(&b), vec![Label(5), Label(6)]);
    let i = Instr::BinOp { op: BinOp::Add, dest: (3, Typ::Int), lhs: int_const(1), rhs: Operand::Temp((2, Typ::Int)) };
    assert_eq!(get_dest_temp_from_instruction(&i).map(|t| t.0), Some(3));
    let ops = get_operands_from_instruction(&i);
    assert_eq!(ops.len(), 2);
    assert!(matches!(ops[1], Operand::Temp((2, _))));
    let st = Instr::Store { addr: Operand::Temp((7, Typ::Int)), src: int_const(0) };
    assert!(get_dest_temp_from_instruction(&st).is_none());
    assert_eq!(get_operands_from_instruction(&Instr::Return(None)).len(), 0);
}

#[test]
fn reverse_post_order_of_a_diamond() {
    let ctx = diamond();
    let order = get_block_labels_in_rpo(&ctx);
    assert_eq!(order.len(), 4);
    assert_eq!(order[0], Label(0));
    assert_eq!(order[3], Label(3));
    let reachable = get_reachable_labels(&ctx);
    assert_eq!(reachable.len(), 4);
}

#[test]
fn unreachable_block_is_left_out() {
    let mut ctx = diamond();
    let lost = ctx.create_block();
    ctx.switch_to_block(lost);
    ctx.set_block_terminator(Instr::JumpTo(Label(3)));
    let order = get_block_labels_in_rpo(&ctx);
    assert!(!order.contains(&lost));
    let preds = get_predecessors_for_all_blocks(&ctx);
    assert_eq!(preds[3].len(), 3);
    assert!(preds[3].contains(&lost));
    assert_eq!(preds[0].len(), 0);
}

#[test]
fn linear_code_follows_the_order() {
    let ctx = diamond();
    let code = ctx.linearize();
    assert_eq!(code.len(), 4 + 1 + 4);
    assert!(matches!(code[0], Instr::Label(Label(0))));
    assert!(matches!(code[1], Instr::Move { .. }));
    assert!(matches!(code[code.len() - 1], Instr::Return(None)));
}

#[test]
fn uses_are_counted() {
    let ctx = diamond();
    let uses = compute_uses_of_all_temps(&ctx);
    assert_eq!(uses, vec![1]);
}

#[test]
fn lattice_join() {
    let c = || LatticeValue::Const((5, Typ::Int));
    assert!(same_value(&join_lattice(LatticeValue::Undefined, c()), &c()));
    assert!(same_value(&join_lattice(c(), c()), &c()));
    assert!(same_value(&join_lattice(c(), LatticeValue::Const((6, Typ::Int))), &LatticeValue::Overdefined));
    assert!(same_value(&join_lattice(LatticeValue::Overdefined, c()), &LatticeValue::Overdefined));
}

#[test]
fn lattice_updates_move_up() {
    let mut lattice = vec![];
    assert!(update_lattice(&mut lattice, 3, LatticeValue::Const((1, Typ::Int))));
    assert!(!update_lattice(&mut lattice, 3, LatticeValue::Const((1, Typ::Int))));
    assert!(update_lattice(&mut lattice, 3, LatticeValue::Const((2, Typ::Int))));
    assert!(same_value(&get_lattice_value_of_operand(&Operand::Temp((3, Typ::Int)), &lattice), &LatticeValue::Overdefined));
    assert!(!update_lattice(&mut lattice, 3, LatticeValue::Undefined));
    assert!(same_value(&get_lattice_value_of_operand(&Operand::Temp((4, Typ::Int)), &lattice), &LatticeValue::Undefined));
    assert!(same_value(&get_lattice_value_of_operand(&int_const(9), &lattice), &LatticeValue::Const((9, Typ::Int))));
}

#[test]
fn colors_and_registers() {
    assert_eq!(register_to_color(X86Reg::Rax), 1);
    assert_eq!(register_to_color(X86Reg::Rbp), 14);
    assert_eq!(color_to_register(9), X86Reg::R11);
    for c in 1..=14 {
        assert_eq!(register_to_color(color_to_register(c)), c);
    }
}

#[test]
fn spilling_keeps_register_arguments() {
    let mut ir = IRContext::new();
    for _ in 0..8 {
        ir.create_temp(Typ::Int);
    }
    let colors = spill_all_temps(&ir, 7);
    assert_eq!(colors.len(), 8);
    assert_eq!(colors[0], register_to_color(X86Reg::Rdi));
    assert_eq!(colors[5], register_to_color(X86Reg::R9));
    assert_eq!(colors[6], SPILL);
    assert_eq!(colors[7], SPILL);
}

#[test]
fn labels_and_traps() {
    assert_eq!(format_label(&s(".L_f_"), 0), ".L_f_0");
    assert_eq!(format_label(&s("L"), 1207), "L1207");
    assert_eq!(Trap::Sigfpe.get_global_label(), ".L_sigfpe");
    let traps = generate_traps();
    assert_eq!(traps.len(), 8);
    assert_eq!(traps[0], X86Instr::Label(s(".L_abort")));
    assert_eq!(traps[7], X86Instr::Call(s("raise")));
    assert_eq!(signed_immediate_value(Immediate { value: 255, width: Width::W8 }), -1);
    assert_eq!(signed_immediate_value(Immediate { value: 255, width: Width::W32 }), 255);
}

#[test]
fn moves_pick_their_instruction() {
    let mut ctx = empty_context();
    let a = reg(X86Reg::Rax, Width::W32);
    let sa = X86Operand::Stack(StackVar { offset: 8, width: Width::W32 });
    let sb = X86Operand::Stack(StackVar { offset: 16, width: Width::W32 });
    ctx.emit_move(a, a);
    ctx.emit_move(imm(0, Width::W32), a);
    ctx.emit_move(sa, sb);
    ctx.emit_move(imm(3, Width::W32), sa);
    let code = ctx.assemble();
    assert_eq!(code[0], X86Instr::Xor(a, a));
    assert_eq!(code[1], X86Instr::Mov(sa, reg(X86Reg::R10, Width::W32)));
    assert_eq!(code[2], X86Instr::Mov(reg(X86Reg::R10, Width::W32), sb));
    assert_eq!(code[3], X86Instr::Mov(imm(3, Width::W32), sa));
    assert_eq!(code[4], X86Instr::Label(s(".L_f_exit")));
    assert_eq!(code[5], X86Instr::Ret);
    assert_eq!(code.len(), 6);
}

#[test]
fn binary_operations_simplify() {
    let mut ctx = empty_context();
    let d = reg(X86Reg::Rbx, Width::W32);
    ctx.emit_binary_op(BinOp::Add, Some(imm(0, Width::W32)), Some(d));
    ctx.emit_binary_op(BinOp::Mul, Some(imm(1, Width::W32)), Some(d));
    ctx.emit_binary_op(BinOp::Mul, Some(imm(-1, Width::W32)), Some(d));
    ctx.emit_binary_op(BinOp::Add, Some(imm(1 << 40, Width::W64)), Some(d));
    ctx.emit_binary_op(BinOp::Div, Some(imm(7, Width::W32)), None);
    let code = ctx.assemble();
    assert_eq!(code[0], X86Instr::Neg(d));
    assert_eq!(code[1], X86Instr::Mov(imm(1 << 40, Width::W64), reg(X86Reg::R11, Width::W64)));
    assert_eq!(code[2], X86Instr::Add(reg(X86Reg::R11, Width::W64), d));
    assert_eq!(code[3], X86Instr::Mov(imm(7, Width::W32), reg(X86Reg::R10, Width::W32)));
    assert_eq!(code[4], X86Instr::Cqo(Width::W32));
    assert_eq!(code[5], X86Instr::IDiv(reg(X86Reg::R10, Width::W32)));
}

#[test]
fn comparisons_write_a_byte() {
    let mut ctx = empty_context();
    ctx.emit_binary_cmp(BinOp::Lt, imm(1, Width::W32), reg(X86Reg::Rcx, Width::W32), reg(X86Reg::Rdx, Width::W32));
    ctx.emit_unary_op(UnOp::LNot, reg(X86Reg::Rsi, Width::W8));
    let code = ctx.assemble();
    assert_eq!(code[0], X86Instr::Cmp(imm(1, Width::W32), reg(X86Reg::Rcx, Width::W32)));
    assert_eq!(code[1], X86Instr::Setl(reg(X86Reg::Rdx, Width::W8)));
    assert_eq!(code[2], X86Instr::Cmp(imm(0, Width::W8), reg(X86Reg::Rsi, Width::W8)));
    assert_eq!(code[3], X86Instr::Sete(reg(X86Reg::Rsi, Width::W8)));
}

#[test]
fn traps_on_immediates_are_decided_now() {
    let mut ctx = empty_context();
    ctx.emit_trap_if_zero(imm(0, Width::W32), Trap::Sigfpe);
    ctx.emit_trap_if_zero(imm(2, Width::W32), Trap::Sigfpe);
    ctx.emit_trap_if_lesser(imm(-1, Width::W32), 0, Trap::MemError);
    ctx.emit_trap_if_greater(imm(3, Width::W32), 31, Trap::Sigfpe);
    ctx.emit_trap_if_zero(reg(X86Reg::Rax, Width::W64), Trap::MemError);
    let code = ctx.assemble();
    assert_eq!(code[0], X86Instr::Jmp(s(".L_sigfpe")));
    assert_eq!(code[1], X86Instr::Jmp(s(".L_memerror")));
    assert_eq!(code[2], X86Instr::Test(reg(X86Reg::Rax, Width::W64), reg(X86Reg::Rax, Width::W64)));
    assert_eq!(code[3], X86Instr::Je(s(".L_memerror")));
}

#[test]
fn calls_keep_the_stack_aligned() {
    let mut ctx = empty_context();
    let args: Vec<X86Operand> = (0..7).map(|i| imm(i, Width::W32)).collect();
    ctx.emit_call(None, args, s("f"));
    let code = ctx.assemble();
    assert_eq!(code[0], X86Instr::Sub(imm(16, Width::W64), reg(X86Reg::Rsp, Width::W64)));
    assert!(code.contains(&X86Instr::Call(s("f"))));
    assert!(code.contains(&X86Instr::Add(imm(16, Width::W64), reg(X86Reg::Rsp, Width::W64))));
}

#[test]
fn tail_call_refused_for_argument_registers() {
    let mut ctx = empty_context();
    assert!(!ctx.emit_tail_call(vec![reg(X86Reg::Rdi, Width::W32)], s("f")));
    assert!(ctx.emit_tail_call(vec![imm(1, Width::W32)], s("f")));
    let code = ctx.assemble();
    assert_eq!(code[0], X86Instr::Mov(imm(1, Width::W32), reg(X86Reg::Rdi, Width::W32)));
    assert_eq!(code[1], X86Instr::Jmp(s("f")));
}

#[test]
fn sizes_of_types() {
    let st = c0mpile::symbol_table::SymbolTable::new();
    assert_eq!(type_size_bytes(&Typ::Int, &st), Ok(4));
    assert_eq!(type_size_bytes(&Typ::Bool, &st), Ok(1));
    assert_eq!(type_size_bytes(&Typ::Pointer(Box::new(Typ::Int), 1), &st), Ok(8));
    assert!(type_size_bytes(&Typ::Void, &st).is_err());
    assert!(type_size_bytes(&Typ::Struct(s("none")), &st).is_err());
}

#[test]
fn whole_program_to_assembly() {
    let mut header = vec![];
    let mut source = vec![GlobalDeclaration::FDefn(
        Typ::Int,
        s("main"),
        vec![],
        Stmt::Block(vec![
            Stmt::Defn((Typ::Int, s("x")), Expr::Number(4)),
            Stmt::Ret(Some(Expr::Binop(Box::new(Expr::Variable(s("x"), None)), BinOp::Mul, Box::new(Expr::Number(3)), None))),
        ]),
    )];
    let st = analyze_program(&mut header, &mut source).unwrap();
    let ir = munch_program(&source, &st).unwrap();
    assert_eq!(ir.len(), 1);
    assert_eq!(ir[0].0, "main");
    let colors = register_allocation(&ir, &st, 0).unwrap();
    assert_eq!(colors[0].1.len(), ir[0].1.get_temps_count());
    let spills: Vec<(Vec<(usize, StackVar)>, usize)> = colors
        .iter()
        .map(|(_, c)| {
            let slots: Vec<(usize, StackVar)> =
                (0..c.len()).map(|i| (i, StackVar { offset: (8 * i) as i64, width: Width::W64 })).collect();
            let n = slots.len();
            (slots, n)
        })
        .collect();
    let program = generate_assembly(&ir, &colors, &spills, &st, false).unwrap();
    assert_eq!(program.functions.len(), 1);
    assert_eq!(program.functions[0].0, "_c0_main");
    let code = &program.functions[0].1;
    assert_eq!(code.last(), Some(&X86Instr::Ret));
    assert!(code.contains(&X86Instr::Label(s(".L_c0_main_0"))));
    assert!(code.contains(&X86Instr::Jmp(s(".L_c0_main_exit"))));
    assert_eq!(program.traps.len(), 8);
}

#[test]
fn statements_become_blocks() {
    let mut header = vec![];
    let mut source = vec![GlobalDeclaration::FDefn(
        Typ::Int,
        s("main"),
        vec![],
        Stmt::Block(vec![
            Stmt::Defn((Typ::Int, s("i")), Expr::Number(0)),
            Stmt::While(
                Expr::Binop(Box::new(Expr::Variable(s("i"), None)), BinOp::Lt, Box::new(Expr::Number(10)), None),
                Box::new(Stmt::Asgn(Expr::Variable(s("i"), None), c0mpile::ast::AsnOp::Plus, Expr::Number(1))),
            ),
            Stmt::Ret(Some(Expr::Variable(s("i"), None))),
        ]),
    )];
    let st = analyze_program(&mut header, &mut source).unwrap();
    let ir = munch_program(&source, &st).unwrap();
    let order = get_block_labels_in_rpo(&ir[0].1);
    assert_eq!(order.len(), 4);
    let header_block = ir[0].1.get_block(Label(1)).unwrap();
    assert!(header_block.body.iter().any(|i| matches!(i, Instr::Phi { .. })));
}

#[test]
fn context_refuses_unknown_color() {
    let ir = IRContext::new();
    assert!(X86Context::new(vec![16], 0, s(".L_f_"), &ir, &vec![], 0).is_err());
}

#[test]
fn context_refuses_uncolored_parameter() {
    let ir = IRContext::new();
    assert!(X86Context::new(vec![0, 1], 1, s(".L_f_"), &ir, &vec![], 0).is_err());
    assert!(X86Context::new(vec![1, 0], 1, s(".L_f_"), &ir, &vec![], 0).is_ok());
}

#[test]
fn context_needs_slot_of_spilled_register_parameter() {
    let ir = IRContext::new();
    assert!(X86Context::new(vec![15], 1, s(".L_f_"), &ir, &vec![], 1).is_err());
    let slot = StackVar { offset: 0, width: Width::W64 };
    assert!(X86Context::new(vec![15], 1, s(".L_f_"), &ir, &vec![(0, slot)], 1).is_ok());
}

#[test]
fn context_refuses_more_parameters_than_colors() {
    let ir = IRContext::new();
    assert!(X86Context::new(vec![1], 2, s(".L_f_"), &ir, &vec![], 0).is_err());
}

#[test]
fn context_refuses_oversized_spill_area() {
    let ir = IRContext::new();
    assert!(X86Context::new(vec![], 0, s(".L_f_"), &ir, &vec![], 16777217).is_err());
    assert!(X86Context::new(vec![], 0, s(".L_f_"), &ir, &vec![], 16777216).is_ok());
}

#[test]
fn comparison_with_constant_on_the_left() {
    let ir = IRContext::new();
    let mut ctx = X86Context::new(vec![1, 3], 0, s("p_"), &ir, &vec![], 0).unwrap();
    let st = c0mpile::symbol_table::SymbolTable::new();
    let instr = Instr::BinOp {
        op: BinOp::Lt,
        dest: (1, Typ::Bool),
        lhs: Operand::Const((3, Typ::Int)),
        rhs: Operand::Temp((0, Typ::Int)),
    };
    let code = c0mpile::x86codegen::generate_function(&mut ctx, vec![instr], &st, false).unwrap();
    assert_eq!(
        code,
        vec![
            X86Instr::Cmp(imm(3, Width::W32), reg(X86Reg::Rax, Width::W32)),
            X86Instr::Setg(reg(X86Reg::Rcx, Width::W8)),
            X86Instr::Label(s("p_exit")),
            X86Instr::Ret,
        ]
    );
}
