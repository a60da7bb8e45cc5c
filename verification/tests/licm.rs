use c0mpile::ast::{BinOp, Typ, UnOp};
use c0mpile::ir::{IRContext, Instr, Label, Operand};
use c0mpile::licm::{create_preheader, is_loop_instr_pure};

fn konst(v: i64) -> Operand {
    Operand::Const((v, Typ::Int))
}

fn body_text(ctx: &IRContext, l: Label) -> Vec<String> {
    ctx.get_block(l).unwrap().body.iter().map(|i| i.text()).collect()
}

fn terminator_text(ctx: &IRContext, l: Label) -> String {
    ctx.get_block(l).unwrap().terminator.as_ref().unwrap().text()
}

#[test]
fn preheader_takes_the_entry_edge_of_a_loop() {
    let mut ctx = IRContext::new();
    let header = ctx.create_block();
    let body = ctx.create_block();
    let exit = ctx.create_block();
    let t0 = ctx.create_temp(Typ::Int);
    let t1 = ctx.create_temp(Typ::Int);
    ctx.set_block_terminator(Instr::JumpTo(header));
    ctx.switch_to_block(header);
    ctx.add_pred_to_block(Label(0));
    ctx.add_pred_to_block(body);
    ctx.add_instr_to_block(Instr::Phi { dest: t0.clone(), srcs: vec![(Label(0), konst(1)), (body, Operand::Temp(t1.clone()))] });
    ctx.set_block_terminator(Instr::JumpIf { pred: Operand::Temp(t0.clone()), holds: body, fails: exit });
    ctx.switch_to_block(body);
    ctx.add_pred_to_block(header);
    ctx.add_instr_to_block(Instr::Move { dest: t1.clone(), src: Operand::Temp(t0.clone()) });
    ctx.set_block_terminator(Instr::JumpTo(header));
    ctx.switch_to_block(exit);
    ctx.add_pred_to_block(header);
    ctx.set_block_terminator(Instr::Return(None));

    let pre = create_preheader(&mut ctx, header, &vec![Label(0)], &vec![body]);
    assert_eq!(pre, Label(4));
    assert_eq!(terminator_text(&ctx, Label(0)), "JUMP .L4");
    assert_eq!(terminator_text(&ctx, pre), "JUMP .L1");
    let pre_block = ctx.get_block(pre).unwrap();
    assert_eq!(pre_block.preds, vec![Label(0)]);
    assert!(pre_block.sealed);
    assert!(pre_block.body.is_empty());
    assert_eq!(ctx.get_block(header).unwrap().preds, vec![pre, body]);
    assert_eq!(body_text(&ctx, header), vec!["T0 <- PHI |.L4 : $1, .L2 : T1|".to_string()]);
    assert_eq!(terminator_text(&ctx, header), "IF T0 JUMP .L2 ELSE .L3");
    assert_eq!(terminator_text(&ctx, body), "JUMP .L1");
    assert_eq!(ctx.get_temps_count(), 2);
}

#[test]
fn differing_entry_values_are_merged_in_the_preheader() {
    let mut ctx = IRContext::new();
    let left = ctx.create_block();
    let right = ctx.create_block();
    let header = ctx.create_block();
    let latch = ctx.create_block();
    let c = ctx.create_temp(Typ::Bool);
    let t1 = ctx.create_temp(Typ::Int);
    let t2 = ctx.create_temp(Typ::Int);
    let t3 = ctx.create_temp(Typ::Int);
    ctx.set_block_terminator(Instr::JumpIf { pred: Operand::Temp(c.clone()), holds: left, fails: right });
    ctx.switch_to_block(left);
    ctx.add_pred_to_block(Label(0));
    ctx.set_block_terminator(Instr::JumpTo(header));
    ctx.switch_to_block(right);
    ctx.add_pred_to_block(Label(0));
    ctx.set_block_terminator(Instr::JumpIf { pred: Operand::Temp(c.clone()), holds: header, fails: header });
    ctx.switch_to_block(header);
    ctx.add_pred_to_block(left);
    ctx.add_pred_to_block(right);
    ctx.add_pred_to_block(latch);
    ctx.add_instr_to_block(Instr::Phi {
        dest: t1.clone(),
        srcs: vec![(left, konst(1)), (right, konst(2)), (latch, Operand::Temp(t3.clone()))],
    });
    ctx.add_instr_to_block(Instr::Phi {
        dest: t2.clone(),
        srcs: vec![(left, konst(7)), (latch, Operand::Temp(t2.clone())), (right, konst(7))],
    });
    ctx.add_instr_to_block(Instr::Move { dest: t3.clone(), src: Operand::Temp(t1.clone()) });
    ctx.set_block_terminator(Instr::JumpTo(latch));
    ctx.switch_to_block(latch);
    ctx.add_pred_to_block(header);
    ctx.set_block_terminator(Instr::JumpTo(header));

    let pre = create_preheader(&mut ctx, header, &vec![left, right], &vec![latch]);
    assert_eq!(pre, Label(5));
    assert_eq!(terminator_text(&ctx, left), "JUMP .L5");
    assert_eq!(terminator_text(&ctx, right), "IF T0 JUMP .L5 ELSE .L5");
    assert_eq!(terminator_text(&ctx, latch), "JUMP .L3");
    assert_eq!(body_text(&ctx, pre), vec!["T4 <- PHI |.L1 : $1, .L2 : $2|".to_string()]);
    assert_eq!(ctx.get_block(pre).unwrap().preds, vec![left, right]);
    assert_eq!(
        body_text(&ctx, header),
        vec![
            "T1 <- PHI |.L5 : T4, .L4 : T3|".to_string(),
            "T2 <- PHI |.L5 : $7, .L4 : T2|".to_string(),
            "T3 <- T1".to_string(),
        ]
    );
    assert_eq!(ctx.get_block(header).unwrap().preds, vec![pre, latch]);
    assert_eq!(ctx.get_temps_count(), 5);
}

#[test]
fn phi_without_entry_source_receives_zero() {
    let mut ctx = IRContext::new();
    let header = ctx.create_block();
    let t0 = ctx.create_temp(Typ::Int);
    ctx.set_block_terminator(Instr::JumpTo(header));
    ctx.switch_to_block(header);
    ctx.add_pred_to_block(Label(0));
    ctx.add_pred_to_block(header);
    ctx.add_instr_to_block(Instr::Phi { dest: t0.clone(), srcs: vec![(header, Operand::Temp(t0.clone()))] });
    ctx.set_block_terminator(Instr::JumpTo(header));
    let pre = create_preheader(&mut ctx, header, &vec![Label(0)], &vec![header]);
    assert_eq!(body_text(&ctx, header), vec!["T0 <- PHI |.L2 : $0, .L1 : T0|".to_string()]);
    assert_eq!(ctx.get_block(header).unwrap().preds, vec![pre, header]);
}

fn binop(op: BinOp, dest: Typ, lhs: Operand, rhs: Operand) -> Instr {
    Instr::BinOp { op, dest: (9, dest), lhs, rhs }
}

fn temp(id: usize, t: Typ) -> Operand {
    Operand::Temp((id, t))
}

#[test]
fn only_trap_free_register_operations_are_pure() {
    let ptr = || Typ::Pointer(Box::new(Typ::Int), 0);
    assert!(!is_loop_instr_pure(&Instr::Store { addr: temp(0, ptr()), src: konst(1) }, false));
    assert!(!is_loop_instr_pure(&Instr::Load { dest: (1, Typ::Int), addr: temp(0, ptr()) }, false));
    assert!(!is_loop_instr_pure(&Instr::Return(None), false));
    assert!(is_loop_instr_pure(&Instr::Move { dest: (1, Typ::Int), src: konst(1) }, false));
    assert!(is_loop_instr_pure(&Instr::UnOp { op: UnOp::Neg, dest: (1, Typ::Int), src: temp(2, Typ::Int) }, false));
    assert!(is_loop_instr_pure(&binop(BinOp::Add, Typ::Int, temp(1, Typ::Int), konst(2)), false));
    assert!(!is_loop_instr_pure(&binop(BinOp::Div, Typ::Int, temp(1, Typ::Int), konst(0)), false));
    assert!(is_loop_instr_pure(&binop(BinOp::Div, Typ::Int, temp(1, Typ::Int), konst(2)), false));
    assert!(!is_loop_instr_pure(&binop(BinOp::Mod, Typ::Int, temp(1, Typ::Int), konst(-1)), false));
    assert!(is_loop_instr_pure(&binop(BinOp::Div, Typ::Int, konst(5), konst(-1)), false));
    assert!(!is_loop_instr_pure(&binop(BinOp::Div, Typ::Int, konst(i32::MIN as i64), konst(-1)), false));
    assert!(!is_loop_instr_pure(&binop(BinOp::Div, Typ::Int, konst(5), temp(1, Typ::Int)), true));
    assert!(is_loop_instr_pure(&binop(BinOp::Sal, Typ::Int, temp(1, Typ::Int), konst(31)), false));
    assert!(!is_loop_instr_pure(&binop(BinOp::Sar, Typ::Int, temp(1, Typ::Int), konst(32)), false));
    assert!(!is_loop_instr_pure(&binop(BinOp::Sal, Typ::Int, temp(1, Typ::Int), temp(2, Typ::Int)), false));
    assert!(!is_loop_instr_pure(&binop(BinOp::Add, ptr(), temp(1, ptr()), konst(8)), false));
    assert!(is_loop_instr_pure(&binop(BinOp::Add, ptr(), temp(1, ptr()), konst(8)), true));
    assert!(!is_loop_instr_pure(&binop(BinOp::Sub, ptr(), temp(1, ptr()), konst(8)), false));
    assert!(!is_loop_instr_pure(&binop(BinOp::Add, ptr(), konst(8), temp(1, ptr())), false));
}
