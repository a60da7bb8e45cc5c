use std::collections::HashMap;

use c0mpile::alias::{refine_pointer_targets, AliasInfo};
use c0mpile::ast::{BinOp, Typ};
use c0mpile::ir::{IRContext, Instr, Label, Operand};
use c0mpile::sroa::local_forward;

fn ptr() -> Typ {
    Typ::Pointer(Box::new(Typ::Int), 0)
}

fn konst(v: i64) -> Operand {
    Operand::Const((v, Typ::Int))
}

fn analyze(ctx: &IRContext) -> AliasInfo {
    let mut targets = HashMap::new();
    while refine_pointer_targets(ctx, &mut targets) {}
    AliasInfo::from_targets(ctx, targets)
}

fn body_text(ctx: &IRContext) -> Vec<String> {
    ctx.get_block(Label(0)).unwrap().body.iter().map(|i| i.text()).collect()
}

#[test]
fn stored_fields_are_forwarded_to_loads() {
    let mut ctx = IRContext::new();
    let t0 = ctx.create_temp(ptr());
    let t1 = ctx.create_temp(ptr());
    let t2 = ctx.create_temp(Typ::Int);
    let t3 = ctx.create_temp(Typ::Int);
    ctx.add_instr_to_block(Instr::Alloc { dest: t0.clone(), size: konst(8) });
    ctx.add_instr_to_block(Instr::BinOp { op: BinOp::Add, dest: t1.clone(), lhs: Operand::Temp(t0.clone()), rhs: konst(4) });
    ctx.add_instr_to_block(Instr::Store { addr: Operand::Temp(t0.clone()), src: konst(5) });
    ctx.add_instr_to_block(Instr::Store { addr: Operand::Temp(t1.clone()), src: konst(6) });
    ctx.add_instr_to_block(Instr::Load { dest: t2.clone(), addr: Operand::Temp(t0.clone()) });
    ctx.add_instr_to_block(Instr::Load { dest: t3.clone(), addr: Operand::Temp(t1.clone()) });
    ctx.set_block_terminator(Instr::Return(Some(Operand::Temp(t2.clone()))));
    let info = analyze(&ctx);
    assert!(local_forward(&mut ctx, &info));
    let body = body_text(&ctx);
    assert_eq!(body[4], "T2 <- $5");
    assert_eq!(body[5], "T3 <- $6");
    assert_eq!(body[2], "STORE T0 <- $5");
    assert!(!local_forward(&mut ctx, &info));
}

#[test]
fn a_call_forgets_escaping_values_and_a_load_is_remembered() {
    let mut ctx = IRContext::new();
    let t0 = ctx.create_temp(ptr());
    let t1 = ctx.create_temp(Typ::Int);
    let t2 = ctx.create_temp(Typ::Int);
    ctx.add_instr_to_block(Instr::Alloc { dest: t0.clone(), size: konst(4) });
    ctx.add_instr_to_block(Instr::Store { addr: Operand::Temp(t0.clone()), src: konst(1) });
    ctx.add_instr_to_block(Instr::Call { dest: None, name: "g".to_string(), args: vec![Operand::Temp(t0.clone())] });
    ctx.add_instr_to_block(Instr::Load { dest: t1.clone(), addr: Operand::Temp(t0.clone()) });
    ctx.add_instr_to_block(Instr::Load { dest: t2.clone(), addr: Operand::Temp(t0.clone()) });
    ctx.set_block_terminator(Instr::Return(None));
    let info = analyze(&ctx);
    assert!(info.escapes(0));
    assert!(local_forward(&mut ctx, &info));
    let body = body_text(&ctx);
    assert_eq!(body[3], "T1 <- LOAD T0");
    assert_eq!(body[4], "T2 <- T1");
}

#[test]
fn a_call_keeps_values_of_private_allocations() {
    let mut ctx = IRContext::new();
    let t0 = ctx.create_temp(ptr());
    let t1 = ctx.create_temp(Typ::Int);
    ctx.add_instr_to_block(Instr::Alloc { dest: t0.clone(), size: konst(4) });
    ctx.add_instr_to_block(Instr::Store { addr: Operand::Temp(t0.clone()), src: konst(9) });
    ctx.add_instr_to_block(Instr::Call { dest: None, name: "h".to_string(), args: vec![] });
    ctx.add_instr_to_block(Instr::Load { dest: t1.clone(), addr: Operand::Temp(t0.clone()) });
    ctx.set_block_terminator(Instr::Return(Some(Operand::Temp(t1.clone()))));
    let info = analyze(&ctx);
    assert!(!info.escapes(0));
    assert!(local_forward(&mut ctx, &info));
    assert_eq!(body_text(&ctx)[3], "T1 <- $9");
}
