use std::collections::HashMap;
use c0mpile::ast::UnOp;
use c0mpile::lattice::{update_lattice, LatticeValue};
use c0mpile::sccp::{
    overdefine_live_in_temps, sccp_rewrite, sccp_round,
    fold_instr_from_lattice, propagate_on_binop, propagate_on_instr, propagate_on_terminator,
    propagate_on_unop, replace_instr_consts, replace_terminator_consts,
};
use c0mpile::adce::adce;
use c0mpile::ast::{BinOp, Typ};
use c0mpile::cfg_simp::{
    cfg_simplification_pass, merge_linear_block_chains, simplify_terminator, simplify_trivial_phi,
};
use c0mpile::copy_prop::copy_propagation;
use c0mpile::interference::{build, get_temp_types, Node};
use c0mpile::ir::{IRContext, Instr, Label, Operand};
use c0mpile::liveness::{analyze_liveness, get_defines, get_uses};
use c0mpile::regalloc::SPILL;
use c0mpile::spill::{allocate_spill_slots, assign_spill_slots};
use c0mpile::tail_call_elim::tail_call_elimination;
use c0mpile::x86asm::{StackVar, Width};

fn s(x: &str) -> String {
    x.to_string()
}

fn konst(v: i64) -> Operand {
    Operand::Const((v, Typ::Int))
}

fn body_text(ctx: &IRContext, l: usize) -> Vec<String> {
    ctx.get_block(Label(l)).unwrap().body.iter().map(|i| i.text()).collect()
}

fn terminator_text(ctx: &IRContext, l: usize) -> String {
    ctx.get_block(Label(l)).unwrap().terminator.as_ref().unwrap().text()
}

#[test]
fn copies_are_followed_to_their_source() {
    let mut ctx = IRContext::new();
    let t0 = ctx.create_temp(Typ::Int);
    let t1 = ctx.create_temp(Typ::Int);
    let t2 = ctx.create_temp(Typ::Int);
    ctx.add_instr_to_block(Instr::Move { dest: t0.clone(), src: konst(5) });
    ctx.add_instr_to_block(Instr::Move { dest: t1.clone(), src: Operand::Temp(t0.clone()) });
    ctx.add_instr_to_block(Instr::BinOp { op: BinOp::Add, dest: t2.clone(), lhs: Operand::Temp(t1.clone()), rhs: konst(1) });
    ctx.set_block_terminator(Instr::Return(Some(Operand::Temp(t2.clone()))));
    assert!(copy_propagation(&mut ctx));
    assert_eq!(body_text(&ctx, 0), vec![s("T0 <- $5"), s("T1 <- $5"), s("T2 <- $5 + $1")]);
    assert_eq!(terminator_text(&ctx, 0), "RETURN T2");
    assert!(!copy_propagation(&mut ctx));
}

#[test]
fn branch_condition_is_propagated() {
    let mut ctx = IRContext::new();
    let l1 = ctx.create_block();
    let b0 = ctx.create_temp(Typ::Bool);
    let b1 = ctx.create_temp(Typ::Bool);
    ctx.add_instr_to_block(Instr::Move { dest: b0.clone(), src: Operand::Const((1, Typ::Bool)) });
    ctx.add_instr_to_block(Instr::Move { dest: b1.clone(), src: Operand::Temp(b0.clone()) });
    ctx.set_block_terminator(Instr::JumpIf { pred: Operand::Temp(b1.clone()), holds: l1, fails: l1 });
    ctx.switch_to_block(l1);
    ctx.set_block_terminator(Instr::Return(None));
    assert!(copy_propagation(&mut ctx));
    assert_eq!(terminator_text(&ctx, 0), "IF $1 JUMP .L1 ELSE .L1");
}

#[test]
fn no_moves_no_propagation() {
    let mut ctx = IRContext::new();
    ctx.set_block_terminator(Instr::Return(Some(konst(0))));
    assert!(!copy_propagation(&mut ctx));
}

#[test]
fn returned_call_becomes_tail_call() {
    let mut ctx = IRContext::new();
    let t0 = ctx.create_temp(Typ::Int);
    ctx.add_instr_to_block(Instr::Call { dest: Some(t0.clone()), name: s("f"), args: vec![konst(1)] });
    ctx.set_block_terminator(Instr::Return(Some(Operand::Temp(t0.clone()))));
    assert!(tail_call_elimination(&mut ctx));
    assert!(body_text(&ctx, 0).is_empty());
    assert_eq!(terminator_text(&ctx, 0), "TAILCALL f($1)");
    assert!(!tail_call_elimination(&mut ctx));
}

#[test]
fn call_moved_into_result_becomes_tail_call() {
    let mut ctx = IRContext::new();
    let t0 = ctx.create_temp(Typ::Int);
    let t1 = ctx.create_temp(Typ::Int);
    let t9 = ctx.create_temp(Typ::Int);
    ctx.add_instr_to_block(Instr::Move { dest: t9.clone(), src: konst(3) });
    ctx.add_instr_to_block(Instr::Call { dest: Some(t0.clone()), name: s("g"), args: vec![Operand::Temp(t9.clone())] });
    ctx.add_instr_to_block(Instr::Move { dest: t1.clone(), src: Operand::Temp(t0.clone()) });
    ctx.set_block_terminator(Instr::Return(Some(Operand::Temp(t1.clone()))));
    assert!(tail_call_elimination(&mut ctx));
    assert_eq!(body_text(&ctx, 0), vec![s("T2 <- $3")]);
    assert_eq!(terminator_text(&ctx, 0), "TAILCALL g(T2)");
}

#[test]
fn void_call_before_return_becomes_tail_call() {
    let mut ctx = IRContext::new();
    ctx.add_instr_to_block(Instr::Call { dest: None, name: s("h"), args: vec![] });
    ctx.set_block_terminator(Instr::Return(None));
    assert!(tail_call_elimination(&mut ctx));
    assert_eq!(terminator_text(&ctx, 0), "TAILCALL h()");
}

#[test]
fn call_of_other_result_stays() {
    let mut ctx = IRContext::new();
    let t0 = ctx.create_temp(Typ::Int);
    let t1 = ctx.create_temp(Typ::Int);
    ctx.add_instr_to_block(Instr::Call { dest: Some(t0.clone()), name: s("f"), args: vec![] });
    ctx.set_block_terminator(Instr::Return(Some(Operand::Temp(t1.clone()))));
    assert!(!tail_call_elimination(&mut ctx));
    assert_eq!(body_text(&ctx, 0), vec![s("T0 <- CALL f()")]);
}

#[test]
fn dead_chain_is_removed() {
    let mut ctx = IRContext::new();
    let t0 = ctx.create_temp(Typ::Int);
    let t1 = ctx.create_temp(Typ::Int);
    let t2 = ctx.create_temp(Typ::Int);
    ctx.add_instr_to_block(Instr::Move { dest: t0.clone(), src: konst(1) });
    ctx.add_instr_to_block(Instr::BinOp { op: BinOp::Add, dest: t1.clone(), lhs: Operand::Temp(t0.clone()), rhs: konst(1) });
    ctx.add_instr_to_block(Instr::Move { dest: t2.clone(), src: konst(2) });
    ctx.set_block_terminator(Instr::Return(Some(Operand::Temp(t2.clone()))));
    assert!(adce(&mut ctx, false));
    assert_eq!(body_text(&ctx, 0), vec![s("T2 <- $2")]);
    assert!(!adce(&mut ctx, false));
}

#[test]
fn unused_division_stays_unless_unsafe() {
    let mut ctx = IRContext::new();
    let t0 = ctx.create_temp(Typ::Int);
    ctx.add_instr_to_block(Instr::BinOp { op: BinOp::Div, dest: t0.clone(), lhs: konst(1), rhs: konst(0) });
    ctx.set_block_terminator(Instr::Return(None));
    assert!(!adce(&mut ctx, false));
    assert_eq!(body_text(&ctx, 0), vec![s("T0 <- $1 / $0")]);
    assert!(adce(&mut ctx, true));
    assert!(body_text(&ctx, 0).is_empty());
}

#[test]
fn calls_are_never_dead() {
    let mut ctx = IRContext::new();
    let t0 = ctx.create_temp(Typ::Int);
    ctx.add_instr_to_block(Instr::Call { dest: Some(t0.clone()), name: s("f"), args: vec![] });
    ctx.set_block_terminator(Instr::Return(None));
    assert!(!adce(&mut ctx, true));
    assert_eq!(body_text(&ctx, 0).len(), 1);
}

#[test]
fn single_source_phi_becomes_move() {
    let mut phi = Instr::Phi { dest: (3, Typ::Int), srcs: vec![(Label(1), konst(4))] };
    assert!(simplify_trivial_phi(&mut phi));
    assert_eq!(phi.text(), "T3 <- $4");
    let mut phi2 = Instr::Phi { dest: (3, Typ::Int), srcs: vec![(Label(1), konst(4)), (Label(2), konst(5))] };
    assert!(!simplify_trivial_phi(&mut phi2));
    let mut mv = Instr::Move { dest: (1, Typ::Int), src: konst(0) };
    assert!(!simplify_trivial_phi(&mut mv));
}

#[test]
fn constant_branches_become_jumps() {
    let mut j = Instr::JumpIf { pred: Operand::Const((1, Typ::Bool)), holds: Label(1), fails: Label(2) };
    assert!(simplify_terminator(&mut j));
    assert_eq!(j.text(), "JUMP .L1");
    let mut j = Instr::JumpIf { pred: Operand::Const((0, Typ::Bool)), holds: Label(1), fails: Label(2) };
    assert!(simplify_terminator(&mut j));
    assert_eq!(j.text(), "JUMP .L2");
    let mut j = Instr::JumpIf { pred: Operand::Temp((0, Typ::Bool)), holds: Label(3), fails: Label(3) };
    assert!(simplify_terminator(&mut j));
    assert_eq!(j.text(), "JUMP .L3");
    let mut j = Instr::JumpIf { pred: Operand::Temp((0, Typ::Bool)), holds: Label(1), fails: Label(2) };
    assert!(!simplify_terminator(&mut j));
    assert_eq!(j.text(), "IF T0 JUMP .L1 ELSE .L2");
}

/// Block 0 defines T0 (an integer) and T1 (a boolean) and branches on T1 to block 1,
/// which returns T0, or block 2, which returns a constant.
fn branch_on_flag() -> IRContext {
    let mut ctx = IRContext::new();
    let l1 = ctx.create_block();
    let l2 = ctx.create_block();
    let t0 = ctx.create_temp(Typ::Int);
    let t1 = ctx.create_temp(Typ::Bool);
    ctx.add_instr_to_block(Instr::Move { dest: t0.clone(), src: konst(5) });
    ctx.add_instr_to_block(Instr::Move { dest: t1.clone(), src: Operand::Const((1, Typ::Bool)) });
    ctx.set_block_terminator(Instr::JumpIf { pred: Operand::Temp(t1.clone()), holds: l1, fails: l2 });
    ctx.switch_to_block(l1);
    ctx.set_block_terminator(Instr::Return(Some(Operand::Temp(t0.clone()))));
    ctx.switch_to_block(l2);
    ctx.set_block_terminator(Instr::Return(Some(konst(0))));
    ctx
}

#[test]
fn defines_and_uses() {
    let add = Instr::BinOp { op: BinOp::Add, dest: (4, Typ::Int), lhs: Operand::Temp((1, Typ::Int)), rhs: Operand::Temp((2, Typ::Int)) };
    assert_eq!(get_defines(&add), Some(4));
    assert_eq!(get_uses(&add), vec![1, 2]);
    let tail = Instr::TailCall { name: s("f"), args: vec![Operand::Temp((3, Typ::Int)), konst(1)] };
    assert_eq!(get_defines(&tail), None);
    assert_eq!(get_uses(&tail), vec![3]);
}

#[test]
fn liveness_of_a_branch() {
    let ctx = branch_on_flag();
    let live = analyze_liveness(&ctx);
    assert_eq!(live.live_in[0], Vec::<usize>::new());
    assert_eq!(live.live_out[0], vec![0]);
    assert_eq!(live.live_in[1], vec![0]);
    assert_eq!(live.live_out[1], Vec::<usize>::new());
    assert_eq!(live.live_in[2], Vec::<usize>::new());
}

#[test]
fn interference_of_a_branch() {
    let ctx = branch_on_flag();
    let live = analyze_liveness(&ctx);
    let g = build(&ctx, &live.live_out, 0);
    assert!(g.neighbours[0].contains(&Node::Temp(1)));
    assert!(g.neighbours[1].contains(&Node::Temp(0)));
    assert!(!g.neighbours[0].contains(&Node::Temp(0)));
}

#[test]
fn interfering_spills_get_different_slots() {
    let g = vec![vec![Node::Temp(1)], vec![Node::Temp(0)], vec![]];
    let coloring = vec![SPILL, SPILL, SPILL];
    let (slots, count) = assign_spill_slots(&g, &coloring, 0);
    let w = Width::W64;
    assert_eq!(
        slots,
        vec![
            (0, StackVar { offset: 0, width: w }),
            (1, StackVar { offset: 8, width: w }),
            (2, StackVar { offset: 0, width: w }),
        ]
    );
    assert_eq!(count, 2);
}

#[test]
fn stack_parameters_get_no_slot() {
    let g: Vec<Vec<Node>> = vec![vec![]; 8];
    let coloring = vec![SPILL; 8];
    let (slots, count) = assign_spill_slots(&g, &coloring, 8);
    assert_eq!(slots.iter().map(|p| p.0).collect::<Vec<_>>(), vec![0, 1, 2, 3, 4, 5]);
    assert!(slots.iter().all(|p| p.1 == StackVar { offset: 0, width: Width::W64 }));
    assert_eq!(count, 1);
}

#[test]
fn uncolored_temporaries_get_no_slot() {
    let g = vec![vec![], vec![]];
    let coloring = vec![1, SPILL];
    let (slots, count) = assign_spill_slots(&g, &coloring, 0);
    assert_eq!(slots, vec![(1, StackVar { offset: 0, width: Width::W64 })]);
    assert_eq!(count, 1);
}

#[test]
fn spill_slots_of_a_function() {
    let ctx = branch_on_flag();
    let coloring = vec![SPILL, SPILL];
    let (slots, count) = allocate_spill_slots(&ctx, &coloring, 0);
    assert_eq!(slots.len(), 2);
    assert_ne!(slots[0].1, slots[1].1);
    assert_eq!(count, 2);
}

#[test]
fn folding_unary_operators() {
    assert_eq!(propagate_on_unop(UnOp::Neg, 5), -5);
    assert_eq!(propagate_on_unop(UnOp::Neg, i64::MIN), i64::MIN);
    assert_eq!(propagate_on_unop(UnOp::Not, 0), -1);
    assert_eq!(propagate_on_unop(UnOp::LNot, 0), 1);
    assert_eq!(propagate_on_unop(UnOp::LNot, 7), 0);
}

#[test]
fn folding_binary_operators() {
    assert_eq!(propagate_on_binop(BinOp::Add, i32::MAX as i64, 1, false), Some(i32::MIN));
    assert_eq!(propagate_on_binop(BinOp::Mul, 1 << 20, 1 << 12, false), Some(0));
    assert_eq!(propagate_on_binop(BinOp::Div, -7, 2, false), Some(-3));
    assert_eq!(propagate_on_binop(BinOp::Mod, -7, 2, false), Some(-1));
    assert_eq!(propagate_on_binop(BinOp::Div, 1, 0, false), None);
    assert_eq!(propagate_on_binop(BinOp::Div, 1, 0, true), Some(0));
    assert_eq!(propagate_on_binop(BinOp::Div, i32::MIN as i64, -1, true), Some(i32::MIN));
    assert_eq!(propagate_on_binop(BinOp::Mod, i32::MIN as i64, -1, false), None);
    assert_eq!(propagate_on_binop(BinOp::Sal, 1, 31, false), Some(i32::MIN));
    assert_eq!(propagate_on_binop(BinOp::Sal, 1, 32, false), None);
    assert_eq!(propagate_on_binop(BinOp::Sar, -8, 1, false), Some(-4));
    assert_eq!(propagate_on_binop(BinOp::Sar, -8, -1, true), Some(0));
    assert_eq!(propagate_on_binop(BinOp::Lte, 3, 3, false), Some(1));
    assert_eq!(propagate_on_binop(BinOp::LOr, 0, 0, false), Some(0));
    assert_eq!(propagate_on_binop(BinOp::Xor, 6, 3, false), Some(5));
    assert_eq!(propagate_on_binop(BinOp::Add, (1i64 << 32) + 2, 3, false), Some(5));
}

#[test]
fn lattice_values_of_instructions() {
    let mut lattice = vec![];
    update_lattice(&mut lattice, 0, LatticeValue::Const((6, Typ::Int)));
    update_lattice(&mut lattice, 1, LatticeValue::Overdefined);
    let add = Instr::BinOp { op: BinOp::Mul, dest: (2, Typ::Int), lhs: Operand::Temp((0, Typ::Int)), rhs: konst(7) };
    assert!(matches!(propagate_on_instr(&add, &lattice, &vec![], false), LatticeValue::Const((42, Typ::Int))));
    let over = Instr::BinOp { op: BinOp::Add, dest: (2, Typ::Int), lhs: Operand::Temp((1, Typ::Int)), rhs: konst(7) };
    assert!(matches!(propagate_on_instr(&over, &lattice, &vec![], false), LatticeValue::Overdefined));
    let undef = Instr::BinOp { op: BinOp::Add, dest: (2, Typ::Int), lhs: Operand::Temp((5, Typ::Int)), rhs: konst(7) };
    assert!(matches!(propagate_on_instr(&undef, &lattice, &vec![], false), LatticeValue::Undefined));
    let trap = Instr::BinOp { op: BinOp::Div, dest: (2, Typ::Int), lhs: konst(1), rhs: konst(0) };
    assert!(matches!(propagate_on_instr(&trap, &lattice, &vec![], false), LatticeValue::Overdefined));
    let not = Instr::UnOp { op: c0mpile::ast::UnOp::LNot, dest: (3, Typ::Bool), src: konst(0) };
    assert!(matches!(propagate_on_instr(&not, &lattice, &vec![], false), LatticeValue::Const((1, Typ::Bool))));
    let phi = Instr::Phi { dest: (4, Typ::Int), srcs: vec![(Label(1), konst(3)), (Label(2), konst(4))] };
    assert!(matches!(propagate_on_instr(&phi, &lattice, &vec![Label(1)], false), LatticeValue::Const((3, Typ::Int))));
    assert!(matches!(propagate_on_instr(&phi, &lattice, &vec![Label(1), Label(2)], false), LatticeValue::Overdefined));
    assert!(matches!(propagate_on_instr(&phi, &lattice, &vec![], false), LatticeValue::Undefined));
    let call = Instr::Call { dest: Some((5, Typ::Int)), name: s("f"), args: vec![] };
    assert!(matches!(propagate_on_instr(&call, &lattice, &vec![], false), LatticeValue::Overdefined));
}

#[test]
fn terminators_mark_reachable_blocks() {
    let mut lattice = vec![];
    update_lattice(&mut lattice, 0, LatticeValue::Const((0, Typ::Bool)));
    let mut state = vec![Label(0)];
    let known = Instr::JumpIf { pred: Operand::Temp((0, Typ::Bool)), holds: Label(1), fails: Label(2) };
    assert!(propagate_on_terminator(&known, &lattice, &mut state));
    assert_eq!(state, vec![Label(0), Label(2)]);
    assert!(!propagate_on_terminator(&known, &lattice, &mut state));
    let unknown = Instr::JumpIf { pred: Operand::Temp((9, Typ::Bool)), holds: Label(1), fails: Label(2) };
    assert!(propagate_on_terminator(&unknown, &lattice, &mut state));
    assert_eq!(state, vec![Label(0), Label(2), Label(1)]);
    assert!(!propagate_on_terminator(&Instr::Return(None), &lattice, &mut state));
}

#[test]
fn instructions_rewritten_from_the_lattice() {
    let mut lattice = vec![];
    update_lattice(&mut lattice, 0, LatticeValue::Const((6, Typ::Int)));
    update_lattice(&mut lattice, 1, LatticeValue::Const((2, Typ::Int)));
    update_lattice(&mut lattice, 4, LatticeValue::Const((1, Typ::Bool)));
    let mut add = Instr::BinOp { op: BinOp::Add, dest: (3, Typ::Int), lhs: Operand::Temp((0, Typ::Int)), rhs: Operand::Temp((1, Typ::Int)) };
    assert!(replace_instr_consts(&mut add, &lattice));
    assert_eq!(add.text(), "T3 <- $6 + $2");
    let mut call = Instr::Call { dest: None, name: s("f"), args: vec![Operand::Temp((0, Typ::Int)), Operand::Temp((1, Typ::Int))] };
    assert!(replace_instr_consts(&mut call, &lattice));
    assert_eq!(call.text(), "CALL f($6, T1)");
    let mut ret = Instr::Return(None);
    assert!(!replace_instr_consts(&mut ret, &lattice));
    let mut br = Instr::JumpIf { pred: Operand::Temp((4, Typ::Bool)), holds: Label(1), fails: Label(2) };
    assert!(replace_terminator_consts(&mut br, &lattice));
    assert_eq!(br.text(), "IF $1 JUMP .L1 ELSE .L2");
    let mut mv = Instr::Move { dest: (0, Typ::Int), src: Operand::Temp((7, Typ::Int)) };
    assert!(fold_instr_from_lattice(&mut mv, &lattice));
    assert_eq!(mv.text(), "T0 <- $6");
    assert!(!fold_instr_from_lattice(&mut mv, &lattice));
    let mut other = Instr::Move { dest: (9, Typ::Int), src: konst(1) };
    assert!(!fold_instr_from_lattice(&mut other, &lattice));
}


/// L0 branches on a constant to L1 or L2, both of which jump to L3, where a phi joins them.
fn diamond_on_constant(pred: i64) -> IRContext {
    let mut ctx = IRContext::new();
    let l1 = ctx.create_block();
    let l2 = ctx.create_block();
    let l3 = ctx.create_block();
    let t0 = ctx.create_temp(Typ::Int);
    ctx.set_block_terminator(Instr::JumpIf { pred: Operand::Const((pred, Typ::Bool)), holds: l1, fails: l2 });
    ctx.switch_to_block(l1);
    ctx.add_pred_to_block(Label(0));
    ctx.set_block_terminator(Instr::JumpTo(l3));
    ctx.switch_to_block(l2);
    ctx.add_pred_to_block(Label(0));
    ctx.set_block_terminator(Instr::JumpTo(l3));
    ctx.switch_to_block(l3);
    ctx.add_pred_to_block(l1);
    ctx.add_pred_to_block(l2);
    ctx.add_instr_to_block(Instr::Phi { dest: t0.clone(), srcs: vec![(l1, konst(1)), (l2, konst(2))] });
    ctx.set_block_terminator(Instr::Return(Some(Operand::Temp(t0.clone()))));
    ctx
}

#[test]
fn constant_branch_is_resolved_then_dead_arm_removed() {
    let mut ctx = diamond_on_constant(0);
    assert!(cfg_simplification_pass(&mut ctx));
    assert_eq!(terminator_text(&ctx, 0), "JUMP .L2");
    assert!(ctx.get_block(Label(1)).is_some());
    assert!(cfg_simplification_pass(&mut ctx));
    assert!(ctx.get_block(Label(1)).is_none());
    assert_eq!(ctx.get_block(Label(3)).unwrap().preds, vec![Label(2)]);
    assert_eq!(body_text(&ctx, 3), vec![s("T0 <- $2")]);
    assert!(!cfg_simplification_pass(&mut ctx));
}

#[test]
fn simplified_diamond_collapses_into_entry_block() {
    let mut ctx = diamond_on_constant(1);
    while cfg_simplification_pass(&mut ctx) {}
    assert!(ctx.get_block(Label(2)).is_none());
    assert!(merge_linear_block_chains(&mut ctx));
    assert!(ctx.get_block(Label(1)).is_none());
    assert!(ctx.get_block(Label(3)).is_none());
    assert_eq!(body_text(&ctx, 0), vec![s("T0 <- $1")]);
    assert_eq!(terminator_text(&ctx, 0), "RETURN T0");
    assert!(!merge_linear_block_chains(&mut ctx));
}

#[test]
fn merged_block_relabels_phi_of_its_successor() {
    let mut ctx = IRContext::new();
    let l1 = ctx.create_block();
    let l2 = ctx.create_block();
    let l3 = ctx.create_block();
    let t0 = ctx.create_temp(Typ::Int);
    let t1 = ctx.create_temp(Typ::Int);
    ctx.set_block_terminator(Instr::JumpTo(l1));
    ctx.switch_to_block(l1);
    ctx.add_pred_to_block(Label(0));
    ctx.add_instr_to_block(Instr::Move { dest: t0.clone(), src: konst(7) });
    ctx.set_block_terminator(Instr::JumpIf { pred: Operand::Temp(t0.clone()), holds: l2, fails: l3 });
    ctx.switch_to_block(l2);
    ctx.add_pred_to_block(l1);
    ctx.set_block_terminator(Instr::JumpTo(l3));
    ctx.switch_to_block(l3);
    ctx.add_pred_to_block(l1);
    ctx.add_pred_to_block(l2);
    ctx.add_instr_to_block(Instr::Phi { dest: t1.clone(), srcs: vec![(l1, konst(1)), (l2, konst(2))] });
    ctx.set_block_terminator(Instr::Return(Some(Operand::Temp(t1.clone()))));
    assert!(merge_linear_block_chains(&mut ctx));
    assert!(ctx.get_block(Label(1)).is_none());
    assert_eq!(body_text(&ctx, 0), vec![s("T0 <- $7")]);
    assert_eq!(terminator_text(&ctx, 0), "IF T0 JUMP .L2 ELSE .L3");
    assert_eq!(ctx.get_block(Label(2)).unwrap().preds, vec![Label(0)]);
    assert_eq!(ctx.get_block(Label(3)).unwrap().preds, vec![Label(0), Label(2)]);
    assert_eq!(body_text(&ctx, 3), vec![s("T1 <- PHI |.L0 : $1, .L2 : $2|")]);
    assert!(!merge_linear_block_chains(&mut ctx));
}

#[test]
fn temp_types_keep_the_first_type_seen() {
    let ptr = Typ::Pointer(Box::new(Typ::Int), 0);
    let mut types: HashMap<usize, Typ> = HashMap::new();
    let add = Instr::BinOp {
        op: BinOp::Add,
        dest: (2, Typ::Int),
        lhs: Operand::Temp((0, ptr.clone())),
        rhs: Operand::Temp((2, Typ::Bool)),
    };
    get_temp_types(&add, &mut types);
    assert_eq!(types.len(), 2);
    assert!(types.get(&2).unwrap().same(&Typ::Int));
    assert!(types.get(&0).unwrap().same(&ptr));
    let phi = Instr::Phi { dest: (0, Typ::Int), srcs: vec![(Label(1), Operand::Temp((5, Typ::Bool))), (Label(2), konst(3))] };
    get_temp_types(&phi, &mut types);
    assert_eq!(types.len(), 3);
    assert!(types.get(&0).unwrap().same(&ptr));
    assert!(types.get(&5).unwrap().same(&Typ::Bool));
    get_temp_types(&Instr::Return(None), &mut types);
    assert_eq!(types.len(), 3);
}

#[test]
fn temporaries_read_but_never_defined_are_overdefined() {
    let mut ctx = IRContext::new();
    let l1 = ctx.create_block();
    let t0 = ctx.create_temp(Typ::Int);
    let t1 = ctx.create_temp(Typ::Int);
    let t2 = ctx.create_temp(Typ::Bool);
    ctx.add_instr_to_block(Instr::BinOp { op: BinOp::Add, dest: t1.clone(), lhs: Operand::Temp(t0.clone()), rhs: konst(1) });
    ctx.set_block_terminator(Instr::JumpIf { pred: Operand::Temp(t2.clone()), holds: l1, fails: l1 });
    ctx.switch_to_block(l1);
    ctx.set_block_terminator(Instr::Return(Some(Operand::Temp(t1.clone()))));
    let mut lattice: Vec<(usize, LatticeValue)> = Vec::new();
    overdefine_live_in_temps(&mut lattice, &ctx);
    assert_eq!(lattice.len(), 2);
    assert!(lattice.iter().any(|(id, v)| *id == 0 && matches!(v, LatticeValue::Overdefined)));
    assert!(lattice.iter().any(|(id, v)| *id == 2 && matches!(v, LatticeValue::Overdefined)));
    assert!(!lattice.iter().any(|(id, _)| *id == 1));
}

#[test]
fn propagation_rounds_find_constants_and_the_branch_taken() {
    let mut ctx = IRContext::new();
    let l1 = ctx.create_block();
    let l2 = ctx.create_block();
    let t0 = ctx.create_temp(Typ::Int);
    let t1 = ctx.create_temp(Typ::Int);
    ctx.add_instr_to_block(Instr::Move { dest: t0.clone(), src: konst(3) });
    ctx.add_instr_to_block(Instr::BinOp { op: BinOp::Add, dest: t1.clone(), lhs: Operand::Temp(t0.clone()), rhs: konst(4) });
    ctx.set_block_terminator(Instr::JumpIf { pred: Operand::Temp(t1.clone()), holds: l1, fails: l2 });
    ctx.switch_to_block(l1);
    ctx.set_block_terminator(Instr::Return(Some(Operand::Temp(t1.clone()))));
    ctx.switch_to_block(l2);
    ctx.set_block_terminator(Instr::Return(Some(konst(0))));
    let mut lattice: Vec<(usize, LatticeValue)> = Vec::new();
    let mut state = vec![Label(0)];
    assert!(sccp_round(&ctx, &mut lattice, &mut state, false));
    assert_eq!(state, vec![Label(0), l1]);
    assert!(lattice.iter().any(|(id, v)| *id == 0 && matches!(v, LatticeValue::Const((3, _)))));
    assert!(lattice.iter().any(|(id, v)| *id == 1 && matches!(v, LatticeValue::Const((7, _)))));
    assert!(!sccp_round(&ctx, &mut lattice, &mut state, false));
    assert_eq!(state, vec![Label(0), l1]);

    assert!(sccp_rewrite(&mut ctx, &lattice, &state));
    assert!(ctx.get_block(l2).is_none());
    assert_eq!(body_text(&ctx, 0), vec![s("T0 <- $3"), s("T1 <- $7")]);
    assert_eq!(terminator_text(&ctx, 0), "JUMP .L1");
    assert_eq!(terminator_text(&ctx, 1), "RETURN T1");
    assert!(!sccp_rewrite(&mut ctx, &lattice, &state));
}
