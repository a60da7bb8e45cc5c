use std::collections::{HashMap, HashSet};

use c0mpile::alias::{
    check_escapes, get_alloc_id_of_ptr_temp, get_pointer_target_from_def, refine_pointer_targets, AddressClass,
    AliasInfo, PointerTarget,
};
use c0mpile::ast::{BinOp, Typ};
use c0mpile::ir::{IRContext, Instr, Label, Operand};

fn ptr() -> Typ {
    Typ::Pointer(Box::new(Typ::Int), 0)
}

fn konst(v: i64) -> Operand {
    Operand::Const((v, Typ::Int))
}

fn class(alloc_id: usize, offset: i64) -> PointerTarget {
    PointerTarget::Class(AddressClass { alloc_id, offset })
}

#[test]
fn allocation_points_at_its_own_start() {
    let targets = HashMap::new();
    let alloc = Instr::Alloc { dest: (3, ptr()), size: konst(8) };
    assert_eq!(get_pointer_target_from_def(&alloc, &targets), Some((3, class(3, 0))));
    let array = Instr::AllocArray { dest: (4, ptr()), size: konst(4), count: konst(10) };
    assert_eq!(get_pointer_target_from_def(&array, &targets), Some((4, class(4, 0))));
}

#[test]
fn pointer_addition_shifts_the_target() {
    let mut targets = HashMap::new();
    targets.insert(0, class(0, 4));
    let add = Instr::BinOp { op: BinOp::Add, dest: (1, ptr()), lhs: Operand::Temp((0, ptr())), rhs: konst(8) };
    assert_eq!(get_pointer_target_from_def(&add, &targets), Some((1, class(0, 12))));
    let swapped = Instr::BinOp { op: BinOp::Add, dest: (1, ptr()), lhs: konst(8), rhs: Operand::Temp((0, ptr())) };
    assert_eq!(get_pointer_target_from_def(&swapped, &targets), Some((1, class(0, 12))));
    let unknown = Instr::BinOp { op: BinOp::Add, dest: (2, ptr()), lhs: Operand::Temp((9, ptr())), rhs: konst(4) };
    assert_eq!(
        get_pointer_target_from_def(&unknown, &targets),
        Some((2, PointerTarget::Relative { base: 9, offset: 4 }))
    );
    let int_add = Instr::BinOp { op: BinOp::Add, dest: (2, Typ::Int), lhs: Operand::Temp((0, ptr())), rhs: konst(4) };
    assert_eq!(get_pointer_target_from_def(&int_add, &targets), None);
    let sub = Instr::BinOp { op: BinOp::Sub, dest: (2, ptr()), lhs: Operand::Temp((0, ptr())), rhs: konst(4) };
    assert_eq!(get_pointer_target_from_def(&sub, &targets), None);
}

#[test]
fn offsets_wrap_around() {
    let mut targets = HashMap::new();
    targets.insert(0, class(0, i64::MAX));
    let add = Instr::BinOp { op: BinOp::Add, dest: (1, ptr()), lhs: Operand::Temp((0, ptr())), rhs: konst(1) };
    assert_eq!(get_pointer_target_from_def(&add, &targets), Some((1, class(0, i64::MIN))));
}

#[test]
fn moves_and_phis_pass_targets_on() {
    let mut targets = HashMap::new();
    targets.insert(0, class(0, 0));
    targets.insert(1, class(0, 0));
    targets.insert(2, class(2, 0));
    let mv = Instr::Move { dest: (5, ptr()), src: Operand::Temp((0, ptr())) };
    assert_eq!(get_pointer_target_from_def(&mv, &targets), Some((5, class(0, 0))));
    let untracked = Instr::Move { dest: (5, ptr()), src: Operand::Temp((7, ptr())) };
    assert_eq!(get_pointer_target_from_def(&untracked, &targets), None);
    let same = Instr::Phi {
        dest: (6, ptr()),
        srcs: vec![(Label(1), Operand::Temp((0, ptr()))), (Label(2), Operand::Temp((1, ptr())))],
    };
    assert_eq!(get_pointer_target_from_def(&same, &targets), Some((6, class(0, 0))));
    let differ = Instr::Phi {
        dest: (6, ptr()),
        srcs: vec![(Label(1), Operand::Temp((0, ptr()))), (Label(2), Operand::Temp((2, ptr())))],
    };
    assert_eq!(get_pointer_target_from_def(&differ, &targets), None);
    let constant = Instr::Phi { dest: (6, ptr()), srcs: vec![(Label(1), Operand::Temp((0, ptr()))), (Label(2), konst(0))] };
    assert_eq!(get_pointer_target_from_def(&constant, &targets), None);
    let empty = Instr::Phi { dest: (6, ptr()), srcs: vec![] };
    assert_eq!(get_pointer_target_from_def(&empty, &targets), None);
}

#[test]
fn stored_and_passed_pointers_escape() {
    let mut targets = HashMap::new();
    targets.insert(0, class(0, 0));
    targets.insert(1, class(0, 4));
    targets.insert(2, PointerTarget::Relative { base: 8, offset: 0 });
    assert_eq!(get_alloc_id_of_ptr_temp(&targets, 1), Some(0));
    assert_eq!(get_alloc_id_of_ptr_temp(&targets, 2), None);

    let mut escaping = HashSet::new();
    check_escapes(&Instr::Store { addr: Operand::Temp((0, ptr())), src: konst(1) }, &targets, &mut escaping);
    assert!(escaping.is_empty());
    check_escapes(&Instr::Move { dest: (1, ptr()), src: Operand::Temp((0, ptr())) }, &targets, &mut escaping);
    assert!(escaping.is_empty());
    check_escapes(&Instr::Move { dest: (5, ptr()), src: Operand::Temp((0, ptr())) }, &targets, &mut escaping);
    assert!(escaping.contains(&0));

    let mut escaping = HashSet::new();
    check_escapes(&Instr::Store { addr: Operand::Temp((2, ptr())), src: Operand::Temp((1, ptr())) }, &targets, &mut escaping);
    assert_eq!(escaping, HashSet::from([0]));

    let mut escaping = HashSet::new();
    let call = Instr::Call { dest: None, name: "f".to_string(), args: vec![konst(1), Operand::Temp((1, ptr()))] };
    check_escapes(&call, &targets, &mut escaping);
    assert_eq!(escaping, HashSet::from([0]));

    let mut escaping = HashSet::new();
    let field = Instr::BinOp { op: BinOp::Add, dest: (1, ptr()), lhs: Operand::Temp((0, ptr())), rhs: konst(4) };
    check_escapes(&field, &targets, &mut escaping);
    assert!(escaping.is_empty());
    let compare = Instr::BinOp { op: BinOp::CmpEq, dest: (7, Typ::Bool), lhs: Operand::Temp((0, ptr())), rhs: konst(0) };
    check_escapes(&compare, &targets, &mut escaping);
    assert_eq!(escaping, HashSet::from([0]));
}

#[test]
fn analysis_rounds_reach_a_fixpoint() {
    let mut ctx = IRContext::new();
    let t0 = ctx.create_temp(ptr());
    let t1 = ctx.create_temp(ptr());
    let t2 = ctx.create_temp(ptr());
    ctx.add_instr_to_block(Instr::Alloc { dest: t0.clone(), size: konst(16) });
    ctx.add_instr_to_block(Instr::BinOp { op: BinOp::Add, dest: t1.clone(), lhs: Operand::Temp(t0.clone()), rhs: konst(4) });
    ctx.add_instr_to_block(Instr::BinOp { op: BinOp::Add, dest: t2.clone(), lhs: Operand::Temp(t1.clone()), rhs: konst(4) });
    ctx.set_block_terminator(Instr::Return(None));

    let mut targets = HashMap::new();
    assert!(refine_pointer_targets(&ctx, &mut targets));
    assert_eq!(targets.get(&0), Some(&class(0, 0)));
    assert_eq!(targets.get(&1), Some(&class(0, 4)));
    assert_eq!(targets.get(&2), Some(&class(0, 8)));
    let before = targets.clone();
    assert!(!refine_pointer_targets(&ctx, &mut targets));
    assert_eq!(targets, before);

    let info = AliasInfo::from_targets(&ctx, targets.clone());
    assert!(!info.escapes(0));
    assert_eq!(info.alloc_of(2), Some(0));
    assert_eq!(info.classify_operand(&Operand::Temp(t2.clone())), Some(AddressClass { alloc_id: 0, offset: 8 }));
    assert_eq!(info.target_of_operand(&konst(3)), None);

    ctx.add_instr_to_block(Instr::Call { dest: None, name: "g".to_string(), args: vec![Operand::Temp(t2.clone())] });
    let info = AliasInfo::from_targets(&ctx, targets);
    assert!(info.escapes(0));
    assert!(!info.escapes(1));
}
