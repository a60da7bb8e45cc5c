//! Alias analysis: the allocation and byte offset each pointer temporary points at,
//! and the allocations whose address leaves the reach of the analysis.
use std::collections::{HashMap, HashSet};
use vstd::prelude::*;

use crate::ast::{BinOp, Typ};
use crate::ir::{BasicBlock, IRContext, Instr, Label, Operand};

verus! {

broadcast use vstd::std_specs::hash::group_hash_axioms;

/// The canonical address class of a pointer temporary.
#[derive(Clone, Copy, PartialEq, Eq, Structural, Debug)]
pub struct AddressClass {
    /// Temp id of the originating `alloc`/`alloc_array` instruction.
    pub alloc_id: usize,
    /// Byte offset.
    pub offset: i64,
}

/// Known state of a pointer temporary.
#[derive(Clone, Copy, PartialEq, Eq, Structural, Debug)]
pub enum PointerTarget {
    /// Pointer to a known, function-local `alloc` at a known byte offset.
    Class(AddressClass),
    /// Pointer to a known offset from an unknown base.
    Relative { base: usize, offset: i64 },
}

/// What is known of temporary `id`.
pub open spec fn target_of(targets: Map<usize, PointerTarget>, id: usize) -> Option<PointerTarget> {
    if targets.contains_key(id) {
        Some(targets[id])
    } else {
        None
    }
}

/// What is known of an operand: nothing for a constant.
pub open spec fn operand_target(op: Operand, targets: Map<usize, PointerTarget>) -> Option<PointerTarget> {
    match op {
        Operand::Temp(t) => target_of(targets, t.0),
        Operand::Const(_) => None,
    }
}

/// The target `offset` bytes past the target of temporary `base`; a base of unknown
/// target becomes the base of a relative target. Offsets wrap around.
pub open spec fn shifted_target(targets: Map<usize, PointerTarget>, base: usize, offset: i64) -> PointerTarget {
    match target_of(targets, base) {
        Some(PointerTarget::Class(c)) => PointerTarget::Class(
            AddressClass { alloc_id: c.alloc_id, offset: c.offset.wrapping_add(offset) },
        ),
        Some(PointerTarget::Relative { base: b, offset: o }) => PointerTarget::Relative {
            base: b,
            offset: o.wrapping_add(offset),
        },
        None => PointerTarget::Relative { base, offset },
    }
}

/// The target a phi gives its destination: the one target all its sources share, when
/// each source is a temporary of known target.
pub open spec fn phi_target(srcs: Seq<(Label, Operand)>, targets: Map<usize, PointerTarget>) -> Option<PointerTarget> {
    if srcs.len() > 0 && operand_target(srcs[0].1, targets) is Some && forall|i: int|
        0 <= i < srcs.len() ==> #[trigger] operand_target(srcs[i].1, targets) == operand_target(srcs[0].1, targets) {
        operand_target(srcs[0].1, targets)
    } else {
        None
    }
}

/// The temporary an instruction defines, with the target it gets: an allocation points
/// at its own start; a pointer-typed addition of a temporary and a constant shifts the
/// temporary's target; a move from a temporary copies its target; a phi whose sources
/// all share a target passes it on.
pub open spec fn pointer_target_from_def(instr: Instr, targets: Map<usize, PointerTarget>) -> Option<(usize, PointerTarget)> {
    match instr {
        Instr::Alloc { dest, .. } => Some((dest.0, PointerTarget::Class(AddressClass { alloc_id: dest.0, offset: 0 }))),
        Instr::AllocArray { dest, .. } => Some(
            (dest.0, PointerTarget::Class(AddressClass { alloc_id: dest.0, offset: 0 })),
        ),
        Instr::BinOp { op: BinOp::Add, dest, lhs, rhs } => if dest.1 is Pointer {
            match (lhs, rhs) {
                (Operand::Temp(t), Operand::Const(c)) => Some((dest.0, shifted_target(targets, t.0, c.0))),
                (Operand::Const(c), Operand::Temp(t)) => Some((dest.0, shifted_target(targets, t.0, c.0))),
                _ => None,
            }
        } else {
            None
        },
        Instr::Move { dest, src: Operand::Temp(s) } => match target_of(targets, s.0) {
            Some(t) => Some((dest.0, t)),
            None => None,
        },
        Instr::Phi { dest, srcs } => match phi_target(srcs@, targets) {
            Some(t) => Some((dest.0, t)),
            None => None,
        },
        _ => None,
    }
}

/// The allocation temporary `id` points into, when its target is an address class.
pub open spec fn alloc_of_temp(targets: Map<usize, PointerTarget>, id: usize) -> Option<usize> {
    match target_of(targets, id) {
        Some(PointerTarget::Class(c)) => Some(c.alloc_id),
        _ => None,
    }
}

/// The allocation an operand points into.
pub open spec fn operand_alloc(op: Operand, targets: Map<usize, PointerTarget>) -> Option<usize> {
    match op {
        Operand::Temp(t) => alloc_of_temp(targets, t.0),
        Operand::Const(_) => None,
    }
}

/// An operand pointing into `a` flows somewhere other than a pointer into `a`.
pub open spec fn leaves(op: Operand, dest_alloc: Option<usize>, targets: Map<usize, PointerTarget>, a: usize) -> bool {
    operand_alloc(op, targets) == Some(a) && dest_alloc != Some(a)
}

/// Some operand of the list leaves `a` (see `leaves`).
pub open spec fn any_leaves(ops: Seq<Operand>, dest_alloc: Option<usize>, targets: Map<usize, PointerTarget>, a: usize) -> bool {
    exists|i: int| 0 <= i < ops.len() && #[trigger] leaves(ops[i], dest_alloc, targets, a)
}

/// Instruction `instr` lets the address of allocation `a` escape: it is stored, passed,
/// returned, compared or otherwise computed with, or copied (by a move, a phi or a
/// pointer addition) into a temporary that does not point into `a` itself.
pub open spec fn escapes_by(instr: Instr, targets: Map<usize, PointerTarget>, a: usize) -> bool {
    match instr {
        Instr::Store { src, .. } => operand_alloc(src, targets) == Some(a),
        Instr::Move { dest, src } => match src {
            Operand::Temp(_) => leaves(src, alloc_of_temp(targets, dest.0), targets, a),
            Operand::Const(_) => false,
        },
        Instr::Phi { dest, srcs } => exists|i: int|
            0 <= i < srcs@.len() && #[trigger] leaves(srcs@[i].1, alloc_of_temp(targets, dest.0), targets, a),
        Instr::BinOp { op, dest, lhs, rhs } => if op is Add {
            leaves(lhs, alloc_of_temp(targets, dest.0), targets, a) || leaves(
                rhs,
                alloc_of_temp(targets, dest.0),
                targets,
                a,
            )
        } else {
            operand_alloc(lhs, targets) == Some(a) || operand_alloc(rhs, targets) == Some(a)
        },
        Instr::UnOp { src, .. } => operand_alloc(src, targets) == Some(a),
        Instr::Call { args, .. } => any_leaves(args@, None, targets, a),
        Instr::TailCall { args, .. } => any_leaves(args@, None, targets, a),
        Instr::Return(Some(op)) => operand_alloc(op, targets) == Some(a),
        Instr::JumpIf { pred, .. } => operand_alloc(pred, targets) == Some(a),
        Instr::Alloc { size, .. } => operand_alloc(size, targets) == Some(a),
        Instr::AllocArray { size, count, .. } => operand_alloc(size, targets) == Some(a) || operand_alloc(
            count,
            targets,
        ) == Some(a),
        _ => false,
    }
}

/// Some instruction of block `b`, its terminator included, lets `a` escape.
pub open spec fn block_escapes(b: BasicBlock, targets: Map<usize, PointerTarget>, a: usize) -> bool {
    ||| exists|k: int| 0 <= k < b.body@.len() && #[trigger] escapes_by(b.body@[k], targets, a)
    ||| (b.terminator matches Some(t) && escapes_by(t, targets, a))
}

/// Some block of the function lets `a` escape.
pub open spec fn escapes_in(slots: Seq<Option<BasicBlock>>, targets: Map<usize, PointerTarget>, a: usize) -> bool {
    exists|j: int| 0 <= j < slots.len() && #[trigger] slots[j] is Some && block_escapes(slots[j]->0, targets, a)
}

/// What is known of temporary `id`.
fn lookup_target(targets: &HashMap<usize, PointerTarget>, id: usize) -> (r: Option<PointerTarget>)
    ensures
        r == target_of(targets@, id),
{
    match targets.get(&id) {
        Some(t) => Some(*t),
        None => None,
    }
}

/// What is known of an operand.
fn lookup_operand(op: &Operand, targets: &HashMap<usize, PointerTarget>) -> (r: Option<PointerTarget>)
    ensures
        r == operand_target(*op, targets@),
{
    match op {
        Operand::Temp(t) => lookup_target(targets, t.0),
        Operand::Const(_) => None,
    }
}

/// The target `offset` bytes past the target of temporary `base`.
fn shift_target(targets: &HashMap<usize, PointerTarget>, base: usize, offset: i64) -> (r: PointerTarget)
    ensures
        r == shifted_target(targets@, base, offset),
{
    match lookup_target(targets, base) {
        Some(PointerTarget::Class(c)) => PointerTarget::Class(
            AddressClass { alloc_id: c.alloc_id, offset: c.offset.wrapping_add(offset) },
        ),
        Some(PointerTarget::Relative { base: b, offset: o }) => PointerTarget::Relative {
            base: b,
            offset: o.wrapping_add(offset),
        },
        None => PointerTarget::Relative { base, offset },
    }
}

/// Compute the pointer target produced by a defining instruction, if any.
pub fn get_pointer_target_from_def(instr: &Instr, targets: &HashMap<usize, PointerTarget>) -> (r: Option<
    (usize, PointerTarget),
>)
    ensures
        r == pointer_target_from_def(*instr, targets@),
{
    match instr {
        Instr::Alloc { dest, .. } => Some((dest.0, PointerTarget::Class(AddressClass { alloc_id: dest.0, offset: 0 }))),
        Instr::AllocArray { dest, .. } => Some(
            (dest.0, PointerTarget::Class(AddressClass { alloc_id: dest.0, offset: 0 })),
        ),
        Instr::BinOp { op, dest, lhs, rhs } => {
            match op {
                BinOp::Add => {},
                _ => return None,
            }
            match &dest.1 {
                Typ::Pointer(_, _) => {},
                _ => return None,
            }
            match lhs {
                Operand::Temp(t) => match rhs {
                    Operand::Const(c) => Some((dest.0, shift_target(targets, t.0, c.0))),
                    Operand::Temp(_) => None,
                },
                Operand::Const(c) => match rhs {
                    Operand::Temp(t) => Some((dest.0, shift_target(targets, t.0, c.0))),
                    Operand::Const(_) => None,
                },
            }
        },
        Instr::Move { dest, src } => match src {
            Operand::Temp(s) => match lookup_target(targets, s.0) {
                Some(t) => Some((dest.0, t)),
                None => None,
            },
            Operand::Const(_) => None,
        },
        Instr::Phi { dest, srcs } => {
            if srcs.len() == 0 {
                return None;
            }
            let first = match lookup_operand(&srcs[0].1, targets) {
                Some(f) => f,
                None => return None,
            };
            let mut i: usize = 1;
            while i < srcs.len()
                invariant
                    1 <= i <= srcs@.len(),
                    pointer_target_from_def(*instr, targets@) == match phi_target(srcs@, targets@) {
                        Some(t) => Some((dest.0, t)),
                        None => None,
                    },
                    operand_target(srcs@[0].1, targets@) == Some(first),
                    forall|j: int| 0 <= j < i ==> #[trigger] operand_target(srcs@[j].1, targets@) == Some(first),
                decreases srcs@.len() - i,
            {
                match lookup_operand(&srcs[i].1, targets) {
                    Some(t) => {
                        if t != first {
                            assert(operand_target(srcs@[i as int].1, targets@) != operand_target(srcs@[0].1, targets@));
                            return None;
                        }
                    },
                    None => {
                        assert(operand_target(srcs@[i as int].1, targets@) != operand_target(srcs@[0].1, targets@));
                        return None;
                    },
                }
                i = i + 1;
            }
            Some((dest.0, first))
        },
        _ => None,
    }
}

/// Get the underlying allocation id of a pointer-type temporary.
pub fn get_alloc_id_of_ptr_temp(targets: &HashMap<usize, PointerTarget>, temp_id: usize) -> (r: Option<usize>)
    ensures
        r == alloc_of_temp(targets@, temp_id),
{
    match lookup_target(targets, temp_id) {
        Some(PointerTarget::Class(c)) => Some(c.alloc_id),
        _ => None,
    }
}

/// The allocation an operand points into.
fn alloc_of_operand(op: &Operand, targets: &HashMap<usize, PointerTarget>) -> (r: Option<usize>)
    ensures
        r == operand_alloc(*op, targets@),
{
    match op {
        Operand::Temp(t) => get_alloc_id_of_ptr_temp(targets, t.0),
        Operand::Const(_) => None,
    }
}

/// Mark the allocation `op` points into as escaping, unless the value stays a pointer
/// into that same allocation.
fn mark_leaving(op: &Operand, dest_alloc: Option<usize>, targets: &HashMap<usize, PointerTarget>, escaping: &mut HashSet<usize>)
    ensures
        forall|a: usize| #[trigger] final(escaping)@.contains(a) == (old(escaping)@.contains(a) || leaves(*op, dest_alloc, targets@, a)),
{
    match alloc_of_operand(op, targets) {
        Some(a) => {
            match dest_alloc {
                Some(d) => {
                    if d != a {
                        escaping.insert(a);
                    }
                },
                None => {
                    escaping.insert(a);
                },
            }
        },
        None => {},
    }
}

/// Mark every allocation that an operand of the list leaves.
fn mark_all_leaving(ops: &Vec<Operand>, dest_alloc: Option<usize>, targets: &HashMap<usize, PointerTarget>, escaping: &mut HashSet<usize>)
    ensures
        forall|a: usize| #[trigger] final(escaping)@.contains(a) == (old(escaping)@.contains(a) || any_leaves(ops@, dest_alloc, targets@, a)),
{
    let ghost e0 = escaping@;
    let mut i: usize = 0;
    while i < ops.len()
        invariant
            i <= ops@.len(),
            forall|a: usize| #[trigger] escaping@.contains(a) == (e0.contains(a) || exists|j: int| 0 <= j < i && #[trigger] leaves(ops@[j], dest_alloc, targets@, a)),
        decreases ops@.len() - i,
    {
        let ghost before = escaping@;
        mark_leaving(&ops[i], dest_alloc, targets, escaping);
        assert forall|a: usize| #[trigger] escaping@.contains(a) == (e0.contains(a) || exists|j: int| 0 <= j < i + 1 && #[trigger] leaves(ops@[j], dest_alloc, targets@, a)) by {
            if leaves(ops@[i as int], dest_alloc, targets@, a) {
                assert(0 <= i < i + 1);
            }
            if exists|j: int| 0 <= j < i + 1 && #[trigger] leaves(ops@[j], dest_alloc, targets@, a) {
                let j = choose|j: int| 0 <= j < i + 1 && #[trigger] leaves(ops@[j], dest_alloc, targets@, a);
                if j < i {
                    assert(before.contains(a));
                }
            }
        }
        i = i + 1;
    }
}

/// Mark pointer-type temporaries that escape the function scope.
pub fn check_escapes(instr: &Instr, targets: &HashMap<usize, PointerTarget>, escaping: &mut HashSet<usize>)
    ensures
        forall|a: usize| #[trigger] final(escaping)@.contains(a) == (old(escaping)@.contains(a) || escapes_by(*instr, targets@, a)),
{
    match instr {
        Instr::Store { src, .. } => mark_leaving(src, None, targets, escaping),
        Instr::Move { dest, src } => match src {
            Operand::Temp(_) => {
                let d = get_alloc_id_of_ptr_temp(targets, dest.0);
                mark_leaving(src, d, targets, escaping);
            },
            Operand::Const(_) => {},
        },
        Instr::Phi { dest, srcs } => {
            let d = get_alloc_id_of_ptr_temp(targets, dest.0);
            let ghost e0 = escaping@;
            let mut i: usize = 0;
            while i < srcs.len()
                invariant
                    i <= srcs@.len(),
                    forall|a: usize| #[trigger] escaping@.contains(a) == (e0.contains(a) || exists|j: int| 0 <= j < i && #[trigger] leaves(srcs@[j].1, d, targets@, a)),
                decreases srcs@.len() - i,
            {
                let ghost before = escaping@;
                mark_leaving(&srcs[i].1, d, targets, escaping);
                assert forall|a: usize| #[trigger] escaping@.contains(a) == (e0.contains(a) || exists|j: int| 0 <= j < i + 1 && #[trigger] leaves(srcs@[j].1, d, targets@, a)) by {
                    if leaves(srcs@[i as int].1, d, targets@, a) {
                        assert(0 <= i < i + 1);
                    }
                    if exists|j: int| 0 <= j < i + 1 && #[trigger] leaves(srcs@[j].1, d, targets@, a) {
                        let j = choose|j: int| 0 <= j < i + 1 && #[trigger] leaves(srcs@[j].1, d, targets@, a);
                        if j < i {
                            assert(before.contains(a));
                        }
                    }
                }
                i = i + 1;
            }
        },
        Instr::BinOp { op, dest, lhs, rhs } => match op {
            BinOp::Add => {
                let d = get_alloc_id_of_ptr_temp(targets, dest.0);
                mark_leaving(lhs, d, targets, escaping);
                mark_leaving(rhs, d, targets, escaping);
            },
            _ => {
                mark_leaving(lhs, None, targets, escaping);
                mark_leaving(rhs, None, targets, escaping);
            },
        },
        Instr::UnOp { src, .. } => mark_leaving(src, None, targets, escaping),
        Instr::Call { args, .. } => mark_all_leaving(args, None, targets, escaping),
        Instr::TailCall { args, .. } => mark_all_leaving(args, None, targets, escaping),
        Instr::Return(Some(op)) => mark_leaving(op, None, targets, escaping),
        Instr::JumpIf { pred, .. } => mark_leaving(pred, None, targets, escaping),
        Instr::Alloc { size, .. } => mark_leaving(size, None, targets, escaping),
        Instr::AllocArray { size, count, .. } => {
            mark_leaving(size, None, targets, escaping);
            mark_leaving(count, None, targets, escaping);
        },
        _ => {},
    }
}

/// The targets after instruction `instr` records the target it defines.
pub open spec fn def_step(targets: Map<usize, PointerTarget>, instr: Instr) -> Map<usize, PointerTarget> {
    match pointer_target_from_def(instr, targets) {
        Some((id, t)) => targets.insert(id, t),
        None => targets,
    }
}

/// Instruction `instr` records a target its destination did not have.
pub open spec fn def_changes(targets: Map<usize, PointerTarget>, instr: Instr) -> bool {
    match pointer_target_from_def(instr, targets) {
        Some((id, t)) => target_of(targets, id) != Some(t),
        None => false,
    }
}

/// The targets after the instructions of `body`, in order, record theirs.
pub open spec fn body_steps(targets: Map<usize, PointerTarget>, body: Seq<Instr>) -> Map<usize, PointerTarget>
    decreases body.len(),
{
    if body.len() == 0 {
        targets
    } else {
        def_step(body_steps(targets, body.drop_last()), body.last())
    }
}

/// Some instruction of `body`, in that walk, records a new target.
pub open spec fn body_changes(targets: Map<usize, PointerTarget>, body: Seq<Instr>) -> bool
    decreases body.len(),
{
    if body.len() == 0 {
        false
    } else {
        body_changes(targets, body.drop_last()) || def_changes(body_steps(targets, body.drop_last()), body.last())
    }
}

/// The targets after one walk over the bodies of all blocks, in label order.
pub open spec fn round_steps(targets: Map<usize, PointerTarget>, slots: Seq<Option<BasicBlock>>) -> Map<usize, PointerTarget>
    decreases slots.len(),
{
    if slots.len() == 0 {
        targets
    } else {
        let m = round_steps(targets, slots.drop_last());
        match slots.last() {
            Some(b) => body_steps(m, b.body@),
            None => m,
        }
    }
}

/// Some instruction, in one walk over all blocks, records a new target.
pub open spec fn round_changes(targets: Map<usize, PointerTarget>, slots: Seq<Option<BasicBlock>>) -> bool
    decreases slots.len(),
{
    if slots.len() == 0 {
        false
    } else {
        round_changes(targets, slots.drop_last()) || match slots.last() {
            Some(b) => body_changes(round_steps(targets, slots.drop_last()), b.body@),
            None => false,
        }
    }
}

proof fn lemma_unchanged_body(targets: Map<usize, PointerTarget>, body: Seq<Instr>)
    requires
        !body_changes(targets, body),
    ensures
        body_steps(targets, body) == targets,
    decreases body.len(),
{
    if body.len() > 0 {
        lemma_unchanged_body(targets, body.drop_last());
        let m = body_steps(targets, body.drop_last());
        if let Some((id, t)) = pointer_target_from_def(body.last(), m) {
            assert(m.insert(id, t) =~= m);
        }
    }
}

/// A round that reports no change leaves every target as it was: the analysis stops
/// only at a fixpoint.
pub proof fn lemma_unchanged_round_is_fixpoint(targets: Map<usize, PointerTarget>, slots: Seq<Option<BasicBlock>>)
    requires
        !round_changes(targets, slots),
    ensures
        round_steps(targets, slots) == targets,
    decreases slots.len(),
{
    if slots.len() > 0 {
        lemma_unchanged_round_is_fixpoint(targets, slots.drop_last());
        if let Some(b) = slots.last() {
            lemma_unchanged_body(round_steps(targets, slots.drop_last()), b.body@);
        }
    }
}

/// One round of the alias analysis: each instruction of each block, in label order,
/// records the target it defines. Returns whether some temporary got a new target; the
/// analysis is done when a round changes nothing.
pub fn refine_pointer_targets(ctx: &IRContext, targets: &mut HashMap<usize, PointerTarget>) -> (changed: bool)
    ensures
        final(targets)@ == round_steps(old(targets)@, ctx.slots()),
        changed == round_changes(old(targets)@, ctx.slots()),
{
    let blocks = ctx.get_blocks();
    let ghost t0 = targets@;
    let mut changed = false;
    let mut j: usize = 0;
    proof {
        assert(blocks@.take(0).len() == 0);
    }
    while j < blocks.len()
        invariant
            blocks@ == ctx.slots(),
            j <= blocks@.len(),
            targets@ == round_steps(t0, blocks@.take(j as int)),
            changed == round_changes(t0, blocks@.take(j as int)),
        decreases blocks@.len() - j,
    {
        proof {
            assert(blocks@.take(j + 1).drop_last() =~= blocks@.take(j as int));
        }
        match &blocks[j] {
            Some(block) => {
                let ghost m0 = targets@;
                let ghost c0 = changed;
                let mut k: usize = 0;
                proof {
                    assert(block.body@.take(0) =~= Seq::<Instr>::empty());
                }
                while k < block.body.len()
                    invariant
                        k <= block.body@.len(),
                        targets@ == body_steps(m0, block.body@.take(k as int)),
                        changed == (c0 || body_changes(m0, block.body@.take(k as int))),
                    decreases block.body@.len() - k,
                {
                    proof {
                        assert(block.body@.take(k + 1).drop_last() =~= block.body@.take(k as int));
                    }
                    match get_pointer_target_from_def(&block.body[k], targets) {
                        Some((id, t)) => {
                            let cur = lookup_target(targets, id);
                            let differs = match cur {
                                Some(c) => c != t,
                                None => true,
                            };
                            if differs {
                                targets.insert(id, t);
                                changed = true;
                            } else {
                                proof {
                                    assert(targets@.insert(id, t) =~= targets@);
                                }
                            }
                        },
                        None => {},
                    }
                    k = k + 1;
                }
                proof {
                    assert(block.body@.take(block.body@.len() as int) =~= block.body@);
                }
            },
            None => {},
        }
        j = j + 1;
    }
    proof {
        assert(blocks@.take(blocks@.len() as int) =~= blocks@);
    }
    changed
}

/// Function-scoped alias information.
pub struct AliasInfo {
    /// Mapping from pointer temps to their known state.
    targets: HashMap<usize, PointerTarget>,
    /// Set of allocations whose address escapes the function scope.
    escaping_allocs: HashSet<usize>,
}

impl AliasInfo {
    /// The known target of each pointer temporary.
    pub closed spec fn target_map(&self) -> Map<usize, PointerTarget> {
        self.targets@
    }

    /// The allocations whose address escapes.
    pub closed spec fn escaping_set(&self) -> Set<usize> {
        self.escaping_allocs@
    }

    /// Alias information from the targets a finished analysis found: an allocation
    /// escapes where some instruction or terminator of some block lets it escape.
    pub fn from_targets(ctx: &IRContext, targets: HashMap<usize, PointerTarget>) -> (r: AliasInfo)
        ensures
            r.target_map() == targets@,
            forall|a: usize| #[trigger] r.escaping_set().contains(a) == escapes_in(ctx.slots(), targets@, a),
    {
        let blocks = ctx.get_blocks();
        let mut escaping: HashSet<usize> = HashSet::new();
        let mut j: usize = 0;
        while j < blocks.len()
            invariant
                blocks@ == ctx.slots(),
                j <= blocks@.len(),
                forall|a: usize| #[trigger] escaping@.contains(a) == exists|i: int|
                    0 <= i < j && #[trigger] blocks@[i] is Some && block_escapes(blocks@[i]->0, targets@, a),
            decreases blocks@.len() - j,
        {
            let ghost e_j = escaping@;
            match &blocks[j] {
                Some(block) => {
                    let mut k: usize = 0;
                    while k < block.body.len()
                        invariant
                            k <= block.body@.len(),
                            forall|a: usize| #[trigger] escaping@.contains(a) == (e_j.contains(a) || exists|i: int|
                                0 <= i < k && #[trigger] escapes_by(block.body@[i], targets@, a)),
                        decreases block.body@.len() - k,
                    {
                        let ghost before = escaping@;
                        check_escapes(&block.body[k], &targets, &mut escaping);
                        assert forall|a: usize| #[trigger] escaping@.contains(a) == (e_j.contains(a) || exists|i: int|
                            0 <= i < k + 1 && #[trigger] escapes_by(block.body@[i], targets@, a)) by {
                            if escapes_by(block.body@[k as int], targets@, a) {
                                assert(0 <= k < k + 1);
                            }
                            if exists|i: int| 0 <= i < k + 1 && #[trigger] escapes_by(block.body@[i], targets@, a) {
                                let i = choose|i: int| 0 <= i < k + 1 && #[trigger] escapes_by(block.body@[i], targets@, a);
                                if i < k {
                                    assert(before.contains(a));
                                }
                            }
                        }
                        k = k + 1;
                    }
                    let ghost e_body = escaping@;
                    match &block.terminator {
                        Some(t) => check_escapes(t, &targets, &mut escaping),
                        None => {},
                    }
                    assert forall|a: usize| #[trigger] escaping@.contains(a) == exists|i: int|
                        0 <= i < j + 1 && #[trigger] blocks@[i] is Some && block_escapes(blocks@[i]->0, targets@, a) by {
                        if block_escapes(blocks@[j as int]->0, targets@, a) {
                            assert(blocks@[j as int] is Some);
                        }
                        if exists|i: int| 0 <= i < j + 1 && #[trigger] blocks@[i] is Some && block_escapes(blocks@[i]->0, targets@, a) {
                            let i = choose|i: int| 0 <= i < j + 1 && #[trigger] blocks@[i] is Some && block_escapes(blocks@[i]->0, targets@, a);
                            if i < j {
                                assert(e_j.contains(a));
                            }
                        }
                    }
                },
                None => {
                    assert forall|a: usize| #[trigger] escaping@.contains(a) == exists|i: int|
                        0 <= i < j + 1 && #[trigger] blocks@[i] is Some && block_escapes(blocks@[i]->0, targets@, a) by {
                        if exists|i: int| 0 <= i < j + 1 && #[trigger] blocks@[i] is Some && block_escapes(blocks@[i]->0, targets@, a) {
                            let i = choose|i: int| 0 <= i < j + 1 && #[trigger] blocks@[i] is Some && block_escapes(blocks@[i]->0, targets@, a);
                            assert(i < j);
                        }
                    }
                },
            }
            j = j + 1;
        }
        AliasInfo { targets, escaping_allocs: escaping }
    }

    /// Resolve an operand to its canonical address class, if known.
    pub fn classify_operand(&self, op: &Operand) -> (r: Option<AddressClass>)
        ensures
            r == match operand_target(*op, self.target_map()) {
                Some(PointerTarget::Class(c)) => Some(c),
                _ => None,
            },
    {
        match self.target_of_operand(op) {
            Some(PointerTarget::Class(c)) => Some(c),
            _ => None,
        }
    }

    /// Resolve an operand to its pointer target.
    pub fn target_of_operand(&self, op: &Operand) -> (r: Option<PointerTarget>)
        ensures
            r == operand_target(*op, self.target_map()),
    {
        lookup_operand(op, &self.targets)
    }

    /// Resolve the temp id to its underlying alloc id, if known.
    pub fn alloc_of(&self, temp_id: usize) -> (r: Option<usize>)
        ensures
            r == alloc_of_temp(self.target_map(), temp_id),
    {
        get_alloc_id_of_ptr_temp(&self.targets, temp_id)
    }

    /// Check if an allocation escapes the function scope.
    pub fn escapes(&self, alloc_id: usize) -> (r: bool)
        ensures
            r == self.escaping_set().contains(alloc_id),
    {
        self.escaping_allocs.contains(&alloc_id)
    }
}

} // verus!
