//! Copy propagation: each read of a temporary that is a copy of another operand reads
//! that operand instead, following chains of copies.
use vstd::prelude::*;

use crate::ir::{lemma_wf_slots, same_temp, temps_equal, BasicBlock, IRContext, Instr, Label, Operand};

verus! {

/// The copies made by some instructions, in order: for each move, the id of its
/// destination and its source (a move of a temporary into itself is no copy).
pub open spec fn block_copies(body: Seq<Instr>) -> Seq<(usize, Operand)>
    decreases body.len(),
{
    if body.len() == 0 {
        Seq::<(usize, Operand)>::empty()
    } else {
        block_copies(body.drop_last()) + match body.last() {
            Instr::Move { dest, src } => if src matches Operand::Temp(t) && same_temp(t, dest) {
                Seq::<(usize, Operand)>::empty()
            } else {
                seq![(dest.0, src)]
            },
            _ => Seq::<(usize, Operand)>::empty(),
        }
    }
}

/// The copies made in a function's blocks, in label order.
pub open spec fn slots_copies(slots: Seq<Option<BasicBlock>>) -> Seq<(usize, Operand)>
    decreases slots.len(),
{
    if slots.len() == 0 {
        Seq::<(usize, Operand)>::empty()
    } else {
        slots_copies(slots.drop_last()) + match slots.last() {
            Some(b) => block_copies(b.body@),
            None => Seq::<(usize, Operand)>::empty(),
        }
    }
}

/// The source of the last copy into temporary `id`, if any.
pub open spec fn last_copy(c: Seq<(usize, Operand)>, id: usize) -> Option<Operand>
    decreases c.len(),
{
    if c.len() == 0 {
        None
    } else if c.last().0 == id {
        Some(c.last().1)
    } else {
        last_copy(c.drop_last(), id)
    }
}

/// Follow copies from `op`: stop at a constant, at a temporary that is no copy, or at
/// a temporary already visited (`seen`); `fuel` bounds the number of steps.
pub open spec fn follow_copies(c: Seq<(usize, Operand)>, op: Operand, seen: Seq<usize>, fuel: nat) -> Operand
    decreases fuel,
{
    if fuel == 0 {
        op
    } else {
        match op {
            Operand::Const(_) => op,
            Operand::Temp(t) => if seen.contains(t.0) {
                op
            } else {
                match last_copy(c, t.0) {
                    None => op,
                    Some(next) => follow_copies(c, next, seen.push(t.0), (fuel - 1) as nat),
                }
            },
        }
    }
}

/// The operand that `op` is a copy of. One step more than there are copies suffices:
/// each step but the last visits a new copied temporary.
pub open spec fn resolved(c: Seq<(usize, Operand)>, op: Operand) -> Operand {
    follow_copies(c, op, Seq::<usize>::empty(), c.len() + 1)
}

/// Two operands are the same: same constant and type, or same temporary.
pub open spec fn same_operand(a: Operand, b: Operand) -> bool {
    match a {
        Operand::Const(x) => b matches Operand::Const(y) && x.0 == y.0 && x.1@ == y.1@,
        Operand::Temp(x) => b matches Operand::Temp(y) && same_temp(x, y),
    }
}

/// Propagation changes the operand.
pub open spec fn moved(c: Seq<(usize, Operand)>, op: Operand) -> bool {
    !same_operand(op, resolved(c, op))
}

/// The operand after propagation: the one it is a copy of, where that differs.
pub open spec fn updated(c: Seq<(usize, Operand)>, op: Operand) -> Operand {
    if moved(c, op) {
        resolved(c, op)
    } else {
        op
    }
}

/// `b` is `a` with the operands that propagation reads replaced.
pub open spec fn propagated(a: Instr, b: Instr, c: Seq<(usize, Operand)>) -> bool {
    match a {
        Instr::BinOp { op, dest, lhs, rhs } => b == Instr::BinOp {
            op,
            dest,
            lhs: updated(c, lhs),
            rhs: updated(c, rhs),
        },
        Instr::UnOp { op, dest, src } => b == Instr::UnOp { op, dest, src: updated(c, src) },
        Instr::Call { dest, name, args } => b matches Instr::Call { dest: d2, name: n2, args: a2 }
            && d2 == dest && n2 == name && a2@ == args@.map_values(|o: Operand| updated(c, o)),
        Instr::TailCall { name, args } => b matches Instr::TailCall { name: n2, args: a2 } && n2
            == name && a2@ == args@.map_values(|o: Operand| updated(c, o)),
        Instr::Return(Some(op)) => b == Instr::Return(Some(updated(c, op))),
        Instr::Phi { dest, srcs } => b matches Instr::Phi { dest: d2, srcs: s2 } && d2 == dest
            && s2@ == srcs@.map_values(|p: (Label, Operand)| (p.0, updated(c, p.1))),
        Instr::Move { dest, src } => b == Instr::Move { dest, src: updated(c, src) },
        Instr::Load { dest, addr } => b == Instr::Load { dest, addr: updated(c, addr) },
        Instr::Store { addr, src } => b == Instr::Store { addr: updated(c, addr), src: updated(c, src) },
        Instr::Alloc { dest, size } => b == Instr::Alloc { dest, size: updated(c, size) },
        Instr::AllocArray { dest, size, count } => b == Instr::AllocArray {
            dest,
            size: updated(c, size),
            count: updated(c, count),
        },
        _ => b == a,
    }
}

/// Propagation changes an operand of a body instruction.
pub open spec fn instr_moves(a: Instr, c: Seq<(usize, Operand)>) -> bool {
    match a {
        Instr::BinOp { lhs, rhs, .. } => moved(c, lhs) || moved(c, rhs),
        Instr::UnOp { src, .. } => moved(c, src),
        Instr::Call { args, .. } => exists|j: int| 0 <= j < args@.len() && moved(c, #[trigger] args@[j]),
        Instr::TailCall { args, .. } => exists|j: int| 0 <= j < args@.len() && moved(c, #[trigger] args@[j]),
        Instr::Return(Some(op)) => moved(c, op),
        Instr::Phi { srcs, .. } => exists|j: int| 0 <= j < srcs@.len() && moved(c, (#[trigger] srcs@[j]).1),
        Instr::Move { src, .. } => moved(c, src),
        Instr::Load { addr, .. } => moved(c, addr),
        Instr::Store { addr, src } => moved(c, addr) || moved(c, src),
        Instr::Alloc { size, .. } => moved(c, size),
        Instr::AllocArray { size, count, .. } => moved(c, size) || moved(c, count),
        _ => false,
    }
}

/// A terminator after propagation: only the predicate of a conditional jump is read.
pub open spec fn terminator_propagated(a: Option<Instr>, b: Option<Instr>, c: Seq<(usize, Operand)>) -> bool {
    match a {
        Some(Instr::JumpIf { pred, holds, fails }) => b == Some(
            Instr::JumpIf { pred: updated(c, pred), holds, fails },
        ),
        _ => b == a,
    }
}

/// Propagation changes the predicate of a conditional jump.
pub open spec fn terminator_moves(a: Option<Instr>, c: Seq<(usize, Operand)>) -> bool {
    a matches Some(Instr::JumpIf { pred, .. }) && moved(c, pred)
}

/// Block `nb` is block `b` after propagation.
pub open spec fn block_propagated(b: BasicBlock, nb: BasicBlock, c: Seq<(usize, Operand)>) -> bool {
    &&& nb == (BasicBlock { body: nb.body, terminator: nb.terminator, ..b })
    &&& nb.body@.len() == b.body@.len()
    &&& forall|k: int| 0 <= k < b.body@.len() ==> propagated(#[trigger] b.body@[k], nb.body@[k], c)
    &&& terminator_propagated(b.terminator, nb.terminator, c)
}

/// Propagation changes something in block `b`.
pub open spec fn block_moves(b: BasicBlock, c: Seq<(usize, Operand)>) -> bool {
    (exists|k: int| 0 <= k < b.body@.len() && instr_moves(#[trigger] b.body@[k], c))
        || terminator_moves(b.terminator, c)
}

/// Whether two operands are the same.
pub fn same_operand_exec(a: &Operand, b: &Operand) -> (r: bool)
    ensures
        r == same_operand(*a, *b),
{
    match (a, b) {
        (Operand::Const(x), Operand::Const(y)) => x.0 == y.0 && x.1.same(&y.1),
        (Operand::Temp(x), Operand::Temp(y)) => temps_equal(x, y),
        _ => false,
    }
}

/// Collect the copies made in the function's blocks.
fn collect_copies(ctx: &IRContext) -> (r: Vec<(usize, Operand)>)
    ensures
        r@ == slots_copies(ctx.slots()),
{
    let blocks = ctx.get_blocks();
    let mut copies: Vec<(usize, Operand)> = Vec::new();
    let mut b: usize = 0;
    while b < blocks.len()
        invariant
            b <= blocks@.len(),
            blocks@ == ctx.slots(),
            copies@ == slots_copies(blocks@.take(b as int)),
        decreases blocks@.len() - b,
    {
        proof {
            assert(blocks@.take(b as int + 1).drop_last() =~= blocks@.take(b as int));
        }
        if let Some(block) = &blocks[b] {
            let ghost before = copies@;
            let mut k: usize = 0;
            while k < block.body.len()
                invariant
                    k <= block.body@.len(),
                    copies@ == before + block_copies(block.body@.take(k as int)),
                decreases block.body@.len() - k,
            {
                proof {
                    assert(block.body@.take(k as int + 1).drop_last() =~= block.body@.take(k as int));
                }
                let ghost prev = copies@;
                if let Instr::Move { dest, src } = &block.body[k] {
                    let self_copy = match src {
                        Operand::Temp(t) => temps_equal(t, dest),
                        Operand::Const(_) => false,
                    };
                    if !self_copy {
                        copies.push((dest.0, src.clone()));
                    }
                }
                proof {
                    assert(copies@ =~= before + block_copies(block.body@.take(k as int + 1)));
                }
                k = k + 1;
            }
            proof {
                assert(block.body@.take(block.body@.len() as int) =~= block.body@);
            }
        }
        proof {
            assert(copies@ =~= slots_copies(blocks@.take(b as int + 1)));
        }
        b = b + 1;
    }
    proof {
        assert(blocks@.take(blocks@.len() as int) =~= blocks@);
    }
    copies
}

/// The source of the last copy into temporary `id`, if any.
fn find_copy(copies: &Vec<(usize, Operand)>, id: usize) -> (r: Option<Operand>)
    ensures
        r == last_copy(copies@, id),
{
    let mut i = copies.len();
    proof {
        assert(copies@.take(copies@.len() as int) =~= copies@);
    }
    while i > 0
        invariant
            i <= copies@.len(),
            last_copy(copies@.take(i as int), id) == last_copy(copies@, id),
        decreases i,
    {
        proof {
            assert(copies@.take(i as int).drop_last() =~= copies@.take(i as int - 1));
        }
        if copies[i - 1].0 == id {
            return Some(copies[i - 1].1.clone());
        }
        i = i - 1;
    }
    proof {
        assert(copies@.take(0) =~= Seq::<(usize, Operand)>::empty());
    }
    None
}

/// Get the operand that `operand` is a copy of.
fn resolve_copy_operand(operand: Operand, copies: &Vec<(usize, Operand)>) -> (r: Operand)
    ensures
        r == resolved(copies@, operand),
{
    let mut current = operand;
    let mut seen: Vec<usize> = Vec::new();
    let mut fuel: u128 = copies.len() as u128 + 1;
    while fuel > 0
        invariant
            follow_copies(copies@, current, seen@, fuel as nat) == resolved(copies@, operand),
        decreases fuel,
    {
        let id = match &current {
            Operand::Const(_) => {
                return current;
            },
            Operand::Temp(t) => t.0,
        };
        let mut k: usize = 0;
        while k < seen.len()
            invariant
                k <= seen@.len(),
                forall|j: int| 0 <= j < k ==> seen@[j] != id,
                fuel > 0,
                current matches Operand::Temp(t) && t.0 == id,
                follow_copies(copies@, current, seen@, fuel as nat) == resolved(copies@, operand),
            decreases seen@.len() - k,
        {
            if seen[k] == id {
                proof {
                    assert(seen@.contains(id));
                }
                return current;
            }
            k = k + 1;
        }
        proof {
            assert(!seen@.contains(id));
        }
        match find_copy(copies, id) {
            None => {
                return current;
            },
            Some(next) => {
                seen.push(id);
                current = next;
                fuel = fuel - 1;
            },
        }
    }
    current
}

/// Replace an operand by the one it is a copy of; also whether that changed it.
fn copy_operand(operand: Operand, copies: &Vec<(usize, Operand)>) -> (r: (Operand, bool))
    ensures
        r.0 == updated(copies@, operand),
        r.1 == moved(copies@, operand),
{
    let resolved = resolve_copy_operand(operand.clone(), copies);
    if same_operand_exec(&operand, &resolved) {
        (operand, false)
    } else {
        (resolved, true)
    }
}

/// Propagate copies into a list of operands.
fn copy_operands(ops: Vec<Operand>, copies: &Vec<(usize, Operand)>) -> (r: (Vec<Operand>, bool))
    ensures
        r.0@ == ops@.map_values(|o: Operand| updated(copies@, o)),
        r.1 <==> exists|j: int| 0 <= j < ops@.len() && moved(copies@, #[trigger] ops@[j]),
{
    let mut out: Vec<Operand> = Vec::new();
    let mut changed = false;
    let mut k: usize = 0;
    while k < ops.len()
        invariant
            k <= ops@.len(),
            out@ == ops@.take(k as int).map_values(|o: Operand| updated(copies@, o)),
            changed <==> exists|j: int| 0 <= j < k && moved(copies@, #[trigger] ops@[j]),
        decreases ops@.len() - k,
    {
        let (op, m) = copy_operand(ops[k].clone(), copies);
        out.push(op);
        proof {
            assert(ops@.take(k as int + 1).map_values(|o: Operand| updated(copies@, o)) =~= ops@.take(
                k as int,
            ).map_values(|o: Operand| updated(copies@, o)).push(updated(copies@, ops@[k as int])));
        }
        changed = changed || m;
        k = k + 1;
    }
    proof {
        assert(ops@.take(ops@.len() as int) =~= ops@);
    }
    (out, changed)
}

/// Propagate copies into the sources of a phi node.
fn copy_phi_srcs(srcs: Vec<(Label, Operand)>, copies: &Vec<(usize, Operand)>) -> (r: (Vec<(Label, Operand)>, bool))
    ensures
        r.0@ == srcs@.map_values(|p: (Label, Operand)| (p.0, updated(copies@, p.1))),
        r.1 <==> exists|j: int| 0 <= j < srcs@.len() && moved(copies@, (#[trigger] srcs@[j]).1),
{
    let mut out: Vec<(Label, Operand)> = Vec::new();
    let mut changed = false;
    let mut k: usize = 0;
    while k < srcs.len()
        invariant
            k <= srcs@.len(),
            out@ == srcs@.take(k as int).map_values(|p: (Label, Operand)| (p.0, updated(copies@, p.1))),
            changed <==> exists|j: int| 0 <= j < k && moved(copies@, (#[trigger] srcs@[j]).1),
        decreases srcs@.len() - k,
    {
        let (op, m) = copy_operand(srcs[k].1.clone(), copies);
        out.push((srcs[k].0, op));
        proof {
            assert(srcs@.take(k as int + 1).map_values(|p: (Label, Operand)| (p.0, updated(copies@, p.1)))
                =~= srcs@.take(k as int).map_values(|p: (Label, Operand)| (p.0, updated(copies@, p.1))).push(
                (srcs@[k as int].0, updated(copies@, srcs@[k as int].1)),
            ));
        }
        changed = changed || m;
        k = k + 1;
    }
    proof {
        assert(srcs@.take(srcs@.len() as int) =~= srcs@);
    }
    (out, changed)
}

/// Copy propagation on an instruction of a block's body; also whether it changed.
fn propagate_on_instr(instr: Instr, copies: &Vec<(usize, Operand)>) -> (r: (Instr, bool))
    ensures
        propagated(instr, r.0, copies@),
        r.1 == instr_moves(instr, copies@),
{
    match instr {
        Instr::BinOp { op, dest, lhs, rhs } => {
            let (lhs, m1) = copy_operand(lhs, copies);
            let (rhs, m2) = copy_operand(rhs, copies);
            (Instr::BinOp { op, dest, lhs, rhs }, m1 || m2)
        },
        Instr::UnOp { op, dest, src } => {
            let (src, m) = copy_operand(src, copies);
            (Instr::UnOp { op, dest, src }, m)
        },
        Instr::Call { dest, name, args } => {
            let (args, m) = copy_operands(args, copies);
            (Instr::Call { dest, name, args }, m)
        },
        Instr::TailCall { name, args } => {
            let (args, m) = copy_operands(args, copies);
            (Instr::TailCall { name, args }, m)
        },
        Instr::Return(Some(op)) => {
            let (op, m) = copy_operand(op, copies);
            (Instr::Return(Some(op)), m)
        },
        Instr::Phi { dest, srcs } => {
            let (srcs, m) = copy_phi_srcs(srcs, copies);
            (Instr::Phi { dest, srcs }, m)
        },
        Instr::Move { dest, src } => {
            let (src, m) = copy_operand(src, copies);
            (Instr::Move { dest, src }, m)
        },
        Instr::Load { dest, addr } => {
            let (addr, m) = copy_operand(addr, copies);
            (Instr::Load { dest, addr }, m)
        },
        Instr::Store { addr, src } => {
            let (addr, m1) = copy_operand(addr, copies);
            let (src, m2) = copy_operand(src, copies);
            (Instr::Store { addr, src }, m1 || m2)
        },
        Instr::Alloc { dest, size } => {
            let (size, m) = copy_operand(size, copies);
            (Instr::Alloc { dest, size }, m)
        },
        Instr::AllocArray { dest, size, count } => {
            let (size, m1) = copy_operand(size, copies);
            let (count, m2) = copy_operand(count, copies);
            (Instr::AllocArray { dest, size, count }, m1 || m2)
        },
        other => (other, false),
    }
}

/// Copy propagation on a block's terminator; also whether it changed.
fn propagate_on_terminator(terminator: Option<Instr>, copies: &Vec<(usize, Operand)>) -> (r: (Option<Instr>, bool))
    ensures
        terminator_propagated(terminator, r.0, copies@),
        r.1 == terminator_moves(terminator, copies@),
{
    match terminator {
        Some(Instr::JumpIf { pred, holds, fails }) => {
            let (pred, m) = copy_operand(pred, copies);
            (Some(Instr::JumpIf { pred, holds, fails }), m)
        },
        other => (other, false),
    }
}

/// Copy propagation: every read of a copied temporary, in the blocks' bodies and in
/// the predicates of conditional jumps, reads the operand it is a copy of. Returns
/// whether anything changed; a function without copies is left as it is.
pub fn copy_propagation(ctx: &mut IRContext) -> (changed: bool)
    requires
        old(ctx).wf(),
    ensures
        final(ctx).wf(),
        final(ctx).labels() == old(ctx).labels(),
        final(ctx).temps() == old(ctx).temps(),
        final(ctx).current() == old(ctx).current(),
        final(ctx).trivial_table() == old(ctx).trivial_table(),
        slots_copies(old(ctx).slots()).len() == 0 ==> final(ctx).slots() == old(ctx).slots() && !changed,
        slots_copies(old(ctx).slots()).len() > 0 ==> {
            &&& final(ctx).slots().len() == old(ctx).slots().len()
            &&& forall|i: int| 0 <= i < old(ctx).slots().len() ==> match #[trigger] old(ctx).slots()[i] {
                None => final(ctx).slots()[i] is None,
                Some(b) => final(ctx).slots()[i] matches Some(nb) && block_propagated(
                    b,
                    nb,
                    slots_copies(old(ctx).slots()),
                ),
            }
            &&& changed <==> exists|i: int| 0 <= i < old(ctx).slots().len() && (
                #[trigger] old(ctx).slots()[i] matches Some(b) && block_moves(b, slots_copies(old(ctx).slots())))
        },
{
    proof { lemma_wf_slots(*ctx); }
    let copies = collect_copies(ctx);
    if copies.len() == 0 {
        return false;
    }
    let ghost s = ctx.slots();
    let ghost c = copies@;
    let n = ctx.label_count();
    let mut changed = false;
    let mut b: usize = 0;
    while b < n
        invariant
            ctx.wf(),
            ctx.labels() == old(ctx).labels(),
            ctx.temps() == old(ctx).temps(),
            ctx.current() == old(ctx).current(),
            ctx.trivial_table() == old(ctx).trivial_table(),
            s == old(ctx).slots(),
            c == copies@,
            c == slots_copies(s),
            s.len() == n,
            ctx.slots().len() == n,
            b <= n,
            forall|i: int| b <= i < n ==> #[trigger] ctx.slots()[i] == s[i],
            forall|i: int| 0 <= i < b ==> match #[trigger] s[i] {
                None => ctx.slots()[i] is None,
                Some(blk) => ctx.slots()[i] matches Some(nb) && block_propagated(blk, nb, c),
            },
            changed <==> exists|i: int| 0 <= i < b && (#[trigger] s[i] matches Some(blk) && block_moves(blk, c)),
        decreases n - b,
    {
        let label = Label(b);
        if ctx.get_block(label).is_some() {
            let ghost blk = s[b as int]->0;
            let mut body = ctx.replace_block_body(label, Vec::new());
            let mut new_body: Vec<Instr> = Vec::new();
            let mut block_changed = false;
            let mut k: usize = 0;
            while k < body.len()
                invariant
                    body@.len() == blk.body@.len(),
                    k <= body@.len(),
                    forall|j: int| k <= j < body@.len() ==> #[trigger] body@[j] == blk.body@[j],
                    new_body@.len() == k,
                    forall|j: int| 0 <= j < k ==> propagated(#[trigger] blk.body@[j], new_body@[j], c),
                    block_changed <==> exists|j: int| 0 <= j < k && instr_moves(#[trigger] blk.body@[j], c),
                    c == copies@,
                decreases body@.len() - k,
            {
                let mut x = Instr::Return(None);
                std::mem::swap(&mut x, &mut body[k]);
                let (y, m) = propagate_on_instr(x, &copies);
                new_body.push(y);
                block_changed = block_changed || m;
                k = k + 1;
            }
            ctx.replace_block_body(label, new_body);
            let terminator = ctx.replace_block_terminator(label, None);
            let (terminator, m) = propagate_on_terminator(terminator, &copies);
            ctx.replace_block_terminator(label, terminator);
            changed = changed || block_changed || m;
        }
        b = b + 1;
    }
    changed
}

} // verus!
