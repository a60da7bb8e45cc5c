//! Aggressive dead-code elimination: instructions whose result nobody reads, and
//! whose removal cannot change what the program does, are dropped until none is left.
use vstd::prelude::*;

use crate::ast::BinOp;
use crate::cfg::{
    block_uses, compute_uses_of_all_temps, dest_of, get_dest_temp_from_instruction,
    get_operands_from_instruction, instrs_uses, operand_uses, operands_of, slots_uses,
};
use crate::ir::{lemma_wf_slots, BasicBlock, IRContext, Instr, Label, Operand};

verus! {

/// Whether an instruction may be removed when its result is unused: it has no effect
/// besides its result (and, unless unchecked code is allowed, cannot trap).
pub open spec fn eliminable(i: Instr, is_unsafe: bool) -> bool {
    match i {
        Instr::Move { .. } => true,
        Instr::UnOp { .. } => true,
        Instr::Phi { .. } => true,
        Instr::BinOp { op, dest, .. } => is_unsafe || !(op == BinOp::Div || op == BinOp::Mod
            || op == BinOp::Sal || op == BinOp::Sar || dest.1 is Pointer),
        Instr::Load { .. } => is_unsafe,
        _ => false,
    }
}

/// An instruction is dead in a function: it defines a temporary that nothing reads,
/// and it may be removed.
pub open spec fn dead_in(slots: Seq<Option<BasicBlock>>, i: Instr, is_unsafe: bool) -> bool {
    &&& dest_of(i) is Some
    &&& slots_uses(slots, (dest_of(i)->0).0) == 0
    &&& eliminable(i, is_unsafe)
}

/// The instructions of a body that are not dead, in order.
pub open spec fn live_part(body: Seq<Instr>, slots: Seq<Option<BasicBlock>>, is_unsafe: bool) -> Seq<Instr>
    decreases body.len(),
{
    if body.len() == 0 {
        Seq::<Instr>::empty()
    } else if dead_in(slots, body.last(), is_unsafe) {
        live_part(body.drop_last(), slots, is_unsafe)
    } else {
        live_part(body.drop_last(), slots, is_unsafe).push(body.last())
    }
}

/// A block has a dead instruction.
pub open spec fn has_dead(slots: Seq<Option<BasicBlock>>, b: BasicBlock, is_unsafe: bool) -> bool {
    exists|k: int| 0 <= k < b.body@.len() && dead_in(slots, #[trigger] b.body@[k], is_unsafe)
}

/// No block of the function has a dead instruction.
pub open spec fn no_dead(slots: Seq<Option<BasicBlock>>, is_unsafe: bool) -> bool {
    forall|i: int| 0 <= i < slots.len() ==> (#[trigger] slots[i] matches Some(b) ==> !has_dead(slots, b, is_unsafe))
}

/// One round: every block with a dead instruction (as counted in `s`) keeps only its
/// live part; the other blocks stay as they are.
pub open spec fn adce_round(s: Seq<Option<BasicBlock>>, t: Seq<Option<BasicBlock>>, is_unsafe: bool) -> bool {
    &&& t.len() == s.len()
    &&& forall|i: int| 0 <= i < s.len() ==> match #[trigger] s[i] {
        None => t[i] is None,
        Some(b) => t[i] matches Some(c) && if has_dead(s, b, is_unsafe) {
            c == (BasicBlock { body: c.body, ..b }) && c.body@ == live_part(b.body@, s, is_unsafe)
        } else {
            c == b
        },
    }
}

/// Number of instructions in a block slot's body.
pub open spec fn slot_len(slot: Option<BasicBlock>) -> nat {
    match slot {
        Some(b) => b.body@.len(),
        None => 0,
    }
}

/// Number of body instructions in all blocks.
pub open spec fn total_len(slots: Seq<Option<BasicBlock>>) -> nat
    decreases slots.len(),
{
    if slots.len() == 0 {
        0
    } else {
        total_len(slots.drop_last()) + slot_len(slots.last())
    }
}

/// A chain of rounds, each of which removed something.
pub open spec fn adce_chain(chain: Seq<Seq<Option<BasicBlock>>>, is_unsafe: bool) -> bool {
    forall|j: int| 0 <= j < chain.len() - 1 ==> {
        &&& adce_round(#[trigger] chain[j], chain[j + 1], is_unsafe)
        &&& total_len(chain[j + 1]) < total_len(chain[j])
    }
}

proof fn lemma_live_part(body: Seq<Instr>, slots: Seq<Option<BasicBlock>>, is_unsafe: bool)
    ensures
        live_part(body, slots, is_unsafe).len() <= body.len(),
        (exists|k: int| 0 <= k < body.len() && dead_in(slots, #[trigger] body[k], is_unsafe))
            ==> live_part(body, slots, is_unsafe).len() < body.len(),
        (forall|k: int| 0 <= k < body.len() ==> !dead_in(slots, #[trigger] body[k], is_unsafe))
            ==> live_part(body, slots, is_unsafe) == body,
    decreases body.len(),
{
    if body.len() > 0 {
        let init = body.drop_last();
        lemma_live_part(init, slots, is_unsafe);
        if exists|k: int| 0 <= k < body.len() && dead_in(slots, #[trigger] body[k], is_unsafe) {
            let k = choose|k: int| 0 <= k < body.len() && dead_in(slots, #[trigger] body[k], is_unsafe);
            if k < body.len() - 1 {
                assert(dead_in(slots, init[k], is_unsafe));
            }
        }
        if forall|k: int| 0 <= k < body.len() ==> !dead_in(slots, #[trigger] body[k], is_unsafe) {
            assert forall|k: int| 0 <= k < init.len() implies !dead_in(slots, #[trigger] init[k], is_unsafe) by {
                assert(init[k] == body[k]);
            }
            assert(!dead_in(slots, body[body.len() - 1], is_unsafe));
            assert(init.push(body.last()) =~= body);
        }
    } else {
        assert(live_part(body, slots, is_unsafe) =~= body);
    }
}

proof fn lemma_total_len_decreases(s: Seq<Option<BasicBlock>>, t: Seq<Option<BasicBlock>>)
    requires
        s.len() == t.len(),
        forall|i: int| 0 <= i < s.len() ==> slot_len(#[trigger] t[i]) <= slot_len(s[i]),
    ensures
        total_len(t) <= total_len(s),
        (exists|i: int| 0 <= i < s.len() && slot_len(#[trigger] t[i]) < slot_len(s[i])) ==> total_len(t)
            < total_len(s),
    decreases s.len(),
{
    if s.len() > 0 {
        let (s1, t1) = (s.drop_last(), t.drop_last());
        assert forall|i: int| 0 <= i < s1.len() implies slot_len(#[trigger] t1[i]) <= slot_len(s1[i]) by {
            assert(t1[i] == t[i] && s1[i] == s[i]);
        }
        lemma_total_len_decreases(s1, t1);
        if exists|i: int| 0 <= i < s.len() && slot_len(#[trigger] t[i]) < slot_len(s[i]) {
            let i = choose|i: int| 0 <= i < s.len() && slot_len(#[trigger] t[i]) < slot_len(s[i]);
            if i < s.len() - 1 {
                assert(t1[i] == t[i] && s1[i] == s[i]);
            }
        }
    }
}

/// Check that if an instruction's result is unused, it can be eliminated.
fn is_instruction_eliminable(instr: &Instr, is_unsafe: bool) -> (r: bool)
    ensures
        r == eliminable(*instr, is_unsafe),
{
    match instr {
        Instr::Move { .. } | Instr::UnOp { .. } | Instr::Phi { .. } => true,
        Instr::BinOp { op, dest, .. } => is_unsafe || !(*op == BinOp::Div || *op == BinOp::Mod
            || *op == BinOp::Sal || *op == BinOp::Sar || matches!(dest.1, crate::ast::Typ::Pointer(_, _))),
        Instr::Load { .. } => is_unsafe,
        _ => false,
    }
}

/// Whether temporary `id` is read anywhere in the function.
fn temp_is_read(ctx: &IRContext, id: usize) -> (r: bool)
    ensures
        r == (slots_uses(ctx.slots(), id) > 0),
{
    let blocks = ctx.get_blocks();
    let mut found = false;
    let mut b: usize = 0;
    while b < blocks.len()
        invariant
            b <= blocks@.len(),
            blocks@ == ctx.slots(),
            found == (slots_uses(blocks@.take(b as int), id) > 0),
        decreases blocks@.len() - b,
    {
        proof {
            assert(blocks@.take(b as int + 1).drop_last() =~= blocks@.take(b as int));
        }
        let ghost before: nat = slots_uses(blocks@.take(b as int), id);
        match &blocks[b] {
            Some(block) => {
                let mut k: usize = 0;
                while k < block.body.len()
                    invariant
                        k <= block.body@.len(),
                        found == (before + instrs_uses(block.body@.take(k as int), id) > 0),
                    decreases block.body@.len() - k,
                {
                    proof {
                        assert(block.body@.take(k as int + 1).drop_last() =~= block.body@.take(k as int));
                    }
                    let ops = get_operands_from_instruction(&block.body[k]);
                    let ghost base: nat = before + instrs_uses(block.body@.take(k as int), id);
                    let mut j: usize = 0;
                    while j < ops.len()
                        invariant
                            j <= ops@.len(),
                            found == (base + operand_uses(ops@.take(j as int), id) > 0),
                        decreases ops@.len() - j,
                    {
                        proof {
                            assert(ops@.take(j as int + 1).drop_last() =~= ops@.take(j as int));
                        }
                        if let Operand::Temp(t) = &ops[j] {
                            if t.0 == id {
                                found = true;
                            }
                        }
                        j = j + 1;
                    }
                    proof {
                        assert(ops@.take(ops@.len() as int) =~= ops@);
                    }
                    k = k + 1;
                }
                proof {
                    assert(block.body@.take(block.body@.len() as int) =~= block.body@);
                }
                if let Some(t) = &block.terminator {
                    let ops = get_operands_from_instruction(t);
                    let ghost base: nat = before + instrs_uses(block.body@, id);
                    let mut j: usize = 0;
                    while j < ops.len()
                        invariant
                            j <= ops@.len(),
                            found == (base + operand_uses(ops@.take(j as int), id) > 0),
                        decreases ops@.len() - j,
                    {
                        proof {
                            assert(ops@.take(j as int + 1).drop_last() =~= ops@.take(j as int));
                        }
                        if let Operand::Temp(t) = &ops[j] {
                            if t.0 == id {
                                found = true;
                            }
                        }
                        j = j + 1;
                    }
                    proof {
                        assert(ops@.take(ops@.len() as int) =~= ops@);
                    }
                }
            },
            None => {},
        }
        b = b + 1;
    }
    proof {
        assert(blocks@.take(blocks@.len() as int) =~= blocks@);
    }
    found
}

/// Whether an instruction is dead, given the read counts of the temporaries.
fn is_dead(ctx: &IRContext, uses: &Vec<usize>, instr: &Instr, is_unsafe: bool) -> (r: bool)
    requires
        uses@.len() == ctx.temps(),
        forall|id: int| 0 <= id < uses@.len() ==> #[trigger] uses@[id] == crate::cfg::capped(
            slots_uses(ctx.slots(), id as usize),
        ),
    ensures
        r == dead_in(ctx.slots(), *instr, is_unsafe),
{
    match get_dest_temp_from_instruction(instr) {
        Some(dest) => {
            let unused = if dest.0 < uses.len() {
                uses[dest.0] == 0
            } else {
                !temp_is_read(ctx, dest.0)
            };
            unused && is_instruction_eliminable(instr, is_unsafe)
        },
        None => false,
    }
}

/// One round of dead-code elimination. Returns whether anything was removed.
fn adce_round_exec(ctx: &mut IRContext, is_unsafe: bool) -> (did_change: bool)
    requires
        old(ctx).wf(),
    ensures
        final(ctx).wf(),
        final(ctx).labels() == old(ctx).labels(),
        final(ctx).temps() == old(ctx).temps(),
        final(ctx).current() == old(ctx).current(),
        final(ctx).trivial_table() == old(ctx).trivial_table(),
        adce_round(old(ctx).slots(), final(ctx).slots(), is_unsafe),
        did_change <==> !no_dead(old(ctx).slots(), is_unsafe),
        did_change ==> total_len(final(ctx).slots()) < total_len(old(ctx).slots()),
        !did_change ==> final(ctx).slots() == old(ctx).slots(),
{
    proof { lemma_wf_slots(*ctx); }
    let ghost s = ctx.slots();
    let uses = compute_uses_of_all_temps(ctx);
    let n = ctx.label_count();
    // Decide first, on the unchanged function, which instructions are dead.
    let mut marks: Vec<Vec<bool>> = Vec::new();
    let mut any: Vec<bool> = Vec::new();
    let mut b: usize = 0;
    while b < n
        invariant
            ctx.slots() == s,
            ctx.wf(),
            s.len() == n,
            b <= n,
            marks@.len() == b,
            any@.len() == b,
            uses@.len() == ctx.temps(),
            forall|id: int| 0 <= id < uses@.len() ==> #[trigger] uses@[id] == crate::cfg::capped(
                slots_uses(ctx.slots(), id as usize),
            ),
            forall|i: int| 0 <= i < b ==> match #[trigger] s[i] {
                Some(blk) => marks@[i]@.len() == blk.body@.len() && (forall|k: int|
                    0 <= k < blk.body@.len() ==> #[trigger] marks@[i]@[k] == dead_in(s, blk.body@[k], is_unsafe))
                    && (any@[i] <==> has_dead(s, blk, is_unsafe)),
                None => !any@[i],
            },
        decreases n - b,
    {
        let mut row: Vec<bool> = Vec::new();
        let mut found = false;
        match ctx.get_block(Label(b)) {
            Some(block) => {
                let mut k: usize = 0;
                while k < block.body.len()
                    invariant
                        ctx.slots() == s,
                        k <= block.body@.len(),
                        row@.len() == k,
                        uses@.len() == ctx.temps(),
                        forall|id: int| 0 <= id < uses@.len() ==> #[trigger] uses@[id] == crate::cfg::capped(
                            slots_uses(ctx.slots(), id as usize),
                        ),
                        forall|j: int| 0 <= j < k ==> #[trigger] row@[j] == dead_in(s, block.body@[j], is_unsafe),
                        found <==> exists|j: int| 0 <= j < k && #[trigger] row@[j],
                    decreases block.body@.len() - k,
                {
                    let d = is_dead(ctx, &uses, &block.body[k], is_unsafe);
                    let ghost old_row = row@;
                    let ghost old_found = found;
                    row.push(d);
                    if d {
                        found = true;
                    }
                    proof {
                        assert forall|j: int| 0 <= j < k implies #[trigger] row@[j] == old_row[j] by {}
                        if d {
                            assert(row@[k as int]);
                        } else if old_found {
                            let j = choose|j: int| 0 <= j < k && #[trigger] old_row[j];
                            assert(row@[j]);
                        }
                        assert forall|j: int| 0 <= j < k + 1 && #[trigger] row@[j] implies found by {
                            if j < k {
                                assert(old_row[j]);
                            }
                        }
                    }
                    k = k + 1;
                }
                proof {
                    if found {
                        let j = choose|j: int| 0 <= j < block.body@.len() && #[trigger] row@[j];
                        assert(dead_in(s, block.body@[j], is_unsafe));
                    }
                    if has_dead(s, *block, is_unsafe) {
                        let j = choose|j: int| 0 <= j < block.body@.len() && dead_in(s, #[trigger] block.body@[j], is_unsafe);
                        assert(row@[j]);
                    }
                }
            },
            None => {},
        }
        marks.push(row);
        any.push(found);
        b = b + 1;
    }
    // Then drop the dead instructions of each block that has some.
    let mut did_change = false;
    let mut b: usize = 0;
    while b < n
        invariant
            ctx.wf(),
            ctx.labels() == old(ctx).labels(),
            ctx.temps() == old(ctx).temps(),
            ctx.current() == old(ctx).current(),
            ctx.trivial_table() == old(ctx).trivial_table(),
            s == old(ctx).slots(),
            s.len() == n,
            ctx.slots().len() == n,
            b <= n,
            marks@.len() == n,
            any@.len() == n,
            forall|i: int| 0 <= i < n ==> match #[trigger] s[i] {
                Some(blk) => marks@[i]@.len() == blk.body@.len() && (forall|k: int|
                    0 <= k < blk.body@.len() ==> #[trigger] marks@[i]@[k] == dead_in(s, blk.body@[k], is_unsafe))
                    && (any@[i] <==> has_dead(s, blk, is_unsafe)),
                None => !any@[i],
            },
            forall|i: int| b <= i < n ==> #[trigger] ctx.slots()[i] == s[i],
            forall|i: int| 0 <= i < b ==> match #[trigger] s[i] {
                None => ctx.slots()[i] is None,
                Some(blk) => ctx.slots()[i] matches Some(c) && if has_dead(s, blk, is_unsafe) {
                    c == (BasicBlock { body: c.body, ..blk }) && c.body@ == live_part(blk.body@, s, is_unsafe)
                } else {
                    c == blk
                },
            },
            did_change <==> exists|i: int| 0 <= i < b && #[trigger] any@[i],
        decreases n - b,
    {
        if any[b] {
            let label = Label(b);
            let ghost blk = s[b as int]->0;
            let mut body = ctx.replace_block_body(label, Vec::new());
            let mut kept: Vec<Instr> = Vec::new();
            let mut k: usize = 0;
            while k < body.len()
                invariant
                    b < n,
                    marks@.len() == n,
                    body@.len() == blk.body@.len(),
                    k <= body@.len(),
                    forall|j: int| k <= j < body@.len() ==> #[trigger] body@[j] == blk.body@[j],
                    marks@[b as int]@.len() == blk.body@.len(),
                    forall|j: int| 0 <= j < blk.body@.len() ==> #[trigger] marks@[b as int]@[j] == dead_in(s, blk.body@[j], is_unsafe),
                    kept@ == live_part(blk.body@.take(k as int), s, is_unsafe),
                decreases body@.len() - k,
            {
                let mut x = Instr::Return(None);
                std::mem::swap(&mut x, &mut body[k]);
                proof {
                    assert(blk.body@.take(k as int + 1).drop_last() =~= blk.body@.take(k as int));
                    assert(blk.body@.take(k as int + 1).last() == blk.body@[k as int]);
                }
                if !marks[b][k] {
                    kept.push(x);
                }
                k = k + 1;
            }
            proof {
                assert(blk.body@.take(blk.body@.len() as int) =~= blk.body@);
            }
            ctx.replace_block_body(label, kept);
            did_change = true;
        }
        proof {
            if !any@[b as int] {
                if let Some(blk) = s[b as int] {
                    assert(!has_dead(s, blk, is_unsafe));
                }
            }
        }
        b = b + 1;
    }
    proof {
        assert forall|i: int| 0 <= i < n implies slot_len(#[trigger] ctx.slots()[i]) <= slot_len(s[i]) by {
            if let Some(blk) = s[i] {
                lemma_live_part(blk.body@, s, is_unsafe);
            }
        }
        if did_change {
            let i = choose|i: int| 0 <= i < n && #[trigger] any@[i];
            let blk = s[i]->0;
            lemma_live_part(blk.body@, s, is_unsafe);
            assert(slot_len(ctx.slots()[i]) < slot_len(s[i]));
            assert(!no_dead(s, is_unsafe)) by {
                assert(has_dead(s, blk, is_unsafe));
            }
        } else {
            assert(ctx.slots() =~= s);
            assert forall|i: int| 0 <= i < n implies (#[trigger] s[i] matches Some(blk) ==> !has_dead(s, blk, is_unsafe)) by {
                assert(!any@[i]);
            }
        }
        lemma_total_len_decreases(s, ctx.slots());
    }
    did_change
}

/// Aggressive dead-code elimination: rounds of removing dead instructions, each counted
/// on the function as the previous round left it, until a round finds none. Returns
/// whether anything was removed.
pub fn adce(ctx: &mut IRContext, is_unsafe: bool) -> (changed: bool)
    requires
        old(ctx).wf(),
    ensures
        final(ctx).wf(),
        final(ctx).labels() == old(ctx).labels(),
        final(ctx).temps() == old(ctx).temps(),
        final(ctx).current() == old(ctx).current(),
        final(ctx).trivial_table() == old(ctx).trivial_table(),
        no_dead(final(ctx).slots(), is_unsafe),
        exists|chain: Seq<Seq<Option<BasicBlock>>>| {
            &&& chain.len() >= 1
            &&& chain[0] == old(ctx).slots()
            &&& chain.last() == final(ctx).slots()
            &&& adce_chain(chain, is_unsafe)
            &&& (changed <==> chain.len() > 1)
        },
{
    let ghost mut chain: Seq<Seq<Option<BasicBlock>>> = seq![ctx.slots()];
    let mut changed = false;
    loop
        invariant
            ctx.wf(),
            ctx.labels() == old(ctx).labels(),
            ctx.temps() == old(ctx).temps(),
            ctx.current() == old(ctx).current(),
            ctx.trivial_table() == old(ctx).trivial_table(),
            chain.len() >= 1,
            chain[0] == old(ctx).slots(),
            chain.last() == ctx.slots(),
            adce_chain(chain, is_unsafe),
            changed <==> chain.len() > 1,
        ensures
            no_dead(ctx.slots(), is_unsafe),
        decreases total_len(ctx.slots()),
    {
        let ghost before = ctx.slots();
        let did_change = adce_round_exec(ctx, is_unsafe);
        if !did_change {
            break;
        }
        proof {
            let old_chain = chain;
            chain = chain.push(ctx.slots());
            assert forall|j: int| 0 <= j < chain.len() - 1 implies {
                &&& adce_round(#[trigger] chain[j], chain[j + 1], is_unsafe)
                &&& total_len(chain[j + 1]) < total_len(chain[j])
            } by {
                if j < old_chain.len() - 1 {
                    assert(chain[j] == old_chain[j] && chain[j + 1] == old_chain[j + 1]);
                } else {
                    assert(chain[j] == before);
                }
            }
        }
        changed = true;
    }
    changed
}

} // verus!
