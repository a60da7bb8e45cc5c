//! Tail-call elimination: a call whose result is returned at once becomes the block's
//! terminator.
use vstd::prelude::*;

use crate::ir::{lemma_wf_slots, same_temp, temps_equal, BasicBlock, IRContext, Instr, Label, Operand};

verus! {

/// How many trailing body instructions the return of a block absorbs as a tail call
/// (zero when it cannot become one).
pub open spec fn tail_call_width(b: BasicBlock) -> nat {
    let body = b.body@;
    let n = body.len();
    if n == 0 {
        0
    } else {
        match b.terminator {
            Some(Instr::Return(None)) => if body[n - 1] matches Instr::Call { dest: None, .. } {
                1
            } else {
                0
            },
            Some(Instr::Return(Some(Operand::Temp(ret)))) => if body[n - 1] matches Instr::Call {
                dest: Some(d),
                ..
            } && same_temp(d, ret) {
                1
            } else if n >= 2 && (body[n - 2] matches Instr::Call { dest: Some(cd), .. } && (
            body[n - 1] matches Instr::Move { dest: md, src: Operand::Temp(ms) } && same_temp(md, ret)
                && same_temp(ms, cd))) {
                2
            } else {
                0
            },
            _ => 0,
        }
    }
}

/// `nb` is block `b` after tail-call elimination: the absorbed call and copy leave the
/// body and the call becomes the terminator; nothing else changes.
pub open spec fn tail_call_rewritten(b: BasicBlock, nb: BasicBlock) -> bool {
    let w = tail_call_width(b);
    if w == 0 {
        nb == b
    } else {
        let n = b.body@.len();
        &&& nb == (BasicBlock { body: nb.body, terminator: nb.terminator, ..b })
        &&& nb.body@ == b.body@.take(n - w)
        &&& b.body@[n - w] matches Instr::Call { name, args, .. } && nb.terminator == Some(
            Instr::TailCall { name, args },
        )
    }
}

/// How many trailing instructions of a block its return absorbs as a tail call.
fn tail_call_width_of(b: &BasicBlock) -> (r: usize)
    ensures
        r == tail_call_width(*b),
{
    let n = b.body.len();
    if n == 0 {
        return 0;
    }
    match &b.terminator {
        Some(Instr::Return(None)) => match &b.body[n - 1] {
            Instr::Call { dest: None, .. } => 1,
            _ => 0,
        },
        Some(Instr::Return(Some(Operand::Temp(ret)))) => {
            if let Instr::Call { dest: Some(d), .. } = &b.body[n - 1] {
                if temps_equal(d, ret) {
                    return 1;
                }
            }
            if n >= 2 {
                if let Instr::Call { dest: Some(cd), .. } = &b.body[n - 2] {
                    if let Instr::Move { dest: md, src: Operand::Temp(ms) } = &b.body[n - 1] {
                        if temps_equal(md, ret) && temps_equal(ms, cd) {
                            return 2;
                        }
                    }
                }
            }
            0
        },
        _ => 0,
    }
}

/// Tail-call elimination on explicit call-returns: in each block whose return gives
/// back the result of the call just before it (directly or through one copy), the call
/// becomes a tail-call terminator. Returns whether any block changed.
pub fn tail_call_elimination(ctx: &mut IRContext) -> (changed: bool)
    requires
        old(ctx).wf(),
    ensures
        final(ctx).wf(),
        final(ctx).labels() == old(ctx).labels(),
        final(ctx).temps() == old(ctx).temps(),
        final(ctx).current() == old(ctx).current(),
        final(ctx).trivial_table() == old(ctx).trivial_table(),
        final(ctx).slots().len() == old(ctx).slots().len(),
        forall|i: int| 0 <= i < old(ctx).slots().len() ==> match #[trigger] old(ctx).slots()[i] {
            None => final(ctx).slots()[i] is None,
            Some(b) => final(ctx).slots()[i] matches Some(nb) && tail_call_rewritten(b, nb),
        },
        changed <==> exists|i: int|
            0 <= i < old(ctx).slots().len() && (#[trigger] old(ctx).slots()[i] matches Some(b)
                && tail_call_width(b) > 0),
{
    let n = ctx.label_count();
    proof { lemma_wf_slots(*ctx); }
    let mut changed = false;
    let mut i: usize = 0;
    while i < n
        invariant
            ctx.wf(),
            n == ctx.labels(),
            ctx.labels() == old(ctx).labels(),
            ctx.temps() == old(ctx).temps(),
            ctx.current() == old(ctx).current(),
            ctx.trivial_table() == old(ctx).trivial_table(),
            ctx.slots().len() == n,
            old(ctx).slots().len() == n,
            i <= n,
            forall|j: int| i <= j < n ==> #[trigger] ctx.slots()[j] == old(ctx).slots()[j],
            forall|j: int| 0 <= j < i ==> match #[trigger] old(ctx).slots()[j] {
                None => ctx.slots()[j] is None,
                Some(b) => ctx.slots()[j] matches Some(nb) && tail_call_rewritten(b, nb),
            },
            changed <==> exists|j: int|
                0 <= j < i && (#[trigger] old(ctx).slots()[j] matches Some(b) && tail_call_width(b) > 0),
        decreases n - i,
    {
        let label = Label(i);
        let width = match ctx.get_block(label) {
            Some(b) => tail_call_width_of(b),
            None => 0,
        };
        if width > 0 {
            let ghost b = ctx.block(label);
            let mut body = ctx.replace_block_body(label, Vec::new());
            if width == 2 {
                body.pop();
            }
            let call = body.pop();
            match call {
                Some(Instr::Call { name, args, .. }) => {
                    ctx.replace_block_body(label, body);
                    ctx.replace_block_terminator(label, Some(Instr::TailCall { name, args }));
                },
                _ => {
                    proof {
                        assert(false);
                    }
                },
            }
            proof {
                assert(b.body@.take(b.body@.len() - width) =~= body@);
            }
            changed = true;
        }
        i = i + 1;
    }
    changed
}

} // verus!
