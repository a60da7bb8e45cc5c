//! Simplification of the control-flow graph: unreachable blocks go, predecessor lists
//! are recomputed, phi nodes lose the sources of removed edges and become moves when
//! one source is left, and conditional jumps with a known outcome become jumps.
use vstd::prelude::*;

use crate::cfg::{get_reachable_labels, get_successors_of_block, reachable, succs};
use crate::ir::{lemma_wf_slots, BasicBlock, IRContext, Instr, Label, Operand};

verus! {

/// What a phi node with a single source becomes: a move from that source.
pub open spec fn trivial_phi_move(i: Instr) -> Option<Instr> {
    match i {
        Instr::Phi { dest, srcs } => if srcs@.len() == 1 {
            Some(Instr::Move { dest, src: srcs@[0].1 })
        } else {
            None
        },
        _ => None,
    }
}

/// What a conditional jump becomes when its outcome is known: a jump to the taken
/// branch (a nonzero constant takes the `holds` branch), or to the single target when
/// both branches agree.
pub open spec fn known_jump(i: Instr) -> Option<Instr> {
    match i {
        Instr::JumpIf { pred, holds, fails } => match pred {
            Operand::Const(c) => Some(Instr::JumpTo(if c.0 != 0 { holds } else { fails })),
            Operand::Temp(_) => if holds == fails {
                Some(Instr::JumpTo(holds))
            } else {
                None
            },
        },
        _ => None,
    }
}

/// Reduce a phi node to a trivial move if possible; returns whether it did.
pub fn simplify_trivial_phi(instr: &mut Instr) -> (changed: bool)
    ensures
        changed == (trivial_phi_move(*old(instr)) is Some),
        changed ==> *final(instr) == trivial_phi_move(*old(instr))->0,
        !changed ==> *final(instr) == *old(instr),
{
    let mv = match &*instr {
        Instr::Phi { dest, srcs } => {
            if srcs.len() != 1 {
                return false;
            }
            Instr::Move { dest: crate::ir::duplicate_temp(dest), src: srcs[0].1.clone() }
        },
        _ => {
            return false;
        },
    };
    *instr = mv;
    true
}

/// Remove a conditional jump from a block terminator, if its outcome is known;
/// returns whether it did.
pub fn simplify_terminator(terminator: &mut Instr) -> (changed: bool)
    ensures
        changed == (known_jump(*old(terminator)) is Some),
        changed ==> *final(terminator) == known_jump(*old(terminator))->0,
        !changed ==> *final(terminator) == *old(terminator),
{
    let jump = match &*terminator {
        Instr::JumpIf { pred, holds, fails } => match pred {
            Operand::Const(c) => Instr::JumpTo(
                if c.0 != 0 {
                    *holds
                } else {
                    *fails
                },
            ),
            Operand::Temp(_) => {
                if *holds == *fails {
                    Instr::JumpTo(*holds)
                } else {
                    return false;
                }
            },
        },
        _ => {
            return false;
        },
    };
    *terminator = jump;
    true
}

/// A block survives simplification: it exists, and is the entry block or reachable from
/// it.
pub open spec fn kept(ctx: IRContext, l: Label) -> bool {
    ctx.has_block(l) && (l.0 == 0 || reachable(ctx, l))
}

/// The block slots without the blocks that do not survive.
pub open spec fn pruned(ctx: IRContext) -> Seq<Option<BasicBlock>> {
    Seq::new(ctx.slots().len(), |i: int| if kept(ctx, Label(i as usize)) { ctx.slots()[i] } else { None })
}

/// Number of times a label occurs in a list.
pub open spec fn count_of(s: Seq<Label>, v: Label) -> nat
    decreases s.len(),
{
    if s.len() == 0 {
        0
    } else {
        count_of(s.drop_last(), v) + if s.last() == v { 1nat } else { 0nat }
    }
}

/// A label repeated `n` times.
pub open spec fn repeat_label(l: Label, n: nat) -> Seq<Label> {
    Seq::new(n, |i: int| l)
}

/// Predecessors of block `v` among the first `k` slots: each existing block in label
/// order, once for each time it jumps to `v`.
pub open spec fn pred_list(p: Seq<Option<BasicBlock>>, v: Label, k: nat) -> Seq<Label>
    decreases k,
{
    if k == 0 {
        Seq::empty()
    } else {
        let u = (k - 1) as nat;
        pred_list(p, v, u) + match p[u as int] {
            Some(b) => repeat_label(Label(u as usize), count_of(succs(b), v)),
            None => Seq::empty(),
        }
    }
}

/// The sources of a phi whose block is still among the predecessors.
pub open spec fn kept_srcs(srcs: Seq<(Label, Operand)>, preds: Seq<Label>) -> Seq<(Label, Operand)>
    decreases srcs.len(),
{
    if srcs.len() == 0 {
        Seq::empty()
    } else {
        let prev = kept_srcs(srcs.drop_last(), preds);
        if preds.contains(srcs.last().0) { prev.push(srcs.last()) } else { prev }
    }
}

/// `b` is instruction `a` after simplification against the predecessors `preds`: a phi
/// keeps the sources from them, and becomes a move when one is left; other
/// instructions stay.
pub open spec fn phi_stepped(a: Instr, b: Instr, preds: Seq<Label>) -> bool {
    match a {
        Instr::Phi { dest, srcs } => {
            let k = kept_srcs(srcs@, preds);
            if k.len() == 1 {
                b == Instr::Move { dest, src: k[0].1 }
            } else {
                b matches Instr::Phi { dest: d2, srcs: s2 } && d2 == dest && s2@ == k
            }
        },
        _ => b == a,
    }
}

/// Whether simplification changes an instruction.
pub open spec fn phi_step_changes(a: Instr, preds: Seq<Label>) -> bool {
    match a {
        Instr::Phi { srcs, .. } => kept_srcs(srcs@, preds).len() != srcs@.len() || kept_srcs(srcs@, preds).len() == 1,
        _ => false,
    }
}

/// A terminator after simplification.
pub open spec fn term_stepped(t: Option<Instr>) -> Option<Instr> {
    match t {
        Some(i) => Some(
            match known_jump(i) {
                Some(j) => j,
                None => i,
            },
        ),
        None => None,
    }
}

/// `b` is block `a` after simplification, `preds` being its new predecessors.
pub open spec fn block_simplified(a: BasicBlock, b: BasicBlock, preds: Seq<Label>) -> bool {
    &&& b.label == a.label
    &&& b.sealed == a.sealed
    &&& b.current_def == a.current_def
    &&& b.incomplete_phis == a.incomplete_phis
    &&& b.preds@ == preds
    &&& b.body@.len() == a.body@.len()
    &&& forall|i: int| 0 <= i < a.body@.len() ==> phi_stepped(#[trigger] a.body@[i], b.body@[i], preds)
    &&& b.terminator == term_stepped(a.terminator)
}

/// Whether simplification changes a block: the number of its predecessors, one of its
/// phis, or its terminator.
pub open spec fn block_changes(a: BasicBlock, preds: Seq<Label>) -> bool {
    ||| a.preds@.len() != preds.len()
    ||| exists|i: int| 0 <= i < a.body@.len() && phi_step_changes(#[trigger] a.body@[i], preds)
    ||| a.terminator matches Some(t) && known_jump(t) is Some
}

/// Whether a label is in a list.
fn label_in(list: &Vec<Label>, label: Label) -> (r: bool)
    ensures
        r == list@.contains(label),
{
    let mut i: usize = 0;
    while i < list.len()
        invariant
            i <= list@.len(),
            forall|j: int| 0 <= j < i ==> list@[j] != label,
        decreases list@.len() - i,
    {
        if list[i] == label {
            return true;
        }
        i = i + 1;
    }
    false
}

proof fn lemma_count_step(s: Seq<Label>, k: int, v: Label)
    requires
        0 <= k < s.len(),
    ensures
        count_of(s.take(k + 1), v) == count_of(s.take(k), v) + if s[k] == v { 1nat } else { 0nat },
{
    assert(s.take(k + 1).drop_last() =~= s.take(k));
    assert(s.take(k + 1).last() == s[k]);
}

/// The predecessor list of every slot (see `pred_list`), indexed by label number.
fn pred_lists(ctx: &IRContext) -> (r: Vec<Vec<Label>>)
    requires
        ctx.wf(),
    ensures
        r@.len() == ctx.slots().len(),
        forall|v: int| 0 <= v < r@.len() ==> (#[trigger] r@[v])@ == pred_list(ctx.slots(), Label(v as usize), ctx.slots().len()),
{
    proof { lemma_wf_slots(*ctx); }
    let n = ctx.label_count();
    let blocks = ctx.get_blocks();
    let mut r: Vec<Vec<Label>> = Vec::new();
    while r.len() < n
        invariant
            r@.len() <= n,
            forall|v: int| 0 <= v < r@.len() ==> (#[trigger] r@[v])@ == Seq::<Label>::empty(),
        decreases n - r@.len(),
    {
        r.push(Vec::new());
    }
    let mut u: usize = 0;
    while u < n
        invariant
            n == ctx.slots().len(),
            blocks@ == ctx.slots(),
            r@.len() == n,
            u <= n,
            forall|v: int| 0 <= v < n ==> (#[trigger] r@[v])@ == pred_list(ctx.slots(), Label(v as usize), u as nat),
        decreases n - u,
    {
        match &blocks[u] {
            Some(b) => {
                let successors = get_successors_of_block(b);
                let ghost r0 = r@;
                let mut k: usize = 0;
                while k < successors.len()
                    invariant
                        n == ctx.slots().len(),
                        blocks@ == ctx.slots(),
                        r@.len() == n,
                        r0.len() == n,
                        u < n,
                        successors@ == succs(*b),
                        k <= successors@.len(),
                        forall|v: int| 0 <= v < n ==> (#[trigger] r0[v])@ == pred_list(ctx.slots(), Label(v as usize), u as nat),
                        forall|v: int| 0 <= v < n ==> (#[trigger] r@[v])@ == r0[v]@ + repeat_label(
                            Label(u),
                            count_of(successors@.take(k as int), Label(v as usize)),
                        ),
                    decreases successors@.len() - k,
                {
                    let t = successors[k];
                    let ghost rb = r@;
                    proof {
                        assert forall|v: int| 0 <= v < n implies #[trigger] count_of(successors@.take(k + 1), Label(v as usize))
                            == count_of(successors@.take(k as int), Label(v as usize)) + if t == Label(v as usize) { 1nat } else { 0nat } by {
                            lemma_count_step(successors@, k as int, Label(v as usize));
                        }
                    }
                    if t.0 < n {
                        let mut inner: Vec<Label> = Vec::new();
                        std::mem::swap(&mut inner, &mut r[t.0]);
                        inner.push(Label(u));
                        r.set(t.0, inner);
                        proof {
                            assert forall|v: int| 0 <= v < n implies (#[trigger] r@[v])@ == r0[v]@ + repeat_label(
                                Label(u),
                                count_of(successors@.take(k + 1), Label(v as usize)),
                            ) by {
                                if v == t.0 {
                                    let c = count_of(successors@.take(k as int), Label(v as usize));
                                    assert(repeat_label(Label(u), c + 1) =~= repeat_label(Label(u), c).push(Label(u)));
                                    assert(r@[v]@ =~= rb[v]@.push(Label(u)));
                                } else {
                                    assert(t != Label(v as usize));
                                    assert(r@[v] == rb[v]);
                                }
                            }
                        }
                    } else {
                        proof {
                            assert forall|v: int| 0 <= v < n implies (#[trigger] r@[v])@ == r0[v]@ + repeat_label(
                                Label(u),
                                count_of(successors@.take(k + 1), Label(v as usize)),
                            ) by {
                                assert(t != Label(v as usize));
                            }
                        }
                    }
                    k = k + 1;
                }
                proof {
                    assert(successors@.take(k as int) =~= successors@);
                    assert forall|v: int| 0 <= v < n implies (#[trigger] r@[v])@ == pred_list(
                        ctx.slots(),
                        Label(v as usize),
                        (u + 1) as nat,
                    ) by {
                        assert(ctx.slots()[u as int] == Some(*b));
                    }
                }
            },
            None => {
                proof {
                    assert forall|v: int| 0 <= v < n implies (#[trigger] r@[v])@ == pred_list(
                        ctx.slots(),
                        Label(v as usize),
                        (u + 1) as nat,
                    ) by {
                        assert(ctx.slots()[u as int] is None);
                        assert(pred_list(ctx.slots(), Label(v as usize), (u + 1) as nat) =~= pred_list(
                            ctx.slots(),
                            Label(v as usize),
                            u as nat,
                        ));
                    }
                }
            },
        }
        u = u + 1;
    }
    r
}

/// The sources of a phi whose block is among the predecessors.
pub fn keep_sources(srcs: &Vec<(Label, Operand)>, preds: &Vec<Label>) -> (r: Vec<(Label, Operand)>)
    ensures
        r@ == kept_srcs(srcs@, preds@),
{
    let mut out: Vec<(Label, Operand)> = Vec::new();
    let mut k: usize = 0;
    assert(srcs@.take(0) =~= Seq::<(Label, Operand)>::empty());
    while k < srcs.len()
        invariant
            k <= srcs@.len(),
            out@ == kept_srcs(srcs@.take(k as int), preds@),
        decreases srcs@.len() - k,
    {
        proof {
            assert(srcs@.take(k + 1).drop_last() =~= srcs@.take(k as int));
            assert(srcs@.take(k + 1).last() == srcs@[k as int]);
        }
        if label_in(preds, srcs[k].0) {
            out.push((srcs[k].0, srcs[k].1.clone()));
        }
        k = k + 1;
    }
    assert(srcs@.take(k as int) =~= srcs@);
    out
}

/// An instruction after simplification against the predecessors `preds`; whether it
/// changed.
fn step_instr(instr: Instr, preds: &Vec<Label>) -> (r: (Instr, bool))
    ensures
        phi_stepped(instr, r.0, preds@),
        r.1 == phi_step_changes(instr, preds@),
{
    match instr {
        Instr::Phi { dest, srcs } => {
            let kept = keep_sources(&srcs, preds);
            let changed = kept.len() != srcs.len() || kept.len() == 1;
            if kept.len() == 1 {
                (Instr::Move { dest, src: kept[0].1.clone() }, changed)
            } else {
                (Instr::Phi { dest, srcs: kept }, changed)
            }
        },
        other => (other, false),
    }
}

/// A block body after simplification against the predecessors `preds`; whether it
/// changed.
fn step_body(body: Vec<Instr>, preds: &Vec<Label>) -> (r: (Vec<Instr>, bool))
    ensures
        r.0@.len() == body@.len(),
        forall|i: int| 0 <= i < body@.len() ==> phi_stepped(#[trigger] body@[i], r.0@[i], preds@),
        r.1 == exists|i: int| 0 <= i < body@.len() && phi_step_changes(#[trigger] body@[i], preds@),
{
    let ghost b0 = body@;
    let mut body = body;
    let mut out: Vec<Instr> = Vec::new();
    let mut changed = false;
    let mut k: usize = 0;
    while k < body.len()
        invariant
            body@.len() == b0.len(),
            forall|i: int| k <= i < b0.len() ==> body@[i] == b0[i],
            k <= b0.len(),
            out@.len() == k,
            forall|i: int| 0 <= i < k ==> phi_stepped(#[trigger] b0[i], out@[i], preds@),
            changed == exists|i: int| 0 <= i < k && phi_step_changes(#[trigger] b0[i], preds@),
        decreases b0.len() - k,
    {
        let mut x = Instr::Return(None);
        std::mem::swap(&mut x, &mut body[k]);
        let (y, c) = step_instr(x, preds);
        out.push(y);
        if c {
            changed = true;
        }
        proof {
            if phi_step_changes(b0[k as int], preds@) {
                assert(exists|i: int| 0 <= i < k + 1 && phi_step_changes(#[trigger] b0[i], preds@));
            }
        }
        k = k + 1;
    }
    (out, changed)
}

/// The terminator after simplification; whether it changed.
fn step_terminator(t: Option<Instr>) -> (r: (Option<Instr>, bool))
    ensures
        r.0 == term_stepped(t),
        r.1 == (t matches Some(i) && known_jump(i) is Some),
{
    match t {
        Some(i) => {
            let mut i = i;
            let c = simplify_terminator(&mut i);
            (Some(i), c)
        },
        None => (None, false),
    }
}

/// Simplify the control-flow graph once: remove the blocks that are not reachable from
/// the entry block, recompute each remaining block's predecessors (see `pred_list`),
/// drop the phi sources of removed edges and turn phis with one source into moves,
/// and turn conditional jumps with a known outcome into jumps. Returns whether
/// anything changed.
pub fn cfg_simplification_pass(ctx: &mut IRContext) -> (changed: bool)
    requires
        old(ctx).wf(),
    ensures
        final(ctx).wf(),
        final(ctx).slots().len() == old(ctx).slots().len(),
        forall|i: int| 0 <= i < old(ctx).slots().len() && !kept(*old(ctx), Label(i as usize))
            ==> (#[trigger] final(ctx).slots()[i]) is None,
        forall|i: int| 0 <= i < old(ctx).slots().len() && kept(*old(ctx), Label(i as usize)) ==> {
            &&& (#[trigger] final(ctx).slots()[i]) is Some
            &&& block_simplified(
                old(ctx).slots()[i]->0,
                final(ctx).slots()[i]->0,
                pred_list(pruned(*old(ctx)), Label(i as usize), old(ctx).slots().len()),
            )
        },
        changed == ((exists|i: int| 0 <= i < old(ctx).slots().len() && #[trigger] old(ctx).slots()[i] is Some && !kept(
            *old(ctx),
            Label(i as usize),
        )) || (exists|i: int| 0 <= i < old(ctx).slots().len() && #[trigger] kept(*old(ctx), Label(i as usize))
            && block_changes(
            old(ctx).slots()[i]->0,
            pred_list(pruned(*old(ctx)), Label(i as usize), old(ctx).slots().len()),
        ))),
{
    proof { lemma_wf_slots(*ctx); }
    let ghost c0 = *ctx;
    let ghost s0 = ctx.slots();
    let ghost p0 = pruned(c0);
    let reach = get_reachable_labels(ctx);
    let n = ctx.label_count();
    let mut removed = false;
    let mut i: usize = 0;
    while i < n
        invariant
            ctx.wf(),
            n == s0.len(),
            ctx.slots().len() == n,
            p0 == pruned(c0),
            s0 == c0.slots(),
            i <= n,
            forall|l: Label| #[trigger] c0.has_block(l) ==> (reach@.contains(l) <==> kept(c0, l)),
            forall|j: int| 0 <= j < i ==> #[trigger] ctx.slots()[j] == p0[j],
            forall|j: int| i <= j < n ==> #[trigger] ctx.slots()[j] == s0[j],
            removed == exists|j: int| 0 <= j < i && #[trigger] s0[j] is Some && !kept(c0, Label(j as usize)),
        decreases n - i,
    {
        proof { lemma_wf_slots(*ctx); }
        let l = Label(i);
        if ctx.get_block(l).is_some() && !label_in(&reach, l) {
            let ghost before = ctx.slots();
            ctx.take_block(l);
            removed = true;
            proof {
                assert(c0.has_block(l));
                assert(!kept(c0, l));
                assert forall|j: int| 0 <= j < i + 1 implies #[trigger] ctx.slots()[j] == p0[j] by {
                    if j < i {
                        assert(ctx.slots()[j] == before[j]);
                    }
                }
            }
        } else {
            proof {
                if c0.has_block(l) {
                    assert(kept(c0, l));
                }
            }
        }
        i = i + 1;
    }
    assert(ctx.slots() =~= p0);
    let lists = pred_lists(ctx);
    let mut changed = removed;
    let mut v: usize = 0;
    while v < n
        invariant
            ctx.wf(),
            n == s0.len(),
            ctx.slots().len() == n,
            p0 == pruned(c0),
            s0 == c0.slots(),
            v <= n,
            lists@.len() == n,
            forall|w: int| 0 <= w < n ==> (#[trigger] lists@[w])@ == pred_list(p0, Label(w as usize), n as nat),
            forall|j: int| v <= j < n ==> #[trigger] ctx.slots()[j] == p0[j],
            forall|j: int| 0 <= j < v && p0[j] is None ==> #[trigger] ctx.slots()[j] is None,
            forall|j: int| 0 <= j < v && p0[j] is Some ==> {
                &&& (#[trigger] ctx.slots()[j]) is Some
                &&& block_simplified(p0[j]->0, ctx.slots()[j]->0, pred_list(p0, Label(j as usize), n as nat))
            },
            changed == (removed || exists|j: int| 0 <= j < v && #[trigger] p0[j] is Some && block_changes(
                p0[j]->0,
                pred_list(p0, Label(j as usize), n as nat),
            )),
        decreases n - v,
    {
        proof { lemma_wf_slots(*ctx); }
        let l = Label(v);
        if ctx.get_block(l).is_some() {
            let ghost a = ctx.slots()[v as int]->0;
            let ghost before = ctx.slots();
            let new_preds = lists[v].clone();
            let old_preds = ctx.replace_block_preds(l, new_preds);
            let preds_changed = old_preds.len() != lists[v].len();
            let body = ctx.replace_block_body(l, Vec::new());
            let (new_body, body_changed) = step_body(body, &lists[v]);
            ctx.replace_block_body(l, new_body);
            let t = ctx.replace_block_terminator(l, None);
            let (new_t, t_changed) = step_terminator(t);
            ctx.replace_block_terminator(l, new_t);
            if preds_changed || body_changed || t_changed {
                changed = true;
            }
            proof {
                assert(ctx.slots()[v as int]->0.preds@ == lists@[v as int]@);
                assert(block_simplified(a, ctx.slots()[v as int]->0, pred_list(p0, l, n as nat)));
                assert(block_changes(a, pred_list(p0, l, n as nat)) == (preds_changed || body_changed || t_changed));
                assert forall|j: int| 0 <= j < n && j != v implies #[trigger] ctx.slots()[j] == before[j] by {}
            }
        }
        v = v + 1;
    }
    proof {
        assert forall|i: int| 0 <= i < s0.len() && !kept(c0, Label(i as usize)) implies (#[trigger] ctx.slots()[i]) is None by {
            assert(p0[i] is None);
        }
        assert forall|i: int| 0 <= i < s0.len() && kept(c0, Label(i as usize)) implies {
            &&& (#[trigger] ctx.slots()[i]) is Some
            &&& block_simplified(s0[i]->0, ctx.slots()[i]->0, pred_list(p0, Label(i as usize), s0.len()))
        } by {
            assert(p0[i] == s0[i]);
        }
        if removed {
            let j = choose|j: int| 0 <= j < n && #[trigger] s0[j] is Some && !kept(c0, Label(j as usize));
        }
        assert forall|j: int| 0 <= j < n && #[trigger] p0[j] is Some implies kept(c0, Label(j as usize)) && p0[j] == s0[j] by {}
        if exists|j: int| 0 <= j < n && #[trigger] p0[j] is Some && block_changes(p0[j]->0, pred_list(p0, Label(j as usize), n as nat)) {
            let j = choose|j: int| 0 <= j < n && #[trigger] p0[j] is Some && block_changes(
                p0[j]->0,
                pred_list(p0, Label(j as usize), n as nat),
            );
            assert(kept(c0, Label(j as usize)));
        }
        if exists|i: int| 0 <= i < n && #[trigger] kept(c0, Label(i as usize)) && block_changes(
            s0[i]->0,
            pred_list(p0, Label(i as usize), n as nat),
        ) {
            let i = choose|i: int| 0 <= i < n && #[trigger] kept(c0, Label(i as usize)) && block_changes(
                s0[i]->0,
                pred_list(p0, Label(i as usize), n as nat),
            );
            assert(p0[i] == s0[i]);
            assert(p0[i] is Some);
        }
    }
    changed
}

/// The successor that block `u` can absorb: the block its jump goes to, when that is
/// another block than `u` and the entry block, exists, and has `u` as its only
/// predecessor.
pub open spec fn merge_target(slots: Seq<Option<BasicBlock>>, u: int) -> Option<Label> {
    match slots[u] {
        Some(b) => match b.terminator {
            Some(Instr::JumpTo(t)) => if t.0 != u && t.0 != 0 && t.0 < slots.len() && slots[t.0 as int] is Some
                && slots[t.0 as int]->0.preds@ == seq![Label(u as usize)] {
                Some(t)
            } else {
                None
            },
            _ => None,
        },
        None => None,
    }
}

/// `u` is the first block that can absorb its successor.
pub open spec fn first_candidate(slots: Seq<Option<BasicBlock>>, u: int) -> bool {
    &&& 0 <= u < slots.len()
    &&& merge_target(slots, u) is Some
    &&& forall|w: int| 0 <= w < u ==> merge_target(slots, w) is None
}

/// No block can absorb its successor.
pub open spec fn no_merge(slots: Seq<Option<BasicBlock>>) -> bool {
    forall|u: int| 0 <= u < slots.len() ==> merge_target(slots, u) is None
}

/// A label with the absorbed block `s` renamed to the absorbing block `u`.
pub open spec fn relabel(l: Label, s: Label, u: Label) -> Label {
    if l == s { u } else { l }
}

/// Phi sources with the absorbed block renamed.
pub open spec fn relabel_srcs(srcs: Seq<(Label, Operand)>, s: Label, u: Label) -> Seq<(Label, Operand)> {
    srcs.map_values(|p: (Label, Operand)| (relabel(p.0, s, u), p.1))
}

/// Predecessors with the absorbed block renamed.
pub open spec fn relabel_preds(preds: Seq<Label>, s: Label, u: Label) -> Seq<Label> {
    preds.map_values(|l: Label| relabel(l, s, u))
}

/// `y` is `x` with the absorbed block renamed in its phi sources, where `on`.
pub open spec fn relabel_instr(x: Instr, y: Instr, s: Label, u: Label, on: bool) -> bool {
    if on {
        match x {
            Instr::Phi { dest, srcs } => y matches Instr::Phi { dest: d2, srcs: s2 } && d2 == dest && s2@ == relabel_srcs(
                srcs@,
                s,
                u,
            ),
            _ => y == x,
        }
    } else {
        y == x
    }
}

/// `y` is instruction `x` of an absorbed block: a phi with one source becomes a move;
/// otherwise the absorbed block is renamed in its phi sources, where `on`.
pub open spec fn absorbed_instr(x: Instr, y: Instr, s: Label, u: Label, on: bool) -> bool {
    match trivial_phi_move(x) {
        Some(m) => y == m,
        None => relabel_instr(x, y, s, u, on),
    }
}

/// `m` is block `a` after absorbing block `sb` (labelled `s`): `a`'s body, then `sb`'s,
/// and `sb`'s terminator; where `on` (the merged block jumps to itself), the absorbed
/// block is renamed in its predecessors and phi sources.
pub open spec fn merged_block(a: BasicBlock, sb: BasicBlock, m: BasicBlock, s: Label, u: Label, on: bool) -> bool {
    &&& m == (BasicBlock { body: m.body, preds: m.preds, terminator: m.terminator, ..a })
    &&& m.terminator == sb.terminator
    &&& m.preds@ == (if on { relabel_preds(a.preds@, s, u) } else { a.preds@ })
    &&& m.body@.len() == a.body@.len() + sb.body@.len()
    &&& forall|i: int| 0 <= i < a.body@.len() ==> relabel_instr(#[trigger] a.body@[i], m.body@[i], s, u, on)
    &&& forall|i: int| 0 <= i < sb.body@.len() ==> absorbed_instr(#[trigger] sb.body@[i], m.body@[a.body@.len() + i], s, u, on)
}

/// `b` is block `a` with the absorbed block renamed in its predecessors and phi sources.
pub open spec fn relabelled_block(a: BasicBlock, b: BasicBlock, s: Label, u: Label) -> bool {
    &&& b == (BasicBlock { body: b.body, preds: b.preds, ..a })
    &&& b.preds@ == relabel_preds(a.preds@, s, u)
    &&& b.body@.len() == a.body@.len()
    &&& forall|i: int| 0 <= i < a.body@.len() ==> relabel_instr(#[trigger] a.body@[i], b.body@[i], s, u, true)
}

/// `b` is `a` after the first block that can absorb its successor does so: the
/// successor's slot is emptied, and the successors of the merged block see it in place
/// of the absorbed one.
pub open spec fn merge_step(a: Seq<Option<BasicBlock>>, b: Seq<Option<BasicBlock>>) -> bool {
    exists|u: int| #[trigger] first_candidate(a, u) && {
        let s = merge_target(a, u)->0;
        let sb = a[s.0 as int]->0;
        let nexts = succs(sb);
        let on = nexts.contains(Label(u as usize));
        &&& b.len() == a.len()
        &&& b[s.0 as int] is None
        &&& b[u] is Some && merged_block(a[u]->0, sb, b[u]->0, s, Label(u as usize), on)
        &&& forall|j: int| 0 <= j < a.len() && j != u && j != s.0 ==> (if nexts.contains(Label(j as usize)) && a[j] is Some {
            (#[trigger] b[j]) is Some && relabelled_block(a[j]->0, b[j]->0, s, Label(u as usize))
        } else {
            b[j] == a[j]
        })
    }
}

/// Number of blocks in a list of slots.
pub open spec fn block_count(slots: Seq<Option<BasicBlock>>) -> nat
    decreases slots.len(),
{
    if slots.len() == 0 {
        0
    } else {
        block_count(slots.drop_last()) + if slots.last() is Some { 1nat } else { 0nat }
    }
}

/// Each list of slots is the merge step of the one before.
pub open spec fn merge_chain(chain: Seq<Seq<Option<BasicBlock>>>) -> bool {
    forall|j: int| 0 <= j < chain.len() - 1 ==> merge_step(#[trigger] chain[j], chain[j + 1])
}

/// The first block that can absorb its successor, with that successor.
fn find_merge_candidate(ctx: &IRContext) -> (r: Option<(usize, Label)>)
    requires
        ctx.wf(),
    ensures
        match r {
            Some((u, t)) => first_candidate(ctx.slots(), u as int) && merge_target(ctx.slots(), u as int) == Some(t),
            None => no_merge(ctx.slots()),
        },
{
    proof { lemma_wf_slots(*ctx); }
    let blocks = ctx.get_blocks();
    let n = blocks.len();
    let mut u: usize = 0;
    while u < n
        invariant
            blocks@ == ctx.slots(),
            n == blocks@.len(),
            u <= n,
            forall|w: int| 0 <= w < u ==> merge_target(ctx.slots(), w) is None,
        decreases n - u,
    {
        match &blocks[u] {
            Some(b) => match &b.terminator {
                Some(Instr::JumpTo(t)) => {
                    let t = *t;
                    if t.0 != u && t.0 != 0 && t.0 < n {
                        match &blocks[t.0] {
                            Some(sb) => {
                                if sb.preds.len() == 1 && sb.preds[0] == Label(u) {
                                    assert(sb.preds@ =~= seq![Label(u)]);
                                    return Some((u, t));
                                }
                                proof {
                                    if sb.preds@ == seq![Label(u)] {
                                        assert(sb.preds@[0] == Label(u));
                                    }
                                }
                            },
                            None => {},
                        }
                    }
                },
                _ => {},
            },
            None => {},
        }
        u = u + 1;
    }
    None
}

/// Rename the absorbed block in a list of predecessors.
fn relabel_pred_list(preds: &Vec<Label>, s: Label, u: Label) -> (r: Vec<Label>)
    ensures
        r@ == relabel_preds(preds@, s, u),
{
    let mut out: Vec<Label> = Vec::new();
    let mut k: usize = 0;
    while k < preds.len()
        invariant
            k <= preds@.len(),
            out@.len() == k,
            forall|i: int| 0 <= i < k ==> #[trigger] out@[i] == relabel(preds@[i], s, u),
        decreases preds@.len() - k,
    {
        let l = preds[k];
        out.push(if l == s { u } else { l });
        k = k + 1;
    }
    assert(out@ =~= relabel_preds(preds@, s, u));
    out
}

/// Rename the absorbed block in the sources of a phi.
fn relabel_sources(srcs: &Vec<(Label, Operand)>, s: Label, u: Label) -> (r: Vec<(Label, Operand)>)
    ensures
        r@ == relabel_srcs(srcs@, s, u),
{
    let mut out: Vec<(Label, Operand)> = Vec::new();
    let mut k: usize = 0;
    while k < srcs.len()
        invariant
            k <= srcs@.len(),
            out@.len() == k,
            forall|i: int| 0 <= i < k ==> #[trigger] out@[i] == (relabel(srcs@[i].0, s, u), srcs@[i].1),
        decreases srcs@.len() - k,
    {
        let l = srcs[k].0;
        out.push((if l == s { u } else { l }, srcs[k].1.clone()));
        k = k + 1;
    }
    assert(out@ =~= relabel_srcs(srcs@, s, u));
    out
}

/// An instruction of an absorbed block (see `absorbed_instr`), or of a block seeing the
/// absorbed block renamed (`relabel` set).
fn rewrite_instr(x: Instr, s: Label, u: Label, trivialize: bool, on: bool) -> (y: Instr)
    ensures
        trivialize ==> absorbed_instr(x, y, s, u, on),
        !trivialize ==> relabel_instr(x, y, s, u, on),
{
    match x {
        Instr::Phi { dest, srcs } => {
            if trivialize && srcs.len() == 1 {
                Instr::Move { dest, src: srcs[0].1.clone() }
            } else if on {
                let new_srcs = relabel_sources(&srcs, s, u);
                Instr::Phi { dest, srcs: new_srcs }
            } else {
                Instr::Phi { dest, srcs }
            }
        },
        other => other,
    }
}

/// Rewrite every instruction of a body (see `rewrite_instr`).
fn rewrite_body(body: Vec<Instr>, s: Label, u: Label, trivialize: bool, on: bool) -> (r: Vec<Instr>)
    ensures
        r@.len() == body@.len(),
        trivialize ==> forall|i: int| 0 <= i < body@.len() ==> absorbed_instr(#[trigger] body@[i], r@[i], s, u, on),
        !trivialize ==> forall|i: int| 0 <= i < body@.len() ==> relabel_instr(#[trigger] body@[i], r@[i], s, u, on),
{
    let ghost b0 = body@;
    let mut body = body;
    let mut out: Vec<Instr> = Vec::new();
    let mut k: usize = 0;
    while k < body.len()
        invariant
            body@.len() == b0.len(),
            forall|i: int| k <= i < b0.len() ==> body@[i] == b0[i],
            k <= b0.len(),
            out@.len() == k,
            trivialize ==> forall|i: int| 0 <= i < k ==> absorbed_instr(#[trigger] b0[i], out@[i], s, u, on),
            !trivialize ==> forall|i: int| 0 <= i < k ==> relabel_instr(#[trigger] b0[i], out@[i], s, u, on),
        decreases b0.len() - k,
    {
        let mut x = Instr::Return(None);
        std::mem::swap(&mut x, &mut body[k]);
        out.push(rewrite_instr(x, s, u, trivialize, on));
        k = k + 1;
    }
    out
}

/// Renaming twice is renaming once.
proof fn lemma_relabel_twice(a: BasicBlock, b1: BasicBlock, b2: BasicBlock, s: Label, u: Label)
    requires
        s != u,
        relabelled_block(a, b1, s, u),
        relabelled_block(b1, b2, s, u),
    ensures
        relabelled_block(a, b2, s, u),
{
    assert(b2.preds@ =~= relabel_preds(a.preds@, s, u));
    assert forall|i: int| 0 <= i < a.body@.len() implies relabel_instr(#[trigger] a.body@[i], b2.body@[i], s, u, true) by {
        if let Instr::Phi { dest, srcs } = a.body@[i] {
            let y1 = b1.body@[i];
            if let Instr::Phi { dest: d1, srcs: s1 } = y1 {
                if let Instr::Phi { dest: d2, srcs: s2 } = b2.body@[i] {
                    assert(s2@ =~= relabel_srcs(srcs@, s, u));
                }
            }
        }
    }
}

/// Renaming in a merged block that does not rename yet makes one that does; renaming in
/// one that does changes nothing of what it states.
proof fn lemma_relabel_merged(a: BasicBlock, sb: BasicBlock, m0: BasicBlock, m1: BasicBlock, s: Label, u: Label, on: bool)
    requires
        s != u,
        merged_block(a, sb, m0, s, u, on),
        relabelled_block(m0, m1, s, u),
    ensures
        merged_block(a, sb, m1, s, u, true),
{
    assert(m1.preds@ =~= relabel_preds(a.preds@, s, u));
    let n = a.body@.len();
    assert forall|i: int| 0 <= i < n implies relabel_instr(#[trigger] a.body@[i], m1.body@[i], s, u, true) by {
        if let Instr::Phi { dest, srcs } = a.body@[i] {
            if let Instr::Phi { dest: d1, srcs: s1 } = m1.body@[i] {
                assert(s1@ =~= relabel_srcs(srcs@, s, u));
            }
        }
    }
    assert forall|i: int| 0 <= i < sb.body@.len() implies absorbed_instr(#[trigger] sb.body@[i], m1.body@[n + i], s, u, true) by {
        assert(relabel_instr(m0.body@[n + i], m1.body@[n + i], s, u, true));
        if trivial_phi_move(sb.body@[i]) is None {
            if let Instr::Phi { dest, srcs } = sb.body@[i] {
                if let Instr::Phi { dest: d1, srcs: s1 } = m1.body@[n + i] {
                    assert(s1@ =~= relabel_srcs(srcs@, s, u));
                }
            }
        }
    }
}

/// Rename the absorbed block `s` to `u` in the predecessors and phi sources of block `x`.
fn relabel_block(ctx: &mut IRContext, x: Label, s: Label, u: Label)
    requires
        old(ctx).wf(),
        old(ctx).has_block(x),
    ensures
        final(ctx).wf(),
        final(ctx).slots().len() == old(ctx).slots().len(),
        final(ctx).has_block(x),
        final(ctx).slots() == old(ctx).slots().update(x.0 as int, final(ctx).slots()[x.0 as int]),
        relabelled_block(old(ctx).block(x), final(ctx).block(x), s, u),
{
    let ghost a = old(ctx).block(x);
    let preds = ctx.replace_block_preds(x, Vec::new());
    let new_preds = relabel_pred_list(&preds, s, u);
    ctx.replace_block_preds(x, new_preds);
    let body = ctx.replace_block_body(x, Vec::new());
    let new_body = rewrite_body(body, s, u, false, true);
    ctx.replace_block_body(x, new_body);
    assert(ctx.slots() =~= old(ctx).slots().update(x.0 as int, ctx.slots()[x.0 as int]));
}

proof fn lemma_push_contains(s: Seq<Label>, x: Label, y: Label)
    ensures
        s.push(x).contains(y) == (s.contains(y) || y == x),
{
    if s.push(x).contains(y) {
        let i = choose|i: int| 0 <= i < s.push(x).len() && s.push(x)[i] == y;
        if i < s.len() {
            assert(s[i] == y);
        }
    }
    if s.contains(y) {
        let i = choose|i: int| 0 <= i < s.len() && s[i] == y;
        assert(s.push(x)[i] == y);
    }
    if y == x {
        assert(s.push(x)[s.len() as int] == y);
    }
}

/// Emptying one slot removes one block.
proof fn lemma_block_count_remove(a: Seq<Option<BasicBlock>>, b: Seq<Option<BasicBlock>>, t: int)
    requires
        a.len() == b.len(),
        0 <= t < a.len(),
        a[t] is Some,
        b[t] is None,
        forall|j: int| 0 <= j < a.len() && j != t ==> (#[trigger] a[j] is Some) == (b[j] is Some),
    ensures
        block_count(b) + 1 == block_count(a),
    decreases a.len(),
{
    if t == a.len() - 1 {
        lemma_block_count_same(a.drop_last(), b.drop_last());
    } else {
        lemma_block_count_remove(a.drop_last(), b.drop_last(), t);
    }
}

proof fn lemma_block_count_same(a: Seq<Option<BasicBlock>>, b: Seq<Option<BasicBlock>>)
    requires
        a.len() == b.len(),
        forall|j: int| 0 <= j < a.len() ==> (#[trigger] a[j] is Some) == (b[j] is Some),
    ensures
        block_count(b) == block_count(a),
    decreases a.len(),
{
    if a.len() > 0 {
        lemma_block_count_same(a.drop_last(), b.drop_last());
    }
}

/// Each merge removes exactly one block: the absorbed one.
pub proof fn lemma_merge_step_removes_one_block(a: Seq<Option<BasicBlock>>, b: Seq<Option<BasicBlock>>)
    requires
        merge_step(a, b),
    ensures
        block_count(b) + 1 == block_count(a),
{
    let u = choose|u: int| #[trigger] first_candidate(a, u) && {
        let s = merge_target(a, u)->0;
        let sb = a[s.0 as int]->0;
        let nexts = succs(sb);
        let on = nexts.contains(Label(u as usize));
        &&& b.len() == a.len()
        &&& b[s.0 as int] is None
        &&& b[u] is Some && merged_block(a[u]->0, sb, b[u]->0, s, Label(u as usize), on)
        &&& forall|j: int| 0 <= j < a.len() && j != u && j != s.0 ==> (if nexts.contains(Label(j as usize)) && a[j] is Some {
            (#[trigger] b[j]) is Some && relabelled_block(a[j]->0, b[j]->0, s, Label(u as usize))
        } else {
            b[j] == a[j]
        })
    };
    let s = merge_target(a, u)->0;
    assert forall|j: int| 0 <= j < a.len() && j != s.0 implies (#[trigger] a[j] is Some) == (b[j] is Some) by {
        if j != u {
            assert(b[j] is Some || b[j] == a[j]);
        }
    }
    lemma_block_count_remove(a, b, s.0 as int);
}

/// Let block `u` absorb its successor `t` (see `merge_step`).
fn merge_blocks(ctx: &mut IRContext, u: usize, t: Label)
    requires
        old(ctx).wf(),
        first_candidate(old(ctx).slots(), u as int),
        merge_target(old(ctx).slots(), u as int) == Some(t),
    ensures
        final(ctx).wf(),
        merge_step(old(ctx).slots(), final(ctx).slots()),
        block_count(final(ctx).slots()) < block_count(old(ctx).slots()),
{
    proof { lemma_wf_slots(*ctx); }
    let ghost a = ctx.slots();
    let ul = Label(u);
    let sb = ctx.take_block(t).unwrap();
    let ghost sbv = sb;
    let BasicBlock { body: sbody, terminator: sterm, .. } = sb;
    let mut absorbed = rewrite_body(sbody, t, ul, true, false);
    let mut body = ctx.replace_block_body(ul, Vec::new());
    let ghost pbody = body@;
    let ghost abs0 = absorbed@;
    let mut k: usize = 0;
    while k < absorbed.len()
        invariant
            absorbed@.len() == abs0.len(),
            forall|i: int| k <= i < abs0.len() ==> absorbed@[i] == abs0[i],
            k <= abs0.len(),
            body@.len() == pbody.len() + k,
            forall|i: int| 0 <= i < pbody.len() ==> body@[i] == pbody[i],
            forall|i: int| 0 <= i < k ==> body@[pbody.len() + i] == abs0[i],
        decreases abs0.len() - k,
    {
        let mut x = Instr::Return(None);
        std::mem::swap(&mut x, &mut absorbed[k]);
        body.push(x);
        k = k + 1;
    }
    ctx.replace_block_body(ul, body);
    ctx.replace_block_terminator(ul, sterm);
    proof {
        lemma_wf_slots(*ctx);
        assert(merged_block(a[u as int]->0, sbv, ctx.slots()[u as int]->0, t, ul, false));
    }
    let nexts = get_successors_of_block(ctx.get_block(ul).unwrap());
    assert(nexts@ == succs(sbv));
    assert(nexts@.take(0) =~= Seq::<Label>::empty());
    let mut k: usize = 0;
    while k < nexts.len()
        invariant
            ctx.wf(),
            ctx.slots().len() == a.len(),
            t.0 < a.len(),
            t.0 != u,
            ul == Label(u),
            u < a.len(),
            a[u as int] is Some,
            a[t.0 as int] == Some(sbv),
            ctx.slots()[t.0 as int] is None,
            nexts@ == succs(sbv),
            k <= nexts@.len(),
            ctx.slots()[u as int] is Some,
            merged_block(a[u as int]->0, sbv, ctx.slots()[u as int]->0, t, ul, nexts@.take(k as int).contains(ul)),
            forall|j: int| 0 <= j < a.len() && j != u && j != t.0 ==> (if nexts@.take(k as int).contains(Label(j as usize))
                && a[j] is Some {
                (#[trigger] ctx.slots()[j]) is Some && relabelled_block(a[j]->0, ctx.slots()[j]->0, t, ul)
            } else {
                ctx.slots()[j] == a[j]
            }),
        decreases nexts@.len() - k,
    {
        let x = nexts[k];
        let ghost before = ctx.slots();
        proof {
            assert(nexts@.take(k + 1) =~= nexts@.take(k as int).push(x));
        }
        if ctx.get_block(x).is_some() {
            relabel_block(ctx, x, t, ul);
            proof {
                lemma_wf_slots(*ctx);
                assert(t != ul);
                assert(relabelled_block(before[x.0 as int]->0, ctx.slots()[x.0 as int]->0, t, ul));
                if x == ul {
                    assert(x.0 == u);
                    lemma_relabel_merged(a[u as int]->0, sbv, before[u as int]->0, ctx.slots()[u as int]->0, t, ul,
                        nexts@.take(k as int).contains(ul));
                } else {
                    let j = x.0 as int;
                    assert(j != t.0);
                    if nexts@.take(k as int).contains(x) && a[j] is Some {
                        lemma_relabel_twice(a[j]->0, before[j]->0, ctx.slots()[j]->0, t, ul);
                    } else {
                        assert(before[j] == a[j]);
                    }
                }
                assert forall|j: int| 0 <= j < a.len() && j != u && j != t.0 && j != x.0 implies #[trigger] ctx.slots()[j] == before[j] by {}
                assert forall|j: int| 0 <= j < a.len() && j != u && j != t.0 implies (if nexts@.take(k + 1).contains(Label(j as usize))
                    && a[j] is Some {
                    (#[trigger] ctx.slots()[j]) is Some && relabelled_block(a[j]->0, ctx.slots()[j]->0, t, ul)
                } else {
                    ctx.slots()[j] == a[j]
                }) by {
                    lemma_push_contains(nexts@.take(k as int), x, Label(j as usize));
                    assert(nexts@.take(k + 1) == nexts@.take(k as int).push(x));
                    if j == x.0 {
                        if nexts@.take(k as int).contains(x) && a[j] is Some {
                            lemma_relabel_twice(a[j]->0, before[j]->0, ctx.slots()[j]->0, t, ul);
                        } else {
                            assert(before[j] == a[j]);
                        }
                    } else {
                        assert((j as usize) as int == j);
                        assert(Label(j as usize) != x);
                        assert(ctx.slots()[j] == before[j]);
                    }
                }
            }
        } else {
            proof {
                lemma_wf_slots(*ctx);
                if x.0 < a.len() && x.0 != t.0 && x != ul {
                    assert(before[x.0 as int] == a[x.0 as int]);
                }
                assert forall|j: int| 0 <= j < a.len() && j != u && j != t.0 implies (if nexts@.take(k + 1).contains(Label(j as usize))
                    && a[j] is Some {
                    (#[trigger] ctx.slots()[j]) is Some && relabelled_block(a[j]->0, ctx.slots()[j]->0, t, ul)
                } else {
                    ctx.slots()[j] == a[j]
                }) by {
                    lemma_push_contains(nexts@.take(k as int), x, Label(j as usize));
                    assert(nexts@.take(k + 1) == nexts@.take(k as int).push(x));
                    assert((j as usize) as int == j);
                    if j == x.0 {
                        assert(Label(j as usize) == x);
                        assert(before[j] is None);
                        if nexts@.take(k as int).contains(x) && a[j] is Some {
                            assert(before[j] is Some);
                        }
                        assert(before[j] == a[j]);
                    } else {
                        assert(Label(j as usize) != x);
                    }
                }
            }
        }
        proof {
            assert forall|y: Label| #[trigger] nexts@.take(k + 1).contains(y) == (nexts@.take(k as int).contains(y) || y == x) by {
                lemma_push_contains(nexts@.take(k as int), x, y);
            }
            assert(nexts@.take(k + 1).contains(ul) == (nexts@.take(k as int).contains(ul) || ul == x));
        }
        k = k + 1;
    }
    proof {
        assert(nexts@.take(k as int) =~= nexts@);
        assert(first_candidate(a, u as int));
        let b = ctx.slots();
        assert forall|j: int| 0 <= j < a.len() && j != t.0 implies (#[trigger] a[j] is Some) == (b[j] is Some) by {}
        lemma_block_count_remove(a, b, t.0 as int);
    }
}

/// Merge straight chains of blocks: as long as a block ends in a jump to a block (not
/// the entry block) whose only predecessor it is, the first such block absorbs that
/// successor (see `merge_step`). Returns whether any block was merged.
pub fn merge_linear_block_chains(ctx: &mut IRContext) -> (changed: bool)
    requires
        old(ctx).wf(),
    ensures
        final(ctx).wf(),
        no_merge(final(ctx).slots()),
        exists|chain: Seq<Seq<Option<BasicBlock>>>| {
            &&& chain.len() >= 1
            &&& chain[0] == old(ctx).slots()
            &&& chain.last() == final(ctx).slots()
            &&& merge_chain(chain)
            &&& changed == (chain.len() > 1)
        },
{
    let ghost mut chain: Seq<Seq<Option<BasicBlock>>> = seq![ctx.slots()];
    let mut changed = false;
    loop
        invariant
            ctx.wf(),
            chain.len() >= 1,
            chain[0] == old(ctx).slots(),
            chain.last() == ctx.slots(),
            merge_chain(chain),
            changed == (chain.len() > 1),
        ensures
            no_merge(ctx.slots()),
        decreases block_count(ctx.slots()),
    {
        match find_merge_candidate(ctx) {
            None => break,
            Some((u, t)) => {
                let ghost prev = ctx.slots();
                merge_blocks(ctx, u, t);
                proof {
                    let c2 = chain.push(ctx.slots());
                    assert forall|j: int| 0 <= j < c2.len() - 1 implies merge_step(#[trigger] c2[j], c2[j + 1]) by {
                        if j < chain.len() - 1 {
                            assert(c2[j] == chain[j] && c2[j + 1] == chain[j + 1]);
                        } else {
                            assert(c2[j] == prev);
                        }
                    }
                    chain = c2;
                }
                changed = true;
            },
        }
    }
    changed
}

} // verus!
