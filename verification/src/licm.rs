//! Loop-invariant code motion: the preheader block that invariant instructions of a
//! loop are hoisted into.
use vstd::prelude::*;

use crate::ast::{BinOp, Typ};
use crate::copy_prop::{same_operand, same_operand_exec};
use crate::ir::{duplicate_temp, lemma_wf_slots, BasicBlock, IRContext, Instr, Label, Operand, Temp};

verus! {

/// The sources of a phi that come from the blocks `from` (where `inside` is false) or
/// from the other blocks (where `inside` is true), in their order.
pub open spec fn srcs_split(srcs: Seq<(Label, Operand)>, from: Seq<Label>, inside: bool) -> Seq<(Label, Operand)>
    decreases srcs.len(),
{
    if srcs.len() == 0 {
        Seq::<(Label, Operand)>::empty()
    } else {
        let prev = srcs_split(srcs.drop_last(), from, inside);
        if from.contains(srcs.last().0) != inside {
            prev.push(srcs.last())
        } else {
            prev
        }
    }
}

/// The one operand that stands for the sources from outside the loop: zero of the phi's
/// type where there is none, the source where there is one, their common operand where
/// all are the same; none where they differ (a new phi in the preheader merges them).
pub open spec fn shared_operand(outside: Seq<(Label, Operand)>, typ: Typ) -> Option<Operand> {
    if outside.len() == 0 {
        Some(Operand::Const((0, typ)))
    } else if outside.len() == 1 || forall|k: int| 0 <= k < outside.len() ==> #[trigger] same_operand(outside[k].1, outside[0].1) {
        Some(outside[0].1)
    } else {
        None
    }
}

/// The instruction is a phi whose sources from outside the loop need a new phi.
pub open spec fn needs_new_phi(instr: Instr, outside_preds: Seq<Label>) -> bool {
    match instr {
        Instr::Phi { dest, srcs } => shared_operand(srcs_split(srcs@, outside_preds, false), dest.1) is None,
        _ => false,
    }
}

/// Number of instructions of `body` that need a new phi.
pub open spec fn new_phi_count(body: Seq<Instr>, outside_preds: Seq<Label>) -> nat
    decreases body.len(),
{
    if body.len() == 0 {
        0
    } else {
        new_phi_count(body.drop_last(), outside_preds) + if needs_new_phi(body.last(), outside_preds) {
            1nat
        } else {
            0nat
        }
    }
}

/// The operand a header phi receives from the preheader: the shared operand, or the new
/// temporary `fresh` of the phi's type.
pub open spec fn preheader_operand(dest: Temp, srcs: Seq<(Label, Operand)>, outside_preds: Seq<Label>, fresh: nat) -> Operand {
    match shared_operand(srcs_split(srcs, outside_preds, false), dest.1) {
        Some(op) => op,
        None => Operand::Temp((fresh as usize, dest.1)),
    }
}

/// `new` is header instruction `old` once the preheader exists: a phi gets one source
/// from the preheader, then its sources from inside the loop; anything else stays.
pub open spec fn header_instr(old: Instr, new: Instr, pre: Label, outside_preds: Seq<Label>, fresh: nat) -> bool {
    match old {
        Instr::Phi { dest, srcs } => new matches Instr::Phi { dest: d2, srcs: s2 } && d2 == dest && s2@ == seq![
            (pre, preheader_operand(dest, srcs@, outside_preds, fresh)),
        ] + srcs_split(srcs@, outside_preds, true),
        _ => new == old,
    }
}

/// `new` is the preheader phi that merges the sources of header phi `old` from outside
/// the loop into the new temporary `fresh`.
pub open spec fn merging_phi(old: Instr, new: Instr, outside_preds: Seq<Label>, fresh: nat) -> bool {
    match old {
        Instr::Phi { dest, srcs } => new matches Instr::Phi { dest: d2, srcs: s2 } && d2 == (fresh as usize, dest.1)
            && s2@ == srcs_split(srcs@, outside_preds, false),
        _ => false,
    }
}

/// A terminator with its jumps to `header` sent to `pre` instead.
pub open spec fn redirected(t: Option<Instr>, header: Label, pre: Label) -> Option<Instr> {
    match t {
        Some(Instr::JumpTo(l)) => if l == header {
            Some(Instr::JumpTo(pre))
        } else {
            t
        },
        Some(Instr::JumpIf { pred, holds, fails }) => Some(
            Instr::JumpIf {
                pred,
                holds: if holds == header { pre } else { holds },
                fails: if fails == header { pre } else { fails },
            },
        ),
        _ => t,
    }
}

proof fn lemma_new_phi_count_mono(body: Seq<Instr>, outside_preds: Seq<Label>, i: int, k: int)
    requires
        0 <= i <= k <= body.len(),
    ensures
        new_phi_count(body.take(i), outside_preds) <= new_phi_count(body.take(k), outside_preds),
        i < k && needs_new_phi(body[i], outside_preds) ==> new_phi_count(body.take(i), outside_preds) + 1
            <= new_phi_count(body.take(k), outside_preds),
    decreases k - i,
{
    if i < k {
        lemma_new_phi_count_mono(body, outside_preds, i, k - 1);
        assert(body.take(k).drop_last() =~= body.take(k - 1));
        if i == k - 1 {
            assert(body.take(k).last() == body[i]);
        }
    }
}

/// Whether `l` is among `labels`.
fn contains_label(labels: &Vec<Label>, l: Label) -> (r: bool)
    ensures
        r == labels@.contains(l),
{
    let mut i: usize = 0;
    while i < labels.len()
        invariant
            i <= labels@.len(),
            forall|j: int| 0 <= j < i ==> labels@[j] != l,
        decreases labels@.len() - i,
    {
        if labels[i] == l {
            assert(labels@[i as int] == l);
            return true;
        }
        i = i + 1;
    }
    false
}

/// The phi sources from the blocks `from`, and those from the other blocks.
fn split_sources(srcs: Vec<(Label, Operand)>, from: &Vec<Label>) -> (r: (Vec<(Label, Operand)>, Vec<(Label, Operand)>))
    ensures
        r.0@ == srcs_split(srcs@, from@, false),
        r.1@ == srcs_split(srcs@, from@, true),
{
    let mut outside: Vec<(Label, Operand)> = Vec::new();
    let mut inside: Vec<(Label, Operand)> = Vec::new();
    let mut i: usize = 0;
    proof {
        assert(srcs@.take(0) =~= Seq::<(Label, Operand)>::empty());
    }
    while i < srcs.len()
        invariant
            i <= srcs@.len(),
            outside@ == srcs_split(srcs@.take(i as int), from@, false),
            inside@ == srcs_split(srcs@.take(i as int), from@, true),
        decreases srcs@.len() - i,
    {
        proof {
            assert(srcs@.take(i + 1).drop_last() =~= srcs@.take(i as int));
        }
        let l = srcs[i].0;
        let op = srcs[i].1.clone();
        if contains_label(from, l) {
            outside.push((l, op));
        } else {
            inside.push((l, op));
        }
        i = i + 1;
    }
    proof {
        assert(srcs@.take(srcs@.len() as int) =~= srcs@);
    }
    (outside, inside)
}

/// The operand standing for the sources from outside the loop, if they share one.
fn find_shared_operand(outside: &Vec<(Label, Operand)>, typ: &Typ) -> (r: Option<Operand>)
    ensures
        r == shared_operand(outside@, *typ),
{
    if outside.len() == 0 {
        return Some(Operand::Const((0, typ.duplicate())));
    }
    if outside.len() == 1 {
        return Some(outside[0].1.clone());
    }
    let mut k: usize = 1;
    while k < outside.len()
        invariant
            1 <= k <= outside@.len(),
            forall|j: int| 0 <= j < k ==> #[trigger] same_operand(outside@[j].1, outside@[0].1),
        decreases outside@.len() - k,
    {
        if !same_operand_exec(&outside[k].1, &outside[0].1) {
            return None;
        }
        k = k + 1;
    }
    Some(outside[0].1.clone())
}

/// A terminator with its jumps to `header` sent to `pre` instead.
fn redirect(t: Option<Instr>, header: Label, pre: Label) -> (r: Option<Instr>)
    ensures
        r == redirected(t, header, pre),
{
    match t {
        Some(Instr::JumpTo(l)) => if l == header {
            Some(Instr::JumpTo(pre))
        } else {
            Some(Instr::JumpTo(l))
        },
        Some(Instr::JumpIf { pred, holds, fails }) => Some(
            Instr::JumpIf {
                pred,
                holds: if holds == header { pre } else { holds },
                fails: if fails == header { pre } else { fails },
            },
        ),
        other => other,
    }
}

/// Blocks of the function other than the header and the preheader, once the
/// predecessors outside the loop jump to the preheader.
pub open spec fn others_redirected(
    a: Seq<Option<BasicBlock>>,
    b: Seq<Option<BasicBlock>>,
    header: Label,
    pre: Label,
    outside_preds: Seq<Label>,
) -> bool {
    forall|j: int| 0 <= j < a.len() && j != header.0 ==> #[trigger] b[j] == (if a[j] is Some && outside_preds.contains(
        Label(j as usize),
    ) {
        Some(BasicBlock { terminator: redirected(a[j]->0.terminator, header, pre), ..a[j]->0 })
    } else {
        a[j]
    })
}

/// A division or remainder by zero, or by minus one of the least integer (or of an
/// unknown value), or by an unknown value; or a shift by anything but a constant from 0
/// to 31.
pub open spec fn binop_may_trap(op: BinOp, lhs: Operand, rhs: Operand) -> bool {
    match op {
        BinOp::Div | BinOp::Mod => match rhs {
            Operand::Const(c) => c.0 == 0 || (c.0 == -1 && match lhs {
                Operand::Const(l) => l.0 == -2147483648,
                Operand::Temp(_) => true,
            }),
            Operand::Temp(_) => true,
        },
        BinOp::Sal | BinOp::Sar => !(rhs matches Operand::Const(c) && 0 <= c.0 <= 31),
        _ => false,
    }
}

/// An instruction of a loop body that may be hoisted: no memory access, call, control
/// flow or allocation; an operator that cannot trap; a pointer-typed operator only where
/// unsafe operations are allowed, since otherwise its base is checked and may trap.
pub open spec fn loop_instr_pure(instr: Instr, is_unsafe: bool) -> bool {
    match instr {
        Instr::BinOp { op, dest, lhs, rhs } => if dest.1 is Pointer {
            is_unsafe
        } else {
            !binop_may_trap(op, lhs, rhs)
        },
        Instr::UnOp { .. } => true,
        Instr::Move { .. } => true,
        Instr::Phi { .. } => true,
        _ => false,
    }
}

/// Check if an instruction inside a loop's body is pure/idempotent.
pub fn is_loop_instr_pure(instr: &Instr, is_unsafe: bool) -> (r: bool)
    ensures
        r == loop_instr_pure(*instr, is_unsafe),
{
    match instr {
        Instr::BinOp { op, dest, lhs, rhs } => {
            if let Typ::Pointer(_, _) = &dest.1 {
                return is_unsafe;
            }
            let may_trap = match op {
                BinOp::Div | BinOp::Mod => match rhs {
                    Operand::Const(c) => c.0 == 0 || (c.0 == -1 && match lhs {
                        Operand::Const(l) => l.0 == -2147483648,
                        Operand::Temp(_) => true,
                    }),
                    Operand::Temp(_) => true,
                },
                BinOp::Sal | BinOp::Sar => match rhs {
                    Operand::Const(c) => !(0 <= c.0 && c.0 <= 31),
                    Operand::Temp(_) => true,
                },
                _ => false,
            };
            !may_trap
        },
        Instr::UnOp { .. } => true,
        Instr::Move { .. } => true,
        Instr::Phi { .. } => true,
        _ => false,
    }
}

/// Give the loop with header `header` a preheader: a new, sealed block that the
/// predecessors of the header outside the loop (`non_loop_predecessors`) jump to in
/// place of the header, and that jumps to the header. Each phi of the header receives
/// from the preheader the one operand its sources from outside the loop share, or the
/// result of a new phi of the preheader that merges them (created in the order of the
/// header's phis); the header's predecessors become the preheader and then
/// `loop_predecessors`. Returns the preheader's label.
#[verifier::rlimit(60)]
#[verifier::spinoff_prover]
pub fn create_preheader(
    ctx: &mut IRContext,
    header: Label,
    non_loop_predecessors: &Vec<Label>,
    loop_predecessors: &Vec<Label>,
) -> (pre: Label)
    requires
        old(ctx).wf(),
        old(ctx).has_block(header),
        forall|i: int| 0 <= i < non_loop_predecessors@.len() ==> old(ctx).has_block(#[trigger] non_loop_predecessors@[i]),
        old(ctx).labels() < usize::MAX,
        old(ctx).temps() + old(ctx).block(header).body@.len() < usize::MAX,
    ensures
        final(ctx).wf(),
        pre.0 == old(ctx).labels(),
        final(ctx).labels() == old(ctx).labels() + 1,
        final(ctx).temps() == old(ctx).temps() + new_phi_count(old(ctx).block(header).body@, non_loop_predecessors@),
        final(ctx).slots().len() == old(ctx).slots().len() + 1,
        final(ctx).has_block(pre),
        final(ctx).block(pre).label == pre,
        final(ctx).block(pre).terminator == Some(Instr::JumpTo(header)),
        final(ctx).block(pre).preds@ == non_loop_predecessors@,
        final(ctx).block(pre).sealed,
        final(ctx).block(pre).body@.len() == new_phi_count(old(ctx).block(header).body@, non_loop_predecessors@),
        forall|i: int| 0 <= i < old(ctx).block(header).body@.len() && needs_new_phi(#[trigger] old(ctx).block(header).body@[i], non_loop_predecessors@)
            ==> merging_phi(
                old(ctx).block(header).body@[i],
                final(ctx).block(pre).body@[new_phi_count(old(ctx).block(header).body@.take(i), non_loop_predecessors@) as int],
                non_loop_predecessors@,
                old(ctx).temps() + new_phi_count(old(ctx).block(header).body@.take(i), non_loop_predecessors@),
            ),
        final(ctx).has_block(header),
        final(ctx).block(header) == (BasicBlock {
            body: final(ctx).block(header).body,
            preds: final(ctx).block(header).preds,
            terminator: final(ctx).block(header).terminator,
            ..old(ctx).block(header)
        }),
        final(ctx).block(header).terminator == (if non_loop_predecessors@.contains(header) {
            redirected(old(ctx).block(header).terminator, header, pre)
        } else {
            old(ctx).block(header).terminator
        }),
        final(ctx).block(header).preds@ == seq![pre] + loop_predecessors@,
        final(ctx).block(header).body@.len() == old(ctx).block(header).body@.len(),
        forall|i: int| 0 <= i < old(ctx).block(header).body@.len() ==> header_instr(
            #[trigger] old(ctx).block(header).body@[i],
            final(ctx).block(header).body@[i],
            pre,
            non_loop_predecessors@,
            old(ctx).temps() + new_phi_count(old(ctx).block(header).body@.take(i), non_loop_predecessors@),
        ),
        others_redirected(old(ctx).slots(), final(ctx).slots(), header, pre, non_loop_predecessors@),
{
    let ghost s0 = old(ctx).slots();
    let ghost t0 = old(ctx).temps();
    let ghost hb0 = old(ctx).block(header);
    let ghost nl = non_loop_predecessors@;
    proof { lemma_wf_slots(*ctx); }
    let pre = ctx.create_block();
    proof { lemma_wf_slots(*ctx); }

    // send the predecessors outside the loop to the preheader
    let mut i: usize = 0;
    while i < non_loop_predecessors.len()
        invariant
            ctx.wf(),
            ctx.labels() == s0.len() + 1,
            ctx.temps() == t0,
            pre.0 == s0.len(),
            ctx.slots().len() == s0.len() + 1,
            ctx.has_block(pre),
            ctx.block(pre).label == pre,
            ctx.block(pre).body@.len() == 0,
            ctx.block(pre).current_def@.len() == 0,
            ctx.block(pre).incomplete_phis@.len() == 0,
            s0 == old(ctx).slots(),
            nl == non_loop_predecessors@,
            i <= nl.len(),
            forall|k: int| 0 <= k < nl.len() ==> old(ctx).has_block(#[trigger] nl[k]),
            forall|j: int| 0 <= j < s0.len() ==> #[trigger] ctx.slots()[j] == (if s0[j] is Some && nl.take(i as int).contains(
                Label(j as usize),
            ) {
                Some(BasicBlock { terminator: redirected(s0[j]->0.terminator, header, pre), ..s0[j]->0 })
            } else {
                s0[j]
            }),
        decreases nl.len() - i,
    {
        let l = non_loop_predecessors[i];
        let ghost before = ctx.slots();
        proof {
            assert(old(ctx).has_block(nl[i as int]));
            assert(nl.take(i + 1) =~= nl.take(i as int).push(l));
        }
        let t = ctx.replace_block_terminator(l, None);
        let t2 = redirect(t, header, pre);
        ctx.replace_block_terminator(l, t2);
        proof {
            lemma_wf_slots(*ctx);
            assert forall|j: int| 0 <= j < s0.len() implies #[trigger] ctx.slots()[j] == (if s0[j] is Some && nl.take(i + 1).contains(
                Label(j as usize),
            ) {
                Some(BasicBlock { terminator: redirected(s0[j]->0.terminator, header, pre), ..s0[j]->0 })
            } else {
                s0[j]
            }) by {
                assert((j as usize) as int == j);
                if j == l.0 {
                    assert(nl.take(i + 1).contains(Label(j as usize))) by {
                        assert(nl.take(i + 1)[i as int] == l);
                    }
                    assert(s0[j] is Some);
                } else {
                    assert(Label(j as usize) != l);
                    assert(ctx.slots()[j] == before[j]);
                    if nl.take(i + 1).contains(Label(j as usize)) {
                        let k = choose|k: int| 0 <= k < nl.take(i + 1).len() && #[trigger] nl.take(i + 1)[k] == Label(j as usize);
                        assert(k < i);
                        assert(nl.take(i as int)[k] == Label(j as usize));
                    }
                    if nl.take(i as int).contains(Label(j as usize)) {
                        let k = choose|k: int| 0 <= k < nl.take(i as int).len() && #[trigger] nl.take(i as int)[k] == Label(j as usize);
                        assert(nl.take(i + 1)[k] == Label(j as usize));
                    }
                }
            }
        }
        i = i + 1;
    }
    proof {
        assert(nl.take(nl.len() as int) =~= nl);
    }
    let ghost s1 = ctx.slots();
    proof {
        assert(s1[header.0 as int] is Some);
        assert(ctx.block(header).body == hb0.body);
    }

    // rewrite the header's phis
    let mut body = ctx.replace_block_body(header, Vec::new());
    let ghost s2 = ctx.slots();
    let ghost hb = body@;
    let mut new_body: Vec<Instr> = Vec::new();
    let mut pre_phis: Vec<Instr> = Vec::new();
    let mut k: usize = 0;
    proof {
        assert(hb.take(0) =~= Seq::<Instr>::empty());
    }
    while k < body.len()
        invariant
            ctx.wf(),
            ctx.labels() == s0.len() + 1,
            ctx.slots() == s2,
            ctx.temps() == t0 + new_phi_count(hb.take(k as int), nl),
            nl == non_loop_predecessors@,
            k <= hb.len(),
            body@.len() == hb.len(),
            forall|j: int| k <= j < hb.len() ==> body@[j] == hb[j],
            t0 + hb.len() < usize::MAX,
            new_phi_count(hb.take(k as int), nl) <= k,
            new_body@.len() == k,
            forall|j: int| 0 <= j < k ==> header_instr(
                #[trigger] hb[j],
                new_body@[j],
                pre,
                nl,
                t0 + new_phi_count(hb.take(j), nl),
            ),
            pre_phis@.len() == new_phi_count(hb.take(k as int), nl),
            forall|j: int| 0 <= j < k && needs_new_phi(#[trigger] hb[j], nl) ==> merging_phi(
                hb[j],
                pre_phis@[new_phi_count(hb.take(j), nl) as int],
                nl,
                t0 + new_phi_count(hb.take(j), nl),
            ),
        decreases hb.len() - k,
    {
        proof {
            assert(hb.take(k + 1).drop_last() =~= hb.take(k as int));
            assert(hb.take(k + 1).last() == hb[k as int]);
        }
        let ghost phis_before = pre_phis@;
        let ghost nb_before = new_body@;
        let mut x = Instr::Return(None);
        std::mem::swap(&mut x, &mut body[k]);
        match x {
            Instr::Phi { dest, srcs } => {
                let (outside, mut inside) = split_sources(srcs, non_loop_predecessors);
                let op = match find_shared_operand(&outside, &dest.1) {
                    Some(op) => op,
                    None => {
                        let t = ctx.create_temp(dest.1.duplicate());
                        pre_phis.push(Instr::Phi { dest: duplicate_temp(&t), srcs: outside });
                        Operand::Temp(t)
                    },
                };
                let mut new_srcs: Vec<(Label, Operand)> = Vec::new();
                new_srcs.push((pre, op));
                new_srcs.append(&mut inside);
                new_body.push(Instr::Phi { dest, srcs: new_srcs });
                proof {
                    assert(new_body@[k as int] matches Instr::Phi { dest: d2, srcs: s2 } && s2@ =~= seq![
                        (pre, preheader_operand(dest, srcs@, nl, t0 + new_phi_count(hb.take(k as int), nl))),
                    ] + srcs_split(srcs@, nl, true));
                    assert(header_instr(hb[k as int], new_body@[k as int], pre, nl, t0 + new_phi_count(hb.take(k as int), nl)));
                }
            },
            other => {
                new_body.push(other);
                proof {
                    assert(header_instr(hb[k as int], new_body@[k as int], pre, nl, t0 + new_phi_count(hb.take(k as int), nl)));
                }
            },
        }
        proof {
            assert forall|j: int| 0 <= j < k + 1 implies header_instr(#[trigger] hb[j], new_body@[j], pre, nl,
                t0 + new_phi_count(hb.take(j), nl)) by {
                if j < k {
                    assert(new_body@[j] == nb_before[j]);
                }
            }
            assert forall|j: int| 0 <= j < k + 1 && needs_new_phi(#[trigger] hb[j], nl) implies merging_phi(
                hb[j],
                pre_phis@[new_phi_count(hb.take(j), nl) as int],
                nl,
                t0 + new_phi_count(hb.take(j), nl),
            ) by {
                if j < k {
                    lemma_new_phi_count_mono(hb, nl, j, k as int);
                    assert(pre_phis@[new_phi_count(hb.take(j), nl) as int] == phis_before[new_phi_count(hb.take(j), nl) as int]);
                }
            }
        }
        k = k + 1;
    }
    proof {
        assert(hb.take(hb.len() as int) =~= hb);
    }
    ctx.replace_block_body(header, new_body);
    let mut header_preds: Vec<Label> = Vec::new();
    header_preds.push(pre);
    let mut j: usize = 0;
    while j < loop_predecessors.len()
        invariant
            j <= loop_predecessors@.len(),
            header_preds@ == seq![pre] + loop_predecessors@.take(j as int),
        decreases loop_predecessors@.len() - j,
    {
        header_preds.push(loop_predecessors[j]);
        proof {
            assert(loop_predecessors@.take(j + 1) =~= loop_predecessors@.take(j as int).push(loop_predecessors@[j as int]));
        }
        j = j + 1;
    }
    proof {
        assert(loop_predecessors@.take(loop_predecessors@.len() as int) =~= loop_predecessors@);
    }
    ctx.replace_block_preds(header, header_preds);

    // the preheader itself
    let mut pre_preds: Vec<Label> = Vec::new();
    let mut j: usize = 0;
    while j < non_loop_predecessors.len()
        invariant
            j <= nl.len(),
            nl == non_loop_predecessors@,
            pre_preds@ == nl.take(j as int),
        decreases nl.len() - j,
    {
        pre_preds.push(non_loop_predecessors[j]);
        proof {
            assert(nl.take(j + 1) =~= nl.take(j as int).push(nl[j as int]));
        }
        j = j + 1;
    }
    proof {
        assert(nl.take(nl.len() as int) =~= nl);
    }
    let ghost s3 = ctx.slots();
    let mut block = ctx.take_block(pre).unwrap();
    block.terminator = Some(Instr::JumpTo(header));
    block.preds = pre_preds;
    block.sealed = true;
    block.body = pre_phis;
    ctx.put_block(block);
    proof {
        lemma_wf_slots(*ctx);
        assert forall|j: int| 0 <= j < s0.len() && j != header.0 implies #[trigger] ctx.slots()[j] == (if s0[j] is Some
            && nl.contains(Label(j as usize)) {
            Some(BasicBlock { terminator: redirected(s0[j]->0.terminator, header, pre), ..s0[j]->0 })
        } else {
            s0[j]
        }) by {
            assert(ctx.slots()[j] == s1[j]);
        }
    }
    pre
}




} // verus!
