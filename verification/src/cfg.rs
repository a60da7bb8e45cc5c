//! Helpers on the control-flow graph of a function's IR.
use vstd::prelude::*;

use crate::ir::{clone_operands, duplicate_temp, BasicBlock, IRContext, Instr, Label, Operand, Temp};

verus! {

/// Successor labels of a block, read from its terminator.
pub open spec fn succs(b: BasicBlock) -> Seq<Label> {
    match b.terminator {
        Some(Instr::JumpTo(l)) => seq![l],
        Some(Instr::JumpIf { holds, fails, .. }) => seq![holds, fails],
        _ => Seq::empty(),
    }
}

/// Temporary that an instruction defines, if any.
pub open spec fn dest_of(i: Instr) -> Option<Temp> {
    match i {
        Instr::BinOp { dest, .. } => Some(dest),
        Instr::UnOp { dest, .. } => Some(dest),
        Instr::Phi { dest, .. } => Some(dest),
        Instr::Move { dest, .. } => Some(dest),
        Instr::Load { dest, .. } => Some(dest),
        Instr::Alloc { dest, .. } => Some(dest),
        Instr::AllocArray { dest, .. } => Some(dest),
        Instr::Call { dest, .. } => dest,
        _ => None,
    }
}

/// Operands that an instruction reads, in order.
pub open spec fn operands_of(i: Instr) -> Seq<Operand> {
    match i {
        Instr::BinOp { lhs, rhs, .. } => seq![lhs, rhs],
        Instr::Move { src, .. } => seq![src],
        Instr::UnOp { src, .. } => seq![src],
        Instr::JumpIf { pred, .. } => seq![pred],
        Instr::Call { args, .. } => args@,
        Instr::TailCall { args, .. } => args@,
        Instr::Return(Some(op)) => seq![op],
        Instr::Phi { srcs, .. } => srcs@.map_values(|s: (Label, Operand)| s.1),
        Instr::Load { addr, .. } => seq![addr],
        Instr::Store { addr, src } => seq![addr, src],
        Instr::Alloc { size, .. } => seq![size],
        Instr::AllocArray { size, count, .. } => seq![size, count],
        _ => Seq::empty(),
    }
}

/// Get the destination temporary of an instruction, if any.
pub fn get_dest_temp_from_instruction(instr: &Instr) -> (r: Option<Temp>)
    ensures
        r == dest_of(*instr),
{
    match instr {
        Instr::BinOp { dest, .. } => Some(duplicate_temp(dest)),
        Instr::UnOp { dest, .. } => Some(duplicate_temp(dest)),
        Instr::Phi { dest, .. } => Some(duplicate_temp(dest)),
        Instr::Move { dest, .. } => Some(duplicate_temp(dest)),
        Instr::Load { dest, .. } => Some(duplicate_temp(dest)),
        Instr::Alloc { dest, .. } => Some(duplicate_temp(dest)),
        Instr::AllocArray { dest, .. } => Some(duplicate_temp(dest)),
        Instr::Call { dest: Some(dest), .. } => Some(duplicate_temp(dest)),
        _ => None,
    }
}

/// Get all operands used within an instruction.
pub fn get_operands_from_instruction(instr: &Instr) -> (r: Vec<Operand>)
    ensures
        r@ == operands_of(*instr),
{
    match instr {
        Instr::BinOp { lhs: a, rhs: b, .. } => vec![a.clone(), b.clone()],
        Instr::Move { src, .. } => vec![src.clone()],
        Instr::UnOp { src, .. } => vec![src.clone()],
        Instr::JumpIf { pred, .. } => vec![pred.clone()],
        Instr::Call { args, .. } => clone_operands(args),
        Instr::TailCall { args, .. } => clone_operands(args),
        Instr::Return(Some(op)) => vec![op.clone()],
        Instr::Phi { srcs, .. } => {
            let mut r: Vec<Operand> = Vec::new();
            let mut i: usize = 0;
            while i < srcs.len()
                invariant
                    i <= srcs@.len(),
                    r@ == srcs@.take(i as int).map_values(|s: (Label, Operand)| s.1),
                decreases srcs@.len() - i,
            {
                r.push(srcs[i].1.clone());
                proof {
                    assert(srcs@.take(i as int + 1).map_values(|s: (Label, Operand)| s.1)
                        =~= srcs@.take(i as int).map_values(|s: (Label, Operand)| s.1).push(srcs@[i as int].1));
                }
                i = i + 1;
            }
            assert(srcs@.take(srcs@.len() as int) =~= srcs@);
            r
        },
        Instr::Load { addr, .. } => vec![addr.clone()],
        Instr::Store { addr, src } => vec![addr.clone(), src.clone()],
        Instr::Alloc { size, .. } => vec![size.clone()],
        Instr::AllocArray { size, count, .. } => vec![size.clone(), count.clone()],
        _ => Vec::new(),
    }
}

/// Get the successor labels of a block.
pub fn get_successors_of_block(block: &BasicBlock) -> (r: Vec<Label>)
    ensures
        r@ == succs(*block),
{
    match &block.terminator {
        Some(Instr::JumpTo(label)) => vec![*label],
        Some(Instr::JumpIf { holds, fails, .. }) => vec![*holds, *fails],
        _ => Vec::new(),
    }
}


/// There is an edge from block `u` to block `v`.
pub open spec fn edge(ctx: IRContext, u: Label, v: Label) -> bool {
    ctx.has_block(u) && ctx.has_block(v) && succs(ctx.block(u)).contains(v)
}

/// `p` is a path of existing blocks that starts at the entry block.
pub open spec fn is_path(ctx: IRContext, p: Seq<Label>) -> bool {
    &&& p.len() > 0
    &&& p[0] == Label(0)
    &&& ctx.has_block(Label(0))
    &&& forall|i: int| 0 <= i < p.len() - 1 ==> edge(ctx, #[trigger] p[i], p[i + 1])
}

/// The block labelled `l` can be reached from the entry block.
pub open spec fn reachable(ctx: IRContext, l: Label) -> bool {
    exists|p: Seq<Label>| is_path(ctx, p) && p.last() == l
}

/// Labels are pairwise distinct.
pub open spec fn distinct_labels(s: Seq<Label>) -> bool {
    forall|i: int, j: int| 0 <= i < s.len() && 0 <= j < s.len() && i != j ==> s[i] != s[j]
}

/// Every existing successor of a listed block is listed.
pub open spec fn closed_under_succs(ctx: IRContext, s: Seq<Label>) -> bool {
    forall|i: int, j: int| 0 <= i < s.len() && 0 <= j < succs(ctx.block(s[i])).len() && ctx.has_block(#[trigger] succs(ctx.block(#[trigger] s[i]))[j])
        ==> s.contains(succs(ctx.block(s[i]))[j])
}

/// Number of unset flags.
pub open spec fn count_false(s: Seq<bool>) -> nat
    decreases s.len(),
{
    if s.len() == 0 {
        0
    } else {
        count_false(s.drop_last()) + if s.last() { 0nat } else { 1nat }
    }
}

proof fn lemma_count_false_mono(a: Seq<bool>, b: Seq<bool>)
    requires
        a.len() == b.len(),
        forall|i: int| 0 <= i < a.len() && a[i] ==> b[i],
    ensures
        count_false(b) <= count_false(a),
        (exists|i: int| 0 <= i < a.len() && !a[i] && b[i]) ==> count_false(b) < count_false(a),
    decreases a.len(),
{
    if a.len() > 0 {
        lemma_count_false_mono(a.drop_last(), b.drop_last());
        if exists|i: int| 0 <= i < a.len() && !a[i] && b[i] {
            let i = choose|i: int| 0 <= i < a.len() && !a[i] && b[i];
            if i < a.len() - 1 {
                assert(!a.drop_last()[i] && b.drop_last()[i]);
            }
        }
    }
}

/// Extending a path by an edge gives a path.
proof fn lemma_path_push(ctx: IRContext, p: Seq<Label>, v: Label)
    requires
        is_path(ctx, p),
        edge(ctx, p.last(), v),
    ensures
        is_path(ctx, p.push(v)),
        p.push(v).last() == v,
{
    let q = p.push(v);
    assert forall|i: int| 0 <= i < q.len() - 1 implies edge(ctx, #[trigger] q[i], q[i + 1]) by {
        if i < p.len() - 1 {
            assert(q[i] == p[i] && q[i + 1] == p[i + 1]);
        }
    }
}

/// Depth-first search from `label`, appending blocks in post-order as they finish.
/// Some block listed after position `j` of `s` has an edge to the block at `j`.
pub open spec fn parent_after(ctx: IRContext, s: Seq<Label>, j: int) -> bool {
    exists|j2: int| j < j2 < s.len() && #[trigger] edge(ctx, s[j2], s[j])
}

/// Some block listed before position `i` of `s` has an edge to the block at `i`.
pub open spec fn parent_before(ctx: IRContext, s: Seq<Label>, i: int) -> bool {
    exists|i2: int| 0 <= i2 < i && #[trigger] edge(ctx, s[i2], s[i])
}

fn rpo_visit(ctx: &IRContext, label: Label, visited: &mut Vec<bool>, order: &mut Vec<Label>, Ghost(path): Ghost<Seq<Label>>)
    requires
        ctx.has_block(label),
        old(visited)@.len() == ctx.slots().len(),
        !old(visited)@[label.0 as int],
        is_path(*ctx, path),
        path.last() == label,
        distinct_labels(old(order)@),
        forall|j: int| 0 <= j < old(order)@.len() ==> ctx.has_block(#[trigger] old(order)@[j]) && old(visited)@[old(order)@[j].0 as int],
        forall|v: int| 0 <= v < old(visited)@.len() && #[trigger] old(visited)@[v] ==> ctx.has_block(Label(v as usize)) && reachable(*ctx, Label(v as usize)),
        forall|j: int, k: int| 0 <= j < old(order)@.len() && 0 <= k < succs(ctx.block(old(order)@[j])).len()
            && ctx.has_block(#[trigger] succs(ctx.block(#[trigger] old(order)@[j]))[k])
            ==> old(visited)@[succs(ctx.block(old(order)@[j]))[k].0 as int],
    ensures
        final(visited)@.len() == old(visited)@.len(),
        forall|v: int| 0 <= v < old(visited)@.len() && old(visited)@[v] ==> #[trigger] final(visited)@[v],
        final(visited)@[label.0 as int],
        count_false(final(visited)@) < count_false(old(visited)@),
        final(order)@.len() > old(order)@.len(),
        final(order)@.take(old(order)@.len() as int) == old(order)@,
        final(order)@.last() == label,
        distinct_labels(final(order)@),
        forall|j: int| 0 <= j < final(order)@.len() ==> ctx.has_block(#[trigger] final(order)@[j]) && final(visited)@[final(order)@[j].0 as int],
        forall|v: int| 0 <= v < final(visited)@.len() && #[trigger] final(visited)@[v] ==> ctx.has_block(Label(v as usize)) && reachable(*ctx, Label(v as usize)),
        forall|j: int, k: int| 0 <= j < final(order)@.len() && 0 <= k < succs(ctx.block(final(order)@[j])).len()
            && ctx.has_block(#[trigger] succs(ctx.block(#[trigger] final(order)@[j]))[k])
            ==> final(visited)@[succs(ctx.block(final(order)@[j]))[k].0 as int],
        forall|v: int| 0 <= v < final(visited)@.len() && #[trigger] final(visited)@[v] && !old(visited)@[v]
            ==> exists|j: int| old(order)@.len() <= j < final(order)@.len() && (#[trigger] final(order)@[j]).0 == v,
        forall|j: int| old(order)@.len() <= j < final(order)@.len() ==> !old(visited)@[(#[trigger] final(order)@[j]).0 as int],
        forall|j: int| old(order)@.len() <= j < final(order)@.len() - 1 ==> #[trigger] parent_after(*ctx, final(order)@, j),
    decreases count_false(old(visited)@),
{
    let ghost v0 = visited@;
    let ghost o0 = order@;
    visited.set(label.0, true);
    proof {
        lemma_count_false_mono(v0, visited@);
        assert(!v0[label.0 as int] && visited@[label.0 as int]);
    }
    let block = ctx.get_block(label).unwrap();
    let successors = get_successors_of_block(block);
    let mut k: usize = 0;
    while k < successors.len()
        invariant
            ctx.has_block(label),
            *block == ctx.block(label),
            successors@ == succs(ctx.block(label)),
            k <= successors@.len(),
            is_path(*ctx, path),
            path.last() == label,
            visited@.len() == v0.len(),
            v0 == old(visited)@,
            v0.len() == ctx.slots().len(),
            forall|v: int| 0 <= v < v0.len() && v0[v] ==> #[trigger] visited@[v],
            visited@[label.0 as int],
            count_false(visited@) < count_false(v0),
            order@.take(o0.len() as int) == o0,
            order@.len() >= o0.len(),
            distinct_labels(order@),
            forall|j: int| 0 <= j < order@.len() ==> ctx.has_block(#[trigger] order@[j]) && visited@[order@[j].0 as int],
            forall|j: int| o0.len() <= j < order@.len() ==> !v0[(#[trigger] order@[j]).0 as int],
            forall|j: int| 0 <= j < order@.len() ==> #[trigger] order@[j] != label,
            forall|v: int| 0 <= v < visited@.len() && #[trigger] visited@[v] ==> ctx.has_block(Label(v as usize)) && reachable(*ctx, Label(v as usize)),
            forall|j: int, q: int| 0 <= j < order@.len() && 0 <= q < succs(ctx.block(order@[j])).len()
                && ctx.has_block(#[trigger] succs(ctx.block(#[trigger] order@[j]))[q])
                ==> visited@[succs(ctx.block(order@[j]))[q].0 as int],
            forall|q: int| 0 <= q < k && ctx.has_block(#[trigger] successors@[q]) ==> visited@[successors@[q].0 as int],
            forall|v: int| 0 <= v < visited@.len() && #[trigger] visited@[v] && !v0[v] && v != label.0
                ==> exists|j: int| o0.len() <= j < order@.len() && (#[trigger] order@[j]).0 == v,
            forall|j: int| o0.len() <= j < order@.len() ==> #[trigger] parent_after(*ctx, order@, j)
                || edge(*ctx, label, order@[j]),
        decreases successors@.len() - k,
    {
        let s = successors[k];
        let exists_s = ctx.get_block(s).is_some();
        if exists_s && !visited[s.0] {
            proof {
                assert(succs(ctx.block(label)).contains(s)) by {
                    assert(succs(ctx.block(label))[k as int] == s);
                }
                lemma_path_push(*ctx, path, s);
            }
            let ghost vb = visited@;
            let ghost ob = order@;
            rpo_visit(ctx, s, visited, order, Ghost(path.push(s)));
            proof {
                assert(edge(*ctx, label, s));
                assert forall|j: int| o0.len() <= j < order@.len() implies #[trigger] parent_after(*ctx, order@, j)
                    || edge(*ctx, label, order@[j]) by {
                    if j < ob.len() {
                        assert(order@[j] == ob[j]);
                        if parent_after(*ctx, ob, j) {
                            let j2 = choose|j2: int| j < j2 < ob.len() && #[trigger] edge(*ctx, ob[j2], ob[j]);
                            assert(order@[j2] == ob[j2]);
                            assert(edge(*ctx, order@[j2], order@[j]));
                        }
                    } else if j == order@.len() - 1 {
                        assert(order@[j] == s);
                    }
                }
                lemma_count_false_mono(v0, vb);
                assert forall|j: int| 0 <= j < order@.len() implies #[trigger] order@[j] != label by {
                    if j < ob.len() {
                        assert(order@[j] == ob[j]);
                    } else {
                        assert(!vb[order@[j].0 as int]);
                    }
                }
                assert forall|j: int| o0.len() <= j < order@.len() implies !v0[(#[trigger] order@[j]).0 as int] by {
                    if j < ob.len() {
                        assert(order@[j] == ob[j]);
                    } else {
                        assert(!vb[order@[j].0 as int]);
                    }
                }
                assert forall|v: int| 0 <= v < visited@.len() && #[trigger] visited@[v] && !v0[v] && v != label.0
                    implies exists|j: int| o0.len() <= j < order@.len() && (#[trigger] order@[j]).0 == v by {
                    if vb[v] {
                        let j = choose|j: int| o0.len() <= j < ob.len() && (#[trigger] ob[j]).0 == v;
                        assert(order@[j] == ob[j]);
                    }
                }
                assert(order@.take(o0.len() as int) =~= o0) by {
                    assert(order@.take(ob.len() as int) == ob);
                    assert forall|j: int| 0 <= j < o0.len() implies order@[j] == o0[j] by {
                        assert(order@[j] == ob[j]);
                    }
                }
            }
        }
        k = k + 1;
    }
    let ghost ob = order@;
    order.push(label);
    proof {
        assert forall|j: int| o0.len() <= j < order@.len() - 1 implies #[trigger] parent_after(*ctx, order@, j) by {
            assert(order@[j] == ob[j]);
            if parent_after(*ctx, ob, j) {
                let j2 = choose|j2: int| j < j2 < ob.len() && #[trigger] edge(*ctx, ob[j2], ob[j]);
                assert(order@[j2] == ob[j2]);
                assert(edge(*ctx, order@[j2], order@[j]));
            } else {
                assert(order@[ob.len() as int] == label);
                assert(edge(*ctx, order@[ob.len() as int], order@[j]));
            }
        }
        assert forall|j: int, q: int| 0 <= j < order@.len() && 0 <= q < succs(ctx.block(order@[j])).len()
            && ctx.has_block(#[trigger] succs(ctx.block(#[trigger] order@[j]))[q])
            implies visited@[succs(ctx.block(order@[j]))[q].0 as int] by {
            if j < ob.len() {
                assert(order@[j] == ob[j]);
            } else {
                assert(successors@[q] == succs(ctx.block(label))[q]);
            }
        }
        assert forall|v: int| 0 <= v < visited@.len() && #[trigger] visited@[v] && !v0[v]
            implies exists|j: int| o0.len() <= j < order@.len() && (#[trigger] order@[j]).0 == v by {
            if v == label.0 {
                assert(order@[ob.len() as int].0 == v);
            } else {
                let j = choose|j: int| o0.len() <= j < ob.len() && (#[trigger] ob[j]).0 == v;
                assert(order@[j] == ob[j]);
            }
        }
        assert(order@.take(o0.len() as int) =~= o0) by {
            assert forall|j: int| 0 <= j < o0.len() implies order@[j] == o0[j] by {
                assert(ob.take(o0.len() as int)[j] == o0[j]);
            }
        }
    }
}


/// Listed labels in the opposite order.
fn reversed_labels(v: &Vec<Label>) -> (r: Vec<Label>)
    ensures
        r@.len() == v@.len(),
        forall|i: int| 0 <= i < v@.len() ==> #[trigger] r@[i] == v@[v@.len() - 1 - i],
{
    let mut r: Vec<Label> = Vec::new();
    let mut i: usize = v.len();
    while i > 0
        invariant
            i <= v@.len(),
            r@.len() == v@.len() - i,
            forall|j: int| 0 <= j < r@.len() ==> #[trigger] r@[j] == v@[v@.len() - 1 - j],
        decreases i,
    {
        i = i - 1;
        r.push(v[i]);
    }
    r
}

/// A list of blocks that holds the entry block and every existing successor of each
/// block it holds holds every block reachable from the entry.
pub proof fn lemma_closed_contains_reachable(ctx: IRContext, s: Seq<Label>, l: Label)
    requires
        s.contains(Label(0)),
        closed_under_succs(ctx, s),
        reachable(ctx, l),
    ensures
        s.contains(l),
{
    let p = choose|p: Seq<Label>| is_path(ctx, p) && p.last() == l;
    lemma_path_prefix_listed(ctx, s, p, p.len() - 1);
}

proof fn lemma_path_prefix_listed(ctx: IRContext, s: Seq<Label>, p: Seq<Label>, n: int)
    requires
        s.contains(Label(0)),
        closed_under_succs(ctx, s),
        is_path(ctx, p),
        0 <= n < p.len(),
    ensures
        s.contains(p[n]),
    decreases n,
{
    if n > 0 {
        lemma_path_prefix_listed(ctx, s, p, n - 1);
        assert(edge(ctx, p[n - 1], p[n]));
        let i = choose|i: int| 0 <= i < s.len() && s[i] == p[n - 1];
        let sc = succs(ctx.block(p[n - 1]));
        let j = choose|j: int| 0 <= j < sc.len() && #[trigger] sc[j] == p[n];
        assert(ctx.has_block(succs(ctx.block(s[i]))[j]));
    }
}

/// `s` lists, without repetition, blocks reachable from the entry block, the entry
/// block first, and holds every existing successor of each block it holds.
pub open spec fn rpo_ok(ctx: IRContext, s: Seq<Label>) -> bool {
    &&& distinct_labels(s)
    &&& forall|i: int| 0 <= i < s.len() ==> ctx.has_block(#[trigger] s[i]) && reachable(ctx, s[i])
    &&& ctx.has_block(Label(0)) ==> s.len() > 0 && s[0] == Label(0) && closed_under_succs(ctx, s)
    &&& !ctx.has_block(Label(0)) ==> s.len() == 0
}

/// Get the labels of the blocks reachable from the entry block, in reverse post-order of
/// a depth-first search (the entry block first); empty when there is no entry block.
pub fn get_block_labels_in_rpo(ctx: &IRContext) -> (r: Vec<Label>)
    ensures
        rpo_ok(*ctx, r@),
        forall|i: int| 0 < i < r@.len() ==> #[trigger] parent_before(*ctx, r@, i),
{
    let mut order: Vec<Label> = Vec::new();
    if ctx.get_block(Label(0)).is_none() {
        return order;
    }
    let mut visited: Vec<bool> = Vec::new();
    let n = ctx.get_blocks().len();
    while visited.len() < n
        invariant
            visited@.len() <= n,
            n == ctx.slots().len(),
            forall|v: int| 0 <= v < visited@.len() ==> !#[trigger] visited@[v],
        decreases n - visited@.len(),
    {
        visited.push(false);
    }
    let ghost p0: Seq<Label> = seq![Label(0)];
    assert(is_path(*ctx, p0));
    rpo_visit(ctx, Label(0), &mut visited, &mut order, Ghost(p0));
    let r = reversed_labels(&order);
    proof {
        let n = order@.len();
        assert(r@[0] == Label(0));
        assert forall|i: int, j: int| 0 <= i < r@.len() && 0 <= j < r@.len() && i != j implies r@[i] != r@[j] by {
            assert(r@[i] == order@[n - 1 - i]);
            assert(r@[j] == order@[n - 1 - j]);
        }
        assert forall|i: int| 0 < i < r@.len() implies #[trigger] parent_before(*ctx, r@, i) by {
            assert(r@[i] == order@[n - 1 - i]);
            assert(parent_after(*ctx, order@, n - 1 - i));
            let j2 = choose|j2: int| n - 1 - i < j2 < order@.len() && #[trigger] edge(*ctx, order@[j2], order@[n - 1 - i]);
            assert(r@[n - 1 - j2] == order@[j2]);
            assert(edge(*ctx, r@[n - 1 - j2], r@[i]));
        }
        assert forall|i: int| 0 <= i < r@.len() implies ctx.has_block(#[trigger] r@[i]) && reachable(*ctx, r@[i]) by {
            assert(r@[i] == order@[n - 1 - i]);
            assert(visited@[order@[n - 1 - i].0 as int]);
        }
        assert forall|i: int, j: int| 0 <= i < r@.len() && 0 <= j < succs(ctx.block(r@[i])).len()
            && ctx.has_block(#[trigger] succs(ctx.block(#[trigger] r@[i]))[j])
            implies r@.contains(succs(ctx.block(r@[i]))[j]) by {
            let t = succs(ctx.block(r@[i]))[j];
            assert(r@[i] == order@[n - 1 - i]);
            assert(visited@[t.0 as int]);
            let k = choose|k: int| 0 <= k < order@.len() && (#[trigger] order@[k]).0 == t.0;
            assert(r@[n - 1 - k] == order@[k]);
        }
    }
    r
}


/// Get the labels reachable from the entry label: the entry label itself, and the
/// existing blocks that can be reached from the entry block.
pub fn get_reachable_labels(ctx: &IRContext) -> (r: Vec<Label>)
    ensures
        r@.contains(Label(0)),
        distinct_labels(r@),
        forall|i: int| 0 <= i < r@.len() && #[trigger] r@[i] != Label(0) ==> ctx.has_block(r@[i]) && reachable(*ctx, r@[i]),
        ctx.has_block(Label(0)) ==> closed_under_succs(*ctx, r@),
        forall|l: Label| reachable(*ctx, l) ==> r@.contains(l),
{
    let order = get_block_labels_in_rpo(ctx);
    if order.len() == 0 {
        let r = vec![Label(0)];
        proof {
            assert(r@[0] == Label(0));
            assert forall|l: Label| reachable(*ctx, l) implies r@.contains(l) by {
                let p = choose|p: Seq<Label>| is_path(*ctx, p) && p.last() == l;
            }
        }
        return r;
    }
    proof {
        assert(order@[0] == Label(0));
        assert forall|l: Label| reachable(*ctx, l) implies order@.contains(l) by {
            lemma_closed_contains_reachable(*ctx, order@, l);
        }
    }
    order
}

/// Blocks whose terminator jumps to block `v`: for each existing block `v`, the
/// existing blocks with an edge to it.
pub open spec fn is_pred(ctx: IRContext, u: Label, v: Label) -> bool {
    ctx.has_block(u) && succs(ctx.block(u)).contains(v)
}

/// Get, for each label, the labels of the blocks that have it as a successor (an empty
/// list for labels without a block), indexed by label number.
pub fn get_predecessors_for_all_blocks(ctx: &IRContext) -> (r: Vec<Vec<Label>>)
    ensures
        r@.len() == ctx.slots().len(),
        forall|v: int| 0 <= v < r@.len() && !ctx.has_block(Label(v as usize)) ==> (#[trigger] r@[v])@.len() == 0,
        forall|v: int, u: Label| 0 <= v < r@.len() && ctx.has_block(Label(v as usize))
            ==> ((#[trigger] r@[v])@.contains(u) <==> #[trigger] is_pred(*ctx, u, Label(v as usize))),
{
    let blocks = ctx.get_blocks();
    let n = blocks.len();
    let mut r: Vec<Vec<Label>> = Vec::new();
    while r.len() < n
        invariant
            r@.len() <= n,
            forall|v: int| 0 <= v < r@.len() ==> (#[trigger] r@[v])@.len() == 0,
        decreases n - r@.len(),
    {
        r.push(Vec::new());
    }
    let mut u: usize = 0;
    while u < n
        invariant
            n == ctx.slots().len(),
            blocks@ == ctx.slots(),
            r@.len() == n,
            u <= n,
            forall|v: int| 0 <= v < r@.len() && !ctx.has_block(Label(v as usize)) ==> (#[trigger] r@[v])@.len() == 0,
            forall|v: int, w: Label| 0 <= v < r@.len() && ctx.has_block(Label(v as usize))
                ==> (#[trigger] r@[v]@.contains(w) <==> (w.0 < u && is_pred(*ctx, w, Label(v as usize)))),
        decreases n - u,
    {
        match &blocks[u] {
            Some(b) => {
                proof { assert(ctx.has_block(Label(u)) && ctx.block(Label(u)) == *b); }
                let successors = get_successors_of_block(b);
                let ghost r0 = r@;
                let mut k: usize = 0;
                while k < successors.len()
                    invariant
                        n == ctx.slots().len(),
                        blocks@ == ctx.slots(),
                        r@.len() == n,
                        u < n,
                        ctx.has_block(Label(u)),
                        successors@ == succs(ctx.block(Label(u))),
                        k <= successors@.len(),
                        r0.len() == n,
                        forall|v: int| 0 <= v < r@.len() && !ctx.has_block(Label(v as usize)) ==> (#[trigger] r@[v])@.len() == 0,
                        forall|v: int, w: Label| 0 <= v < r0.len() && ctx.has_block(Label(v as usize))
                            ==> (#[trigger] r0[v]@.contains(w) <==> (w.0 < u && is_pred(*ctx, w, Label(v as usize)))),
                        forall|v: int, w: Label| 0 <= v < r@.len() && ctx.has_block(Label(v as usize))
                            ==> (#[trigger] r@[v]@.contains(w) <==> (r0[v]@.contains(w)
                                || (w == Label(u) && exists|q: int| 0 <= q < k && #[trigger] successors@[q] == Label(v as usize)))),
                    decreases successors@.len() - k,
                {
                    let t = successors[k];
                    if t.0 < n && ctx.get_block(t).is_some() {
                        let ghost rb = r@;
                        let mut inner: Vec<Label> = Vec::new();
                        std::mem::swap(&mut inner, &mut r[t.0]);
                        inner.push(Label(u));
                        r.set(t.0, inner);
                        proof {
                            assert(r@[t.0 as int]@ == rb[t.0 as int]@.push(Label(u)));
                            assert forall|v: int, w: Label| 0 <= v < r@.len() && ctx.has_block(Label(v as usize))
                                implies (#[trigger] r@[v]@.contains(w) <==> (r0[v]@.contains(w)
                                || (w == Label(u) && exists|q: int| 0 <= q < k + 1 && #[trigger] successors@[q] == Label(v as usize)))) by {
                                let lv = Label(v as usize);
                                assert(rb[v]@.contains(w) <==> (r0[v]@.contains(w)
                                    || (w == Label(u) && exists|q: int| 0 <= q < k && #[trigger] successors@[q] == lv)));
                                if v == t.0 {
                                    assert(successors@[k as int] == lv);
                                    assert(r@[v]@ == rb[v]@.push(Label(u)));
                                    if r@[v]@.contains(w) && w != Label(u) {
                                        let i = choose|i: int| 0 <= i < r@[v]@.len() && r@[v]@[i] == w;
                                        assert(i < r@[v]@.len() - 1);
                                        assert(rb[v]@[i] == w);
                                    }
                                    if rb[v]@.contains(w) {
                                        let i = choose|i: int| 0 <= i < rb[v]@.len() && rb[v]@[i] == w;
                                        assert(r@[v]@[i] == w);
                                    }
                                    if w == Label(u) {
                                        assert(r@[v]@[r@[v]@.len() - 1] == w);
                                    }
                                } else {
                                    assert(r@[v] == rb[v]);
                                    if exists|q: int| 0 <= q < k + 1 && #[trigger] successors@[q] == lv {
                                        let q = choose|q: int| 0 <= q < k + 1 && #[trigger] successors@[q] == lv;
                                        if q == k {
                                            assert(t == lv);
                                        }
                                        assert(exists|q2: int| 0 <= q2 < k && #[trigger] successors@[q2] == lv);
                                    }
                                    if exists|q: int| 0 <= q < k && #[trigger] successors@[q] == lv {
                                        let q = choose|q: int| 0 <= q < k && #[trigger] successors@[q] == lv;
                                        assert(exists|q2: int| 0 <= q2 < k + 1 && #[trigger] successors@[q2] == lv);
                                    }
                                }
                            }
                        }
                    } else {
                        proof {
                            assert forall|v: int, w: Label| 0 <= v < r@.len() && ctx.has_block(Label(v as usize))
                                implies (#[trigger] r@[v]@.contains(w) <==> (r0[v]@.contains(w)
                                || (w == Label(u) && exists|q: int| 0 <= q < k + 1 && #[trigger] successors@[q] == Label(v as usize)))) by {
                                let lv = Label(v as usize);
                                assert(r@[v]@.contains(w) <==> (r0[v]@.contains(w)
                                    || (w == Label(u) && exists|q: int| 0 <= q < k && #[trigger] successors@[q] == lv)));
                                if exists|q: int| 0 <= q < k + 1 && #[trigger] successors@[q] == lv {
                                    let q = choose|q: int| 0 <= q < k + 1 && #[trigger] successors@[q] == lv;
                                    if q == k {
                                        assert(t == lv);
                                        assert(t.0 < n);
                                        assert(ctx.has_block(t));
                                        assert(false);
                                    }
                                    assert(exists|q2: int| 0 <= q2 < k && #[trigger] successors@[q2] == lv);
                                }
                                if exists|q: int| 0 <= q < k && #[trigger] successors@[q] == lv {
                                    let q = choose|q: int| 0 <= q < k && #[trigger] successors@[q] == lv;
                                    assert(exists|q2: int| 0 <= q2 < k + 1 && #[trigger] successors@[q2] == lv);
                                }
                            }
                        }
                    }
                    k = k + 1;
                }
                proof {
                    assert forall|v: int, w: Label| 0 <= v < r@.len() && ctx.has_block(Label(v as usize))
                        implies (#[trigger] r@[v]@.contains(w) <==> (w.0 < u + 1 && is_pred(*ctx, w, Label(v as usize)))) by {
                        if w == Label(u) && is_pred(*ctx, w, Label(v as usize)) {
                            let q = choose|q: int| 0 <= q < successors@.len() && successors@[q] == Label(v as usize);
                            assert(successors@[q] == Label(v as usize));
                        }
                    }
                }
            },
            None => {
                proof {
                    assert forall|v: int, w: Label| 0 <= v < r@.len() && ctx.has_block(Label(v as usize))
                        implies (#[trigger] r@[v]@.contains(w) <==> (w.0 < u + 1 && is_pred(*ctx, w, Label(v as usize)))) by {
                        if w.0 == u {
                            assert(!ctx.has_block(w));
                        }
                    }
                }
            },
        }
        u = u + 1;
    }
    proof {
        assert forall|v: int, u: Label| 0 <= v < r@.len() && ctx.has_block(Label(v as usize))
            implies ((#[trigger] r@[v])@.contains(u) <==> #[trigger] is_pred(*ctx, u, Label(v as usize))) by {
            if is_pred(*ctx, u, Label(v as usize)) {
                assert(u.0 < n);
            }
        }
    }
    r
}


/// Number of reads of temporary `id` among some operands.
pub open spec fn operand_uses(ops: Seq<Operand>, id: usize) -> nat
    decreases ops.len(),
{
    if ops.len() == 0 {
        0
    } else {
        operand_uses(ops.drop_last(), id) + if ops.last() matches Operand::Temp(t) && t.0 == id { 1nat } else { 0nat }
    }
}

/// Number of reads of temporary `id` by some instructions.
pub open spec fn instrs_uses(is: Seq<Instr>, id: usize) -> nat
    decreases is.len(),
{
    if is.len() == 0 {
        0
    } else {
        instrs_uses(is.drop_last(), id) + operand_uses(operands_of(is.last()), id)
    }
}

/// Number of reads of temporary `id` in a block, its terminator included.
pub open spec fn block_uses(b: BasicBlock, id: usize) -> nat {
    instrs_uses(b.body@, id) + match b.terminator {
        Some(t) => operand_uses(operands_of(t), id),
        None => 0,
    }
}

/// Number of reads of temporary `id` in some block slots.
pub open spec fn slots_uses(s: Seq<Option<BasicBlock>>, id: usize) -> nat
    decreases s.len(),
{
    if s.len() == 0 {
        0
    } else {
        slots_uses(s.drop_last(), id) + match s.last() {
            Some(b) => block_uses(b, id),
            None => 0,
        }
    }
}

/// A count, or the largest `usize` when it does not fit.
pub open spec fn capped(n: nat) -> usize {
    if n > usize::MAX { usize::MAX } else { n as usize }
}

/// Add the reads among `ops` to the counts (each count capped).
fn count_operand_uses(counts: &mut Vec<usize>, ops: &Vec<Operand>, Ghost(base): Ghost<spec_fn(usize) -> nat>)
    requires
        forall|id: int| 0 <= id < old(counts)@.len() ==> old(counts)@[id] == capped(base(id as usize)),
    ensures
        final(counts)@.len() == old(counts)@.len(),
        forall|id: int| 0 <= id < final(counts)@.len()
            ==> final(counts)@[id] == capped(base(id as usize) + operand_uses(ops@, id as usize)),
{
    let mut i: usize = 0;
    while i < ops.len()
        invariant
            i <= ops@.len(),
            counts@.len() == old(counts)@.len(),
            forall|id: int| 0 <= id < counts@.len()
                ==> counts@[id] == capped(base(id as usize) + operand_uses(ops@.take(i as int), id as usize)),
        decreases ops@.len() - i,
    {
        proof {
            assert(ops@.take(i as int + 1).drop_last() =~= ops@.take(i as int));
        }
        match &ops[i] {
            Operand::Temp(t) => {
                if t.0 < counts.len() {
                    let c = counts[t.0];
                    let c2 = if c < usize::MAX { c + 1 } else { c };
                    counts.set(t.0, c2);
                }
            },
            Operand::Const(_) => {},
        }
        i = i + 1;
    }
    assert(ops@.take(ops@.len() as int) =~= ops@);
}

/// Get, for each temporary created in the context, the number of times it is read
/// (capped at the largest `usize`), indexed by the temporary's id.
pub fn compute_uses_of_all_temps(ctx: &IRContext) -> (r: Vec<usize>)
    ensures
        r@.len() == ctx.temps(),
        forall|id: int| 0 <= id < r@.len() ==> #[trigger] r@[id] == capped(slots_uses(ctx.slots(), id as usize)),
{
    let n = ctx.get_temps_count();
    let mut counts: Vec<usize> = Vec::new();
    while counts.len() < n
        invariant
            counts@.len() <= n,
            forall|id: int| 0 <= id < counts@.len() ==> counts@[id] == 0,
        decreases n - counts@.len(),
    {
        counts.push(0);
    }
    let blocks = ctx.get_blocks();
    let mut b: usize = 0;
    while b < blocks.len()
        invariant
            b <= blocks@.len(),
            blocks@ == ctx.slots(),
            counts@.len() == n,
            forall|id: int| 0 <= id < counts@.len()
                ==> counts@[id] == capped(slots_uses(blocks@.take(b as int), id as usize)),
        decreases blocks@.len() - b,
    {
        proof {
            assert(blocks@.take(b as int + 1).drop_last() =~= blocks@.take(b as int));
        }
        let ghost before_block = |id: usize| slots_uses(blocks@.take(b as int), id);
        match &blocks[b] {
            Some(block) => {
                let mut k: usize = 0;
                while k < block.body.len()
                    invariant
                        k <= block.body@.len(),
                        counts@.len() == n,
                        forall|id: int| 0 <= id < counts@.len()
                            ==> counts@[id] == capped(before_block(id as usize) + instrs_uses(block.body@.take(k as int), id as usize)),
                    decreases block.body@.len() - k,
                {
                    proof {
                        assert(block.body@.take(k as int + 1).drop_last() =~= block.body@.take(k as int));
                    }
                    let ops = get_operands_from_instruction(&block.body[k]);
                    let ghost base = |id: usize| before_block(id) + instrs_uses(block.body@.take(k as int), id);
                    count_operand_uses(&mut counts, &ops, Ghost(base));
                    k = k + 1;
                }
                proof {
                    assert(block.body@.take(block.body@.len() as int) =~= block.body@);
                }
                match &block.terminator {
                    Some(t) => {
                        let ops = get_operands_from_instruction(t);
                        let ghost base = |id: usize| before_block(id) + instrs_uses(block.body@, id);
                        count_operand_uses(&mut counts, &ops, Ghost(base));
                    },
                    None => {},
                }
            },
            None => {},
        }
        b = b + 1;
    }
    assert(blocks@.take(blocks@.len() as int) =~= blocks@);
    counts
}

} // verus!
