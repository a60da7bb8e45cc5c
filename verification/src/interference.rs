//! Interference between the temporaries of a function (and the registers that
//! instructions clobber): two nodes interfere when they may hold live values at once.
use std::collections::HashMap;
use vstd::prelude::*;

use crate::ast::{BinOp, Typ};
use crate::cfg::{dest_of, get_successors_of_block};
use crate::ir::{duplicate_temp, lemma_wf_slots, BasicBlock, IRContext, Instr, Label, Operand, Temp};
use crate::liveness::{
    defined_id, get_defines, get_uses, list_sets, read_ids, reads_below, run_of, temp_ids,
};
use crate::x86asm::{X86Reg};

verus! {

broadcast use vstd::std_specs::hash::group_hash_axioms;

/// A node in the interference graph.
#[derive(Copy, Clone, PartialEq, Eq, Structural, Debug)]
pub enum Node {
    /// Pre-colored temporary goes directly to register.
    Reg(X86Reg),
    /// Uncolored temporary identified via its numeric id.
    Temp(usize),
}

/// A move edge candidate for coalescing.
#[derive(Copy, Clone, PartialEq, Eq, Structural, Debug)]
pub struct MoveEdge {
    /// Node moved from.
    pub src: Node,
    /// Node moved to.
    pub dest: Node,
}

/// Allocatable registers that a call (or an allocation, which calls) clobbers.
pub open spec fn call_clobbers() -> Seq<X86Reg> {
    seq![X86Reg::Rax, X86Reg::Rcx, X86Reg::Rdx, X86Reg::Rdi, X86Reg::Rsi, X86Reg::R8, X86Reg::R9, X86Reg::R11]
}

/// Registers clobbered by an instruction.
pub open spec fn clobbers_of(i: Instr) -> Seq<X86Reg> {
    match i {
        Instr::Call { .. } => call_clobbers(),
        Instr::TailCall { .. } => call_clobbers(),
        Instr::Alloc { .. } => call_clobbers(),
        Instr::AllocArray { .. } => call_clobbers(),
        Instr::BinOp { op, rhs, .. } => if op == BinOp::Div || op == BinOp::Mod {
            seq![X86Reg::Rax, X86Reg::Rdx]
        } else if (op == BinOp::Sal || op == BinOp::Sar) && rhs is Temp {
            seq![X86Reg::Rcx]
        } else {
            Seq::<X86Reg>::empty()
        },
        _ => Seq::<X86Reg>::empty(),
    }
}

/// Id of the temporary a move copies from, if the instruction is such a move.
pub open spec fn move_source(i: Instr) -> Option<usize> {
    match i {
        Instr::Move { src: Operand::Temp(t), .. } => Some(t.0),
        _ => None,
    }
}

/// The interference pairs an instruction adds, with `live` the temporaries live after it:
/// what is live or read across a clobbering instruction interferes with the clobbered
/// registers; what is live after a definition (but the copied source of a move)
/// interferes with the defined temporary; and a subtraction's right operand interferes
/// with its result.
pub open spec fn pairs_at(i: Instr, live: Set<usize>) -> Set<(Node, Node)> {
    let d = defined_id(i);
    let across = live.union(read_ids(i).to_set());
    let clobber_pairs = Set::new(
        |e: (Node, Node)|
            match e {
                (Node::Temp(t), Node::Reg(r)) => across.contains(t) && Some(t) != d && clobbers_of(i).contains(r),
                _ => false,
            },
    );
    let def_pairs = Set::new(
        |e: (Node, Node)|
            match e {
                (Node::Temp(t), Node::Temp(dd)) => d == Some(dd) && live.contains(t) && t != dd && Some(t)
                    != move_source(i),
                _ => false,
            },
    );
    let sub_pairs = match i {
        Instr::BinOp { op: BinOp::Sub, rhs: Operand::Temp(r), dest, .. } => if dest.0 != r.0 {
            set![(Node::Temp(r.0), Node::Temp(dest.0))]
        } else {
            Set::<(Node, Node)>::empty()
        },
        _ => Set::<(Node, Node)>::empty(),
    };
    clobber_pairs.union(def_pairs).union(sub_pairs)
}

/// What is live before an instruction, given what is live after it.
pub open spec fn live_before(i: Instr, live: Set<usize>) -> Set<usize> {
    let without = match defined_id(i) {
        Some(d) => live.remove(d),
        None => live,
    };
    without.union(read_ids(i).to_set())
}

/// The pairs that instructions add when walked backwards (the first one walked is the
/// first of `is`), from what is live after the first.
pub open spec fn walk_pairs(is: Seq<Instr>, live: Set<usize>) -> Set<(Node, Node)>
    decreases is.len(),
{
    if is.len() == 0 {
        Set::<(Node, Node)>::empty()
    } else {
        pairs_at(is[0], live).union(walk_pairs(is.drop_first(), live_before(is[0], live)))
    }
}

/// The argument registers of the calling convention, in order.
pub open spec fn argument_registers() -> Seq<X86Reg> {
    seq![X86Reg::Rdi, X86Reg::Rsi, X86Reg::Rdx, X86Reg::Rcx, X86Reg::R8, X86Reg::R9]
}

/// Parameters interfere with one another, and each parameter passed in a register with
/// the argument registers after its own.
pub open spec fn param_pairs(p: nat) -> Set<(Node, Node)> {
    Set::new(
        |e: (Node, Node)|
            match e {
                (Node::Temp(i), Node::Temp(j)) => i < j < p,
                (Node::Temp(i), Node::Reg(r)) => i < p && i < 6 && argument_registers().contains(r)
                    && argument_registers().index_of(r) > i,
                _ => false,
            },
    )
}

/// All the interference pairs of a function, given what is live on exit from each block.
pub open spec fn function_pairs(s: Seq<Option<BasicBlock>>, outs: Seq<Set<usize>>, p: nat) -> Set<(Node, Node)> {
    Set::new(
        |e: (Node, Node)|
            exists|b: int| 0 <= b < s.len() && s[b] is Some && #[trigger] walk_pairs(run_of(s[b]->0).reverse(), outs[b]).contains(e),
    ).union(param_pairs(p))
}

/// The neighbours of a node for a set of pairs: the other end of each pair it is in.
pub open spec fn neighbours(e: Set<(Node, Node)>, u: Node) -> Set<Node> {
    Set::new(|v: Node| v != u && (e.contains((u, v)) || e.contains((v, u))))
}

/// The lists hold, for each temporary below their number, its neighbours for the pairs
/// `e`, without repetition; and every temporary in `e` is below that number.
pub open spec fn represents(nbrs: Seq<Vec<Node>>, e: Set<(Node, Node)>) -> bool {
    &&& forall|t: int| 0 <= t < nbrs.len() ==> (#[trigger] nbrs[t])@.no_duplicates()
    &&& forall|t: int, v: Node| 0 <= t < nbrs.len() ==> (#[trigger] nbrs[t]@.contains(v) <==> neighbours(e, Node::Temp(t as usize)).contains(v))
    &&& forall|x: Node, y: Node| #[trigger] e.contains((x, y)) ==> node_below(x, nbrs.len()) && node_below(y, nbrs.len())
}

/// A node is a register or a temporary below `m`.
pub open spec fn node_below(n: Node, m: nat) -> bool {
    match n {
        Node::Temp(t) => t < m,
        Node::Reg(_) => true,
    }
}

/// Whether a list of nodes holds a node.
fn has_node(list: &Vec<Node>, n: Node) -> (r: bool)
    ensures
        r == list@.contains(n),
{
    let mut i: usize = 0;
    while i < list.len()
        invariant
            i <= list@.len(),
            forall|j: int| 0 <= j < i ==> list@[j] != n,
        decreases list@.len() - i,
    {
        if list[i] == n {
            return true;
        }
        i = i + 1;
    }
    false
}

/// Add `v` to the neighbours of `u` when `u` is a temporary.
fn add_neighbour(nbrs: &mut Vec<Vec<Node>>, u: Node, v: Node)
    requires
        node_below(u, old(nbrs)@.len()),
        u != v,
        forall|t: int| 0 <= t < old(nbrs)@.len() ==> (#[trigger] old(nbrs)@[t])@.no_duplicates(),
    ensures
        final(nbrs)@.len() == old(nbrs)@.len(),
        forall|t: int| 0 <= t < final(nbrs)@.len() ==> (#[trigger] final(nbrs)@[t])@.no_duplicates(),
        forall|t: int, w: Node| 0 <= t < final(nbrs)@.len() ==> (#[trigger] final(nbrs)@[t]@.contains(w) <==> (
            old(nbrs)@[t]@.contains(w) || (u == Node::Temp(t as usize) && w == v))),
{
    let count = nbrs.len();
    proof {
        assert(count == nbrs@.len());
    }
    match u {
        Node::Temp(a) => {
            if has_node(&nbrs[a], v) {
                proof {
                    assert forall|t: int, w: Node| 0 <= t < nbrs@.len() implies (#[trigger] nbrs@[t]@.contains(w) <==> (
                        old(nbrs)@[t]@.contains(w) || (u == Node::Temp(t as usize) && w == v))) by {
                        if u == Node::Temp(t as usize) && w == v {
                            assert(t == a);
                        }
                    }
                }
                return;
            }
            let mut list: Vec<Node> = Vec::new();
            std::mem::swap(&mut list, &mut nbrs[a]);
            let ghost before = list@;
            proof {
                assert(before == old(nbrs)@[a as int]@);
            }
            list.push(v);
            proof {
                assert forall|i: int, j: int| 0 <= i < list@.len() && 0 <= j < list@.len() && i != j implies list@[i] != list@[j] by {
                    if i < before.len() && j < before.len() {
                        assert(before[i] != before[j]);
                    } else if i == before.len() {
                        assert(!before.contains(v));
                        assert(list@[j] == before[j]);
                    } else {
                        assert(!before.contains(v));
                        assert(list@[i] == before[i]);
                    }
                }
                assert forall|w: Node| list@.contains(w) <==> (before.contains(w) || w == v) by {
                    if list@.contains(w) && w != v {
                        let i = choose|i: int| 0 <= i < list@.len() && list@[i] == w;
                        assert(before[i] == w);
                    }
                    if before.contains(w) {
                        let i = choose|i: int| 0 <= i < before.len() && before[i] == w;
                        assert(list@[i] == w);
                    }
                    if w == v {
                        assert(list@[before.len() as int] == v);
                    }
                }
            }
            nbrs.set(a, list);
            proof {
                assert forall|t: int| 0 <= t < nbrs@.len() implies (#[trigger] nbrs@[t])@.no_duplicates() by {
                    if t != a {
                        assert(nbrs@[t] == old(nbrs)@[t]);
                    }
                }
                assert forall|t: int, w: Node| 0 <= t < nbrs@.len() implies (#[trigger] nbrs@[t]@.contains(w) <==> (
                    old(nbrs)@[t]@.contains(w) || (u == Node::Temp(t as usize) && w == v))) by {
                    if t != a {
                        assert(nbrs@[t] == old(nbrs)@[t]);
                        assert(u != Node::Temp(t as usize));
                    } else {
                        assert(nbrs@[t]@ == list@);
                    }
                }
            }
        },
        Node::Reg(_) => {},
    }
}

/// Add an edge between two nodes (if it doesn't already exist), avoiding self-loops.
fn add_edge(nbrs: &mut Vec<Vec<Node>>, u: Node, v: Node, Ghost(e): Ghost<Set<(Node, Node)>>)
    requires
        represents(old(nbrs)@, e),
        node_below(u, old(nbrs)@.len()),
        node_below(v, old(nbrs)@.len()),
    ensures
        final(nbrs)@.len() == old(nbrs)@.len(),
        represents(final(nbrs)@, if u == v { e } else { e.insert((u, v)) }),
{
    if u == v {
        return;
    }
    add_neighbour(nbrs, u, v);
    let ghost mid = nbrs@;
    add_neighbour(nbrs, v, u);
    proof {
        let e2 = e.insert((u, v));
        assert forall|t: int, w: Node| 0 <= t < nbrs@.len() implies (#[trigger] nbrs@[t]@.contains(w)
            <==> neighbours(e2, Node::Temp(t as usize)).contains(w)) by {
            assert(mid[t]@.contains(w) <==> (old(nbrs)@[t]@.contains(w) || (u == Node::Temp(t as usize) && w == v)));
            assert(old(nbrs)@[t]@.contains(w) <==> neighbours(e, Node::Temp(t as usize)).contains(w));
        }
        assert forall|x: Node, y: Node| #[trigger] e2.contains((x, y)) implies node_below(x, nbrs@.len()) && node_below(y, nbrs@.len()) by {
            if (x, y) != (u, v) {
                assert(e.contains((x, y)));
            }
        }
    }
}

/// Registers clobbered by an instruction.
fn get_clobbered_regs(instr: &Instr) -> (r: Vec<X86Reg>)
    ensures
        r@ == clobbers_of(*instr),
{
    let call = vec![X86Reg::Rax, X86Reg::Rcx, X86Reg::Rdx, X86Reg::Rdi, X86Reg::Rsi, X86Reg::R8, X86Reg::R9, X86Reg::R11];
    proof {
        assert(call@ =~= call_clobbers());
    }
    match instr {
        Instr::Call { .. } | Instr::TailCall { .. } | Instr::Alloc { .. } | Instr::AllocArray { .. } => call,
        Instr::BinOp { op, rhs, .. } => {
            if *op == BinOp::Div || *op == BinOp::Mod {
                let v = vec![X86Reg::Rax, X86Reg::Rdx];
                proof {
                    assert(v@ =~= seq![X86Reg::Rax, X86Reg::Rdx]);
                }
                v
            } else if (*op == BinOp::Sal || *op == BinOp::Sar) && matches!(rhs, Operand::Temp(_)) {
                let v = vec![X86Reg::Rcx];
                proof {
                    assert(v@ =~= seq![X86Reg::Rcx]);
                }
                v
            } else {
                Vec::new()
            }
        },
        _ => Vec::new(),
    }
}

/// Id of the temporary a move copies from, if the instruction is such a move.
fn get_move_source(instr: &Instr) -> (r: Option<usize>)
    ensures
        r == move_source(*instr),
{
    match instr {
        Instr::Move { src: Operand::Temp(t), .. } => Some(t.0),
        _ => None,
    }
}

/// The clobber pairs of the temporaries below `t0` set in `across`.
pub open spec fn clobber_upto(across: Seq<bool>, d: Option<usize>, clob: Seq<X86Reg>, t0: int) -> Set<(Node, Node)> {
    Set::new(
        |e: (Node, Node)|
            match e {
                (Node::Temp(t), Node::Reg(r)) => t < t0 && t < across.len() && across[t as int] && Some(t) != d
                    && clob.contains(r),
                _ => false,
            },
    )
}

/// The definition pairs of the temporaries below `t0` set in `live`.
pub open spec fn defs_upto(live: Seq<bool>, d: usize, msrc: Option<usize>, t0: int) -> Set<(Node, Node)> {
    Set::new(
        |e: (Node, Node)|
            match e {
                (Node::Temp(t), Node::Temp(dd)) => dd == d && t < t0 && t < live.len() && live[t as int] && t != d
                    && Some(t) != msrc,
                _ => false,
            },
    )
}

/// Add the interference edges of an instruction to the graph, `live` holding what is
/// live after it; `live` then holds what is live before it.
fn process_instruction(instr: &Instr, live: &mut Vec<bool>, nbrs: &mut Vec<Vec<Node>>, Ghost(e): Ghost<Set<(Node, Node)>>)
    requires
        old(live)@.len() == old(nbrs)@.len(),
        represents(old(nbrs)@, e),
        forall|j: int| 0 <= j < read_ids(*instr).len() ==> #[trigger] read_ids(*instr)[j] < old(live)@.len(),
        defined_id(*instr) matches Some(d) ==> d < old(live)@.len(),
    ensures
        final(live)@.len() == old(live)@.len(),
        final(nbrs)@.len() == old(nbrs)@.len(),
        represents(final(nbrs)@, e.union(pairs_at(*instr, crate::liveness::bits_set(old(live)@)))),
        crate::liveness::bits_set(final(live)@) == live_before(*instr, crate::liveness::bits_set(old(live)@)),
{
    let m = live.len();
    let ghost l0 = live@;
    let ghost live_set = crate::liveness::bits_set(l0);
    let d = get_defines(instr);
    let uses = get_uses(instr);
    let msrc = get_move_source(instr);
    let clob = get_clobbered_regs(instr);
    // What is live across the instruction: live after it, or read by it.
    let mut across: Vec<bool> = Vec::new();
    let mut t: usize = 0;
    while t < m
        invariant
            m == live@.len(),
            live@ == l0,
            t <= m,
            across@.len() == t,
            forall|x: int| 0 <= x < t ==> #[trigger] across@[x] == live@[x],
        decreases m - t,
    {
        across.push(live[t]);
        t = t + 1;
    }
    let mut j: usize = 0;
    while j < uses.len()
        invariant
            uses@ == read_ids(*instr),
            m == across@.len(),
            forall|k: int| 0 <= k < uses@.len() ==> #[trigger] uses@[k] < m,
            j <= uses@.len(),
            crate::liveness::bits_set(across@) == live_set.union(uses@.take(j as int).to_set()),
        decreases uses@.len() - j,
    {
        let ghost before = across@;
        across.set(uses[j], true);
        proof {
            let t1 = uses@.take(j as int + 1);
            let t0 = uses@.take(j as int);
            assert(t1 =~= t0.push(uses@[j as int]));
            assert(crate::liveness::bits_set(across@) =~= live_set.union(t1.to_set())) by {
                assert forall|x: usize| crate::liveness::bits_set(across@).contains(x) <==> live_set.union(t1.to_set()).contains(x) by {
                    if x == uses@[j as int] {
                        assert(t1[j as int] == x);
                    } else {
                        assert(crate::liveness::bits_set(across@).contains(x) == crate::liveness::bits_set(before).contains(x));
                        if t1.to_set().contains(x) {
                            let i = choose|i: int| 0 <= i < t1.len() && #[trigger] t1[i] == x;
                            assert(t0[i] == x);
                        }
                        if t0.to_set().contains(x) {
                            let i = choose|i: int| 0 <= i < t0.len() && #[trigger] t0[i] == x;
                            assert(t1[i] == x);
                        }
                    }
                }
            }
        }
        j = j + 1;
    }
    proof {
        assert(uses@.take(uses@.len() as int) =~= uses@);
    }
    let ghost across_v = across@;
    let ghost mut ecur = e;
    // Clobbered registers interfere with what is live across the instruction.
    if clob.len() > 0 {
        let mut t: usize = 0;
        while t < m
            invariant
                m == across@.len(),
                m == nbrs@.len(),
                across@ == across_v,
                clob@ == clobbers_of(*instr),
                d == defined_id(*instr),
                t <= m,
                represents(nbrs@, ecur),
                ecur == e.union(clobber_upto(across_v, d, clob@, t as int)),
            decreases m - t,
        {
            if across[t] && d != Some(t) {
                let mut k: usize = 0;
                while k < clob.len()
                    invariant
                        m == nbrs@.len(),
                        t < m,
                        across_v[t as int],
                        Some(t) != d,
                        k <= clob@.len(),
                        represents(nbrs@, ecur),
                        ecur == e.union(clobber_upto(across_v, d, clob@, t as int)).union(
                            Set::new(|x: (Node, Node)| exists|i: int| 0 <= i < k && x == (Node::Temp(t), Node::Reg(#[trigger] clob@[i]))),
                        ),
                    decreases clob@.len() - k,
                {
                    add_edge(nbrs, Node::Temp(t), Node::Reg(clob[k]), Ghost(ecur));
                    proof {
                        let old_e = ecur;
                        ecur = ecur.insert((Node::Temp(t), Node::Reg(clob@[k as int])));
                        assert(ecur =~= e.union(clobber_upto(across_v, d, clob@, t as int)).union(
                            Set::new(|x: (Node, Node)| exists|i: int| 0 <= i < k + 1 && x == (Node::Temp(t), Node::Reg(#[trigger] clob@[i]))),
                        )) by {
                            assert forall|x: (Node, Node)| #[trigger] ecur.contains(x) <==> e.union(clobber_upto(across_v, d, clob@, t as int)).union(
                                Set::new(|x: (Node, Node)| exists|i: int| 0 <= i < k + 1 && x == (Node::Temp(t), Node::Reg(#[trigger] clob@[i]))),
                            ).contains(x) by {
                                if x == (Node::Temp(t), Node::Reg(clob@[k as int])) {
                                    assert(exists|i: int| 0 <= i < k + 1 && x == (Node::Temp(t), Node::Reg(#[trigger] clob@[i])));
                                }
                            }
                        }
                    }
                    k = k + 1;
                }
                proof {
                    assert(ecur =~= e.union(clobber_upto(across_v, d, clob@, t as int + 1))) by {
                        assert forall|x: (Node, Node)| #[trigger] ecur.contains(x) <==> e.union(clobber_upto(across_v, d, clob@, t as int + 1)).contains(x) by {
                            match x {
                                (Node::Temp(tt), Node::Reg(r)) => {
                                    if tt == t && clob@.contains(r) {
                                        let i = choose|i: int| 0 <= i < clob@.len() && clob@[i] == r;
                                        assert(exists|i2: int| 0 <= i2 < clob@.len() && x == (Node::Temp(t), Node::Reg(#[trigger] clob@[i2])));
                                    }
                                },
                                _ => {},
                            }
                        }
                    }
                }
            } else {
                proof {
                    assert(clobber_upto(across_v, d, clob@, t as int + 1) =~= clobber_upto(across_v, d, clob@, t as int));
                }
            }
            t = t + 1;
        }
    }
    proof {
        let across_set = live_set.union(read_ids(*instr).to_set());
        assert(crate::liveness::bits_set(across_v) == across_set);
        let cp = Set::new(
            |x: (Node, Node)|
                match x {
                    (Node::Temp(t), Node::Reg(r)) => across_set.contains(t) && Some(t) != d && clobbers_of(*instr).contains(r),
                    _ => false,
                },
        );
        if clob@.len() > 0 {
            assert(clobber_upto(across_v, d, clob@, m as int) =~= cp) by {
                assert forall|x: (Node, Node)| clobber_upto(across_v, d, clob@, m as int).contains(x) <==> cp.contains(x) by {
                    match x {
                        (Node::Temp(t), Node::Reg(r)) => {
                            assert(across_set.contains(t) <==> (t < m && across_v[t as int]));
                        },
                        _ => {},
                    }
                }
            }
        } else {
            assert(cp =~= Set::<(Node, Node)>::empty()) by {
                assert forall|x: (Node, Node)| !cp.contains(x) by {
                    match x {
                        (Node::Temp(t), Node::Reg(r)) => {
                            assert(!clob@.contains(r));
                        },
                        _ => {},
                    }
                }
            }
            assert(ecur =~= e.union(cp));
        }
        assert(ecur =~= e.union(cp));
    }
    let ghost e_clob = ecur;
    // What is live after a definition interferes with the defined temporary.
    if let Some(dd) = d {
        let mut t: usize = 0;
        while t < m
            invariant
                m == live@.len(),
                m == nbrs@.len(),
                live@ == l0,
                dd < m,
                d == Some(dd),
                msrc == move_source(*instr),
                t <= m,
                represents(nbrs@, ecur),
                ecur == e_clob.union(defs_upto(l0, dd, msrc, t as int)),
            decreases m - t,
        {
            if live[t] && t != dd && msrc != Some(t) {
                add_edge(nbrs, Node::Temp(t), Node::Temp(dd), Ghost(ecur));
                proof {
                    ecur = ecur.insert((Node::Temp(t), Node::Temp(dd)));
                }
            }
            proof {
                assert(ecur =~= e_clob.union(defs_upto(l0, dd, msrc, t as int + 1)));
            }
            t = t + 1;
        }
    }
    proof {
        let dp = Set::new(
            |x: (Node, Node)|
                match x {
                    (Node::Temp(t), Node::Temp(ddd)) => d == Some(ddd) && live_set.contains(t) && t != ddd && Some(t) != move_source(*instr),
                    _ => false,
                },
        );
        match d {
            Some(dd) => {
                assert(defs_upto(l0, dd, msrc, m as int) =~= dp);
            },
            None => {
                assert(dp =~= Set::<(Node, Node)>::empty());
                assert(ecur =~= e_clob.union(dp));
            },
        }
        assert(ecur =~= e_clob.union(dp));
    }
    let ghost e_def = ecur;
    // A subtraction's right operand interferes with its result.
    if let Instr::BinOp { op: BinOp::Sub, rhs: Operand::Temp(r), dest, .. } = instr {
        if dest.0 != r.0 {
            proof {
                let ops = crate::cfg::operands_of(*instr);
                assert(ops.len() == 2 && ops[1] == Operand::Temp(*r));
                assert(ops.drop_last() =~= seq![ops[0]]);
                let ids = read_ids(*instr);
                assert(ids == temp_ids(seq![ops[0]]) + seq![r.0]);
                assert(ids[ids.len() - 1] == r.0);
            }
            add_edge(nbrs, Node::Temp(r.0), Node::Temp(dest.0), Ghost(ecur));
            proof {
                ecur = ecur.insert((Node::Temp(r.0), Node::Temp(dest.0)));
            }
        }
    }
    proof {
        assert(ecur =~= e.union(pairs_at(*instr, live_set)));
    }
    // What is live before: without the definition, with what is read.
    if let Some(dd) = d {
        live.set(dd, false);
    }
    let ghost l1 = live@;
    let mut j: usize = 0;
    while j < uses.len()
        invariant
            uses@ == read_ids(*instr),
            m == live@.len(),
            forall|k: int| 0 <= k < uses@.len() ==> #[trigger] uses@[k] < m,
            j <= uses@.len(),
            crate::liveness::bits_set(live@) == crate::liveness::bits_set(l1).union(uses@.take(j as int).to_set()),
        decreases uses@.len() - j,
    {
        let ghost before = live@;
        live.set(uses[j], true);
        proof {
            let t1 = uses@.take(j as int + 1);
            let t0 = uses@.take(j as int);
            assert(crate::liveness::bits_set(live@) =~= crate::liveness::bits_set(l1).union(t1.to_set())) by {
                assert forall|x: usize| crate::liveness::bits_set(live@).contains(x) <==> crate::liveness::bits_set(l1).union(t1.to_set()).contains(x) by {
                    if x == uses@[j as int] {
                        assert(t1[j as int] == x);
                    } else {
                        assert(crate::liveness::bits_set(live@).contains(x) == crate::liveness::bits_set(before).contains(x));
                        if t1.to_set().contains(x) {
                            let i = choose|i: int| 0 <= i < t1.len() && #[trigger] t1[i] == x;
                            assert(t0[i] == x);
                        }
                        if t0.to_set().contains(x) {
                            let i = choose|i: int| 0 <= i < t0.len() && #[trigger] t0[i] == x;
                            assert(t1[i] == x);
                        }
                    }
                }
            }
        }
        j = j + 1;
    }
    proof {
        assert(uses@.take(uses@.len() as int) =~= uses@);
        let without = match d {
            Some(dd) => live_set.remove(dd),
            None => live_set,
        };
        assert(crate::liveness::bits_set(l1) =~= without);
        assert(crate::liveness::bits_set(live@) =~= live_before(*instr, live_set));
    }
}

/// All temporaries a block reads or writes are below `m`.
pub open spec fn block_ids_below(blk: BasicBlock, m: nat) -> bool {
    forall|k: int| 0 <= k < run_of(blk).len() ==> (forall|j: int| 0 <= j < read_ids(run_of(blk)[k]).len()
        ==> #[trigger] read_ids(run_of(blk)[k])[j] < m) && (defined_id(#[trigger] run_of(blk)[k]) matches Some(d) ==> d < m)
}

proof fn lemma_walk_step(rev: Seq<Instr>, k: int, live: Set<usize>)
    requires
        0 <= k < rev.len(),
    ensures
        walk_pairs(rev.subrange(k, rev.len() as int), live) == pairs_at(rev[k], live).union(
            walk_pairs(rev.subrange(k + 1, rev.len() as int), live_before(rev[k], live)),
        ),
{
    let sub = rev.subrange(k, rev.len() as int);
    assert(sub[0] == rev[k]);
    assert(sub.drop_first() =~= rev.subrange(k + 1, rev.len() as int));
}

/// Add the interference edges of one block, walking it backwards from what is live on
/// exit from it.
fn build_block(blk: &BasicBlock, live_out: &Vec<usize>, nbrs: &mut Vec<Vec<Node>>, Ghost(e): Ghost<Set<(Node, Node)>>)
    requires
        represents(old(nbrs)@, e),
        block_ids_below(*blk, old(nbrs)@.len()),
        forall|i: int| 0 <= i < live_out@.len() ==> #[trigger] live_out@[i] < old(nbrs)@.len(),
    ensures
        final(nbrs)@.len() == old(nbrs)@.len(),
        represents(final(nbrs)@, e.union(walk_pairs(run_of(*blk).reverse(), live_out@.to_set()))),
{
    let m = nbrs.len();
    let ghost run = run_of(*blk);
    let ghost rev = run.reverse();
    let mut live: Vec<bool> = Vec::new();
    while live.len() < m
        invariant
            live@.len() <= m,
            forall|i: int| 0 <= i < live@.len() ==> !#[trigger] live@[i],
        decreases m - live@.len(),
    {
        live.push(false);
    }
    let mut i: usize = 0;
    while i < live_out.len()
        invariant
            live@.len() == m,
            i <= live_out@.len(),
            forall|k: int| 0 <= k < live_out@.len() ==> #[trigger] live_out@[k] < m,
            crate::liveness::bits_set(live@) == live_out@.take(i as int).to_set(),
        decreases live_out@.len() - i,
    {
        let ghost before = live@;
        live.set(live_out[i], true);
        proof {
            let t1 = live_out@.take(i as int + 1);
            let t0 = live_out@.take(i as int);
            assert(crate::liveness::bits_set(live@) =~= t1.to_set()) by {
                assert forall|x: usize| crate::liveness::bits_set(live@).contains(x) <==> t1.to_set().contains(x) by {
                    if x == live_out@[i as int] {
                        assert(t1[i as int] == x);
                    } else {
                        assert(crate::liveness::bits_set(live@).contains(x) == crate::liveness::bits_set(before).contains(x));
                        if t1.to_set().contains(x) {
                            let k = choose|k: int| 0 <= k < t1.len() && #[trigger] t1[k] == x;
                            assert(t0[k] == x);
                        }
                        if t0.to_set().contains(x) {
                            let k = choose|k: int| 0 <= k < t0.len() && #[trigger] t0[k] == x;
                            assert(t1[k] == x);
                        }
                    }
                }
            }
        }
        i = i + 1;
    }
    proof {
        assert(live_out@.take(live_out@.len() as int) =~= live_out@);
        assert(rev.subrange(0, rev.len() as int) =~= rev);
    }
    let ghost target = e.union(walk_pairs(rev, live_out@.to_set()));
    let ghost mut ecur = e;
    let n = blk.body.len();
    let ghost len = run.len();
    let ghost mut pos: int = 0;
    if let Some(t) = &blk.terminator {
        let ghost lset = crate::liveness::bits_set(live@);
        proof {
            assert(len == n + 1);
            assert(rev[0] == run[n as int]);
            assert(run[n as int] == *t);
            lemma_walk_step(rev, 0, lset);
            assert forall|j: int| 0 <= j < read_ids(*t).len() implies #[trigger] read_ids(*t)[j] < live@.len() by {
                assert(read_ids(run[n as int])[j] < m);
            }
            assert(defined_id(run[n as int]) matches Some(d) ==> d < m);
        }
        process_instruction(t, &mut live, nbrs, Ghost(ecur));
        proof {
            let rest1 = walk_pairs(rev.subrange(1, len as int), crate::liveness::bits_set(live@));
            assert(ecur.union(pairs_at(*t, lset)).union(rest1) =~= ecur.union(walk_pairs(rev.subrange(0, len as int), lset)));
            ecur = ecur.union(pairs_at(*t, lset));
            pos = 1;
        }
    } else {
        proof {
            assert(len == n);
        }
    }
    proof {
        assert(ecur.union(walk_pairs(rev.subrange(pos, len as int), crate::liveness::bits_set(live@))) =~= target);
    }
    let mut j = n;
    while j > 0
        invariant
            run == run_of(*blk),
            rev == run.reverse(),
            len == run.len(),
            n == blk.body@.len(),
            j <= n,
            pos == len - j,
            0 <= pos <= len,
            live@.len() == m,
            m == nbrs@.len(),
            block_ids_below(*blk, m as nat),
            represents(nbrs@, ecur),
            ecur.union(walk_pairs(rev.subrange(pos, len as int), crate::liveness::bits_set(live@))) == target,
        decreases j,
    {
        let ghost lset = crate::liveness::bits_set(live@);
        let instr = &blk.body[j - 1];
        proof {
            assert(run[j - 1] == *instr);
            assert(rev[pos] == run[len - 1 - pos]);
            assert(rev[pos] == *instr);
            lemma_walk_step(rev, pos, lset);
            assert forall|i: int| 0 <= i < read_ids(*instr).len() implies #[trigger] read_ids(*instr)[i] < live@.len() by {
                assert(read_ids(run[j - 1])[i] < m);
            }
            assert(defined_id(run[j - 1]) matches Some(d) ==> d < m);
        }
        process_instruction(instr, &mut live, nbrs, Ghost(ecur));
        proof {
            let rest1 = walk_pairs(rev.subrange(pos + 1, len as int), crate::liveness::bits_set(live@));
            assert(ecur.union(pairs_at(*instr, lset)).union(rest1) =~= ecur.union(walk_pairs(rev.subrange(pos, len as int), lset)));
            ecur = ecur.union(pairs_at(*instr, lset));
            pos = pos + 1;
        }
        j = j - 1;
    }
    proof {
        assert(rev.subrange(len as int, len as int) =~= Seq::<Instr>::empty());
        assert(ecur.union(Set::<(Node, Node)>::empty()) =~= ecur);
        assert(ecur =~= target);
    }
}

/// Every temporary the blocks read or write, and every temporary listed live on exit
/// from a block, is below `m`.
pub open spec fn function_ids_below(s: Seq<Option<BasicBlock>>, outs: Seq<Vec<usize>>, m: nat) -> bool {
    &&& forall|b: int| 0 <= b < s.len() && (#[trigger] s[b]) is Some ==> block_ids_below(s[b]->0, m)
    &&& forall|b: int, i: int| 0 <= b < outs.len() && 0 <= i < outs[b]@.len() ==> #[trigger] outs[b]@[i] < m
}

proof fn lemma_block_ids_mono(blk: BasicBlock, m1: nat, m2: nat)
    requires
        block_ids_below(blk, m1),
        m1 <= m2,
    ensures
        block_ids_below(blk, m2),
{
    assert forall|k: int| 0 <= k < run_of(blk).len() implies (forall|j: int| 0 <= j < read_ids(run_of(blk)[k]).len()
        ==> #[trigger] read_ids(run_of(blk)[k])[j] < m2) && (defined_id(#[trigger] run_of(blk)[k]) matches Some(d) ==> d < m2) by {
        assert forall|j: int| 0 <= j < read_ids(run_of(blk)[k]).len() implies #[trigger] read_ids(run_of(blk)[k])[j] < m2 by {
            assert(read_ids(run_of(blk)[k])[j] < m1);
        }
    }
}

/// A bound above every temporary of a block, at least `m0`.
fn block_ids_bound(blk: &BasicBlock, m0: usize) -> (m: usize)
    requires
        block_ids_below(*blk, usize::MAX as nat),
    ensures
        m >= m0,
        block_ids_below(*blk, m as nat),
{
    let ghost run = run_of(*blk);
    let n = blk.body.len();
    let mut m = m0;
    let mut k: usize = 0;
    while k < n
        invariant
            run == run_of(*blk),
            n == blk.body@.len(),
            k <= n,
            m >= m0,
            block_ids_below(*blk, usize::MAX as nat),
            forall|kk: int| 0 <= kk < k ==> (forall|j: int| 0 <= j < read_ids(run[kk]).len() ==> #[trigger] read_ids(run[kk])[j] < m)
                && (defined_id(#[trigger] run[kk]) matches Some(d) ==> d < m),
        decreases n - k,
    {
        let instr = &blk.body[k];
        proof {
            assert(run[k as int] == *instr);
        }
        let ghost m_before = m;
        let ids = get_uses(instr);
        let mut j: usize = 0;
        while j < ids.len()
            invariant
                ids@ == read_ids(run[k as int]),
                j <= ids@.len(),
                m >= m_before,
                block_ids_below(*blk, usize::MAX as nat),
                run == run_of(*blk),
                k < run.len(),
                forall|jj: int| 0 <= jj < j ==> #[trigger] ids@[jj] < m,
            decreases ids@.len() - j,
        {
            proof {
                assert(read_ids(run[k as int])[j as int] < usize::MAX);
            }
            if ids[j] >= m {
                m = ids[j] + 1;
            }
            j = j + 1;
        }
        if let Some(d) = get_defines(instr) {
            proof {
                assert(defined_id(run[k as int]) matches Some(dd) ==> dd < usize::MAX);
            }
            if d >= m {
                m = d + 1;
            }
        }
        k = k + 1;
    }
    if let Some(t) = &blk.terminator {
        proof {
            assert(run[n as int] == *t);
        }
        let ghost m_before = m;
        let ids = get_uses(t);
        let mut j: usize = 0;
        while j < ids.len()
            invariant
                ids@ == read_ids(run[n as int]),
                j <= ids@.len(),
                m >= m_before,
                block_ids_below(*blk, usize::MAX as nat),
                run == run_of(*blk),
                n < run.len(),
                forall|jj: int| 0 <= jj < j ==> #[trigger] ids@[jj] < m,
            decreases ids@.len() - j,
        {
            proof {
                assert(read_ids(run[n as int])[j as int] < usize::MAX);
            }
            if ids[j] >= m {
                m = ids[j] + 1;
            }
            j = j + 1;
        }
        if let Some(d) = get_defines(t) {
            proof {
                assert(defined_id(run[n as int]) matches Some(dd) ==> dd < usize::MAX);
            }
            if d >= m {
                m = d + 1;
            }
        }
    }
    proof {
        assert forall|kk: int| 0 <= kk < run.len() implies (forall|j: int| 0 <= j < read_ids(run[kk]).len() ==> #[trigger] read_ids(run[kk])[j] < m)
            && (defined_id(#[trigger] run[kk]) matches Some(d) ==> d < m) by {}
    }
    m
}

/// Interference of the temporaries of a function: for each temporary, by id, the nodes
/// (registers and other temporaries) it interferes with, without repetition.
pub struct Interference {
    /// Neighbours of each temporary.
    pub neighbours: Vec<Vec<Node>>,
}

/// Build the interference of a function from what is live on exit from each block
/// (indexed by label number) and its number of parameters.
pub fn build(ctx: &IRContext, live_out: &Vec<Vec<usize>>, params_count: usize) -> (g: Interference)
    requires
        ctx.wf(),
        live_out@.len() == ctx.slots().len(),
        function_ids_below(ctx.slots(), live_out@, usize::MAX as nat),
    ensures
        represents(g.neighbours@, function_pairs(ctx.slots(), list_sets(live_out@), params_count as nat)),
        g.neighbours@.len() >= params_count,
{
    proof { lemma_wf_slots(*ctx); }
    let ghost s = ctx.slots();
    let n = ctx.label_count();
    // A bound above every temporary.
    let mut m = params_count;
    let mut b: usize = 0;
    while b < n
        invariant
            ctx.wf(),
            s == ctx.slots(),
            n == s.len(),
            live_out@.len() == n,
            b <= n,
            m >= params_count,
            function_ids_below(s, live_out@, usize::MAX as nat),
            forall|c: int| 0 <= c < b && (#[trigger] s[c]) is Some ==> block_ids_below(s[c]->0, m as nat),
            forall|c: int, i: int| 0 <= c < b && 0 <= i < live_out@[c]@.len() ==> #[trigger] live_out@[c]@[i] < m,
        decreases n - b,
    {
        let ghost m_before = m;
        if let Some(blk) = ctx.get_block(Label(b)) {
            proof {
                assert(s[b as int]->0 == *blk);
            }
            m = block_ids_bound(blk, m);
        }
        let list = &live_out[b];
        let mut i: usize = 0;
        let ghost m_mid = m;
        while i < list.len()
            invariant
                *list == live_out@[b as int],
                function_ids_below(s, live_out@, usize::MAX as nat),
                b < live_out@.len(),
                i <= list@.len(),
                m >= m_mid,
                forall|k: int| 0 <= k < i ==> #[trigger] list@[k] < m,
            decreases list@.len() - i,
        {
            proof {
                assert(live_out@[b as int]@[i as int] < usize::MAX);
            }
            if list[i] >= m {
                m = list[i] + 1;
            }
            i = i + 1;
        }
        proof {
            assert forall|c: int| 0 <= c < b + 1 && (#[trigger] s[c]) is Some implies block_ids_below(s[c]->0, m as nat) by {
                if c < b {
                    lemma_block_ids_mono(s[c]->0, m_before as nat, m as nat);
                } else {
                    lemma_block_ids_mono(s[c]->0, m_mid as nat, m as nat);
                }
            }
            assert forall|c: int, i: int| 0 <= c < b + 1 && 0 <= i < live_out@[c]@.len() implies #[trigger] live_out@[c]@[i] < m by {
                if c < b {
                    assert(live_out@[c]@[i] < m_before);
                }
            }
        }
        b = b + 1;
    }
    let mut nbrs: Vec<Vec<Node>> = Vec::new();
    while nbrs.len() < m
        invariant
            nbrs@.len() <= m,
            forall|t: int| 0 <= t < nbrs@.len() ==> (#[trigger] nbrs@[t])@.len() == 0,
        decreases m - nbrs@.len(),
    {
        nbrs.push(Vec::new());
    }
    let ghost mut ecur = Set::<(Node, Node)>::empty();
    proof {
        assert forall|t: int| 0 <= t < nbrs@.len() implies (#[trigger] nbrs@[t])@.no_duplicates() by {
            assert(nbrs@[t]@.len() == 0);
        }
        assert forall|t: int, v: Node| 0 <= t < nbrs@.len() implies (#[trigger] nbrs@[t]@.contains(v) <==> neighbours(ecur, Node::Temp(t as usize)).contains(v)) by {
            assert(nbrs@[t]@.len() == 0);
        }
    }
    let ghost outs = list_sets(live_out@);
    let mut b: usize = 0;
    while b < n
        invariant
            ctx.wf(),
            s == ctx.slots(),
            n == s.len(),
            live_out@.len() == n,
            outs == list_sets(live_out@),
            b <= n,
            nbrs@.len() == m,
            forall|c: int| 0 <= c < n && (#[trigger] s[c]) is Some ==> block_ids_below(s[c]->0, m as nat),
            forall|c: int, i: int| 0 <= c < n && 0 <= i < live_out@[c]@.len() ==> #[trigger] live_out@[c]@[i] < m,
            represents(nbrs@, ecur),
            ecur == Set::new(|e: (Node, Node)| exists|c: int| 0 <= c < b && s[c] is Some && #[trigger] walk_pairs(run_of(s[c]->0).reverse(), outs[c]).contains(e)),
        decreases n - b,
    {
        if let Some(blk) = ctx.get_block(Label(b)) {
            proof {
                assert(s[b as int]->0 == *blk);
            }
            build_block(blk, &live_out[b], &mut nbrs, Ghost(ecur));
            proof {
                let added = walk_pairs(run_of(*blk).reverse(), live_out@[b as int]@.to_set());
                assert(outs[b as int] == live_out@[b as int]@.to_set());
                let next = Set::new(|e: (Node, Node)| exists|c: int| 0 <= c < b + 1 && s[c] is Some && #[trigger] walk_pairs(run_of(s[c]->0).reverse(), outs[c]).contains(e));
                assert(ecur.union(added) =~= next) by {
                    assert forall|e: (Node, Node)| ecur.union(added).contains(e) <==> next.contains(e) by {
                        if added.contains(e) {
                            assert(walk_pairs(run_of(s[b as int]->0).reverse(), outs[b as int]).contains(e));
                        }
                        if next.contains(e) {
                            let c = choose|c: int| 0 <= c < b + 1 && s[c] is Some && #[trigger] walk_pairs(run_of(s[c]->0).reverse(), outs[c]).contains(e);
                            if c < b {
                                assert(ecur.contains(e));
                            }
                        }
                    }
                }
                ecur = next;
            }
        } else {
            proof {
                let next = Set::new(|e: (Node, Node)| exists|c: int| 0 <= c < b + 1 && s[c] is Some && #[trigger] walk_pairs(run_of(s[c]->0).reverse(), outs[c]).contains(e));
                assert(ecur =~= next) by {
                    assert forall|e: (Node, Node)| ecur.contains(e) <==> next.contains(e) by {
                        if next.contains(e) {
                            let c = choose|c: int| 0 <= c < b + 1 && s[c] is Some && #[trigger] walk_pairs(run_of(s[c]->0).reverse(), outs[c]).contains(e);
                            assert(c != b);
                        }
                    }
                }
            }
        }
        b = b + 1;
    }
    let ghost blocks_e = ecur;
    // Parameters interfere with one another and with the argument registers after theirs.
    let arg_regs = vec![X86Reg::Rdi, X86Reg::Rsi, X86Reg::Rdx, X86Reg::Rcx, X86Reg::R8, X86Reg::R9];
    proof {
        assert(arg_regs@ =~= argument_registers());
    }
    let mut i: usize = 0;
    while i < params_count
        invariant
            nbrs@.len() == m,
            params_count <= m,
            i <= params_count,
            arg_regs@ == argument_registers(),
            represents(nbrs@, ecur),
            ecur == blocks_e.union(Set::new(|e: (Node, Node)| param_pairs(params_count as nat).contains(e) && match e.0 {
                Node::Temp(x) => x < i,
                Node::Reg(_) => false,
            })),
        decreases params_count - i,
    {
        let mut j = i + 1;
        while j < params_count
            invariant
                nbrs@.len() == m,
                params_count <= m,
                i < params_count,
                i + 1 <= j <= params_count,
                represents(nbrs@, ecur),
                ecur == blocks_e.union(Set::new(|e: (Node, Node)| param_pairs(params_count as nat).contains(e) && match e.0 {
                    Node::Temp(x) => x < i || (x == i && match e.1 {
                        Node::Temp(y) => y < j,
                        Node::Reg(_) => false,
                    }),
                    Node::Reg(_) => false,
                })),
            decreases params_count - j,
        {
            add_edge(&mut nbrs, Node::Temp(i), Node::Temp(j), Ghost(ecur));
            proof {
                let old_e = ecur;
                ecur = ecur.insert((Node::Temp(i), Node::Temp(j)));
                assert(ecur =~= blocks_e.union(Set::new(|e: (Node, Node)| param_pairs(params_count as nat).contains(e) && match e.0 {
                    Node::Temp(x) => x < i || (x == i && match e.1 {
                        Node::Temp(y) => y < j + 1,
                        Node::Reg(_) => false,
                    }),
                    Node::Reg(_) => false,
                })));
            }
            j = j + 1;
        }
        if i < 6 {
            let mut k = i + 1;
            while k < 6
                invariant
                    nbrs@.len() == m,
                    params_count <= m,
                    i < params_count,
                    i < 6,
                    i + 1 <= k <= 6,
                    arg_regs@ == argument_registers(),
                    represents(nbrs@, ecur),
                    ecur == blocks_e.union(Set::new(|e: (Node, Node)| param_pairs(params_count as nat).contains(e) && match e.0 {
                        Node::Temp(x) => x < i || (x == i && match e.1 {
                            Node::Temp(_) => true,
                            Node::Reg(r) => argument_registers().index_of(r) < k,
                        }),
                        Node::Reg(_) => false,
                    })),
                decreases 6 - k,
            {
                add_edge(&mut nbrs, Node::Temp(i), Node::Reg(arg_regs[k]), Ghost(ecur));
                proof {
                    let r = argument_registers()[k as int];
                    assert(argument_registers().contains(r));
                    assert(argument_registers().index_of(r) == k) by {
                        argument_registers().index_of_first_ensures(r);
                    }
                    ecur = ecur.insert((Node::Temp(i), Node::Reg(r)));
                    assert(ecur =~= blocks_e.union(Set::new(|e: (Node, Node)| param_pairs(params_count as nat).contains(e) && match e.0 {
                        Node::Temp(x) => x < i || (x == i && match e.1 {
                            Node::Temp(_) => true,
                            Node::Reg(rr) => argument_registers().index_of(rr) < k + 1,
                        }),
                        Node::Reg(_) => false,
                    })));
                }
                k = k + 1;
            }
        }
        proof {
            assert(ecur =~= blocks_e.union(Set::new(|e: (Node, Node)| param_pairs(params_count as nat).contains(e) && match e.0 {
                Node::Temp(x) => x < i + 1,
                Node::Reg(_) => false,
            })));
        }
        i = i + 1;
    }
    proof {
        assert(ecur =~= function_pairs(s, outs, params_count as nat));
    }
    Interference { neighbours: nbrs }
}


/// The temporary an operand names, if any.
pub open spec fn op_temps(op: Operand) -> Seq<Temp> {
    match op {
        Operand::Temp(t) => seq![t],
        Operand::Const(_) => Seq::<Temp>::empty(),
    }
}

/// The temporaries a list of operands names, in order.
pub open spec fn ops_temps(ops: Seq<Operand>) -> Seq<Temp>
    decreases ops.len(),
{
    if ops.len() == 0 {
        Seq::<Temp>::empty()
    } else {
        ops_temps(ops.drop_last()) + op_temps(ops.last())
    }
}

/// The temporaries the sources of a phi name, in order.
pub open spec fn srcs_temps(srcs: Seq<(Label, Operand)>) -> Seq<Temp>
    decreases srcs.len(),
{
    if srcs.len() == 0 {
        Seq::<Temp>::empty()
    } else {
        srcs_temps(srcs.drop_last()) + op_temps(srcs.last().1)
    }
}

/// The temporaries an instruction names, in the order they are visited: its
/// destination first, then its operands.
pub open spec fn named_temps(instr: Instr) -> Seq<Temp> {
    match instr {
        Instr::BinOp { dest, lhs, rhs, .. } => seq![dest] + op_temps(lhs) + op_temps(rhs),
        Instr::UnOp { dest, src, .. } => seq![dest] + op_temps(src),
        Instr::Move { dest, src } => seq![dest] + op_temps(src),
        Instr::Load { dest, addr } => seq![dest] + op_temps(addr),
        Instr::Store { addr, src } => op_temps(addr) + op_temps(src),
        Instr::Alloc { dest, size } => seq![dest] + op_temps(size),
        Instr::AllocArray { dest, size, count } => seq![dest] + op_temps(size) + op_temps(count),
        Instr::Call { dest, args, .. } => match dest {
            Some(d) => seq![d] + ops_temps(args@),
            None => ops_temps(args@),
        },
        Instr::TailCall { args, .. } => ops_temps(args@),
        Instr::Return(Some(op)) => op_temps(op),
        Instr::JumpIf { pred, .. } => op_temps(pred),
        Instr::Phi { dest, srcs } => seq![dest] + srcs_temps(srcs@),
        _ => Seq::<Temp>::empty(),
    }
}

/// The type table after the temporaries `temps` are visited: each keeps the type it was
/// first seen with.
pub open spec fn first_types(types: Map<usize, Typ>, temps: Seq<Temp>) -> Map<usize, Typ>
    decreases temps.len(),
{
    if temps.len() == 0 {
        types
    } else {
        let m = first_types(types, temps.drop_last());
        if m.contains_key(temps.last().0) {
            m
        } else {
            m.insert(temps.last().0, temps.last().1)
        }
    }
}

proof fn lemma_first_types_append(types: Map<usize, Typ>, a: Seq<Temp>, b: Seq<Temp>)
    ensures
        first_types(types, a + b) == first_types(first_types(types, a), b),
    decreases b.len(),
{
    if b.len() == 0 {
        assert(a + b =~= a);
    } else {
        lemma_first_types_append(types, a, b.drop_last());
        assert((a + b).drop_last() =~= a + b.drop_last());
    }
}

/// Record the type of a temporary unless it already has one.
fn record_temp(types: &mut HashMap<usize, Typ>, t: &Temp)
    ensures
        final(types)@ == first_types(old(types)@, seq![*t]),
{
    let ghost t0 = types@;
    assert(seq![*t].drop_last() =~= Seq::<Temp>::empty());
    assert(first_types(t0, Seq::<Temp>::empty()) == t0);
    if !types.contains_key(&t.0) {
        types.insert(t.0, t.1.duplicate());
    }
}

/// Record the type of the temporary an operand names.
fn record_operand(types: &mut HashMap<usize, Typ>, op: &Operand)
    ensures
        final(types)@ == first_types(old(types)@, op_temps(*op)),
{
    match op {
        Operand::Temp(t) => record_temp(types, t),
        Operand::Const(_) => {},
    }
}

/// Record the types of the temporaries a list of operands names.
fn record_operands(types: &mut HashMap<usize, Typ>, ops: &Vec<Operand>)
    ensures
        final(types)@ == first_types(old(types)@, ops_temps(ops@)),
{
    let ghost t0 = types@;
    let mut i: usize = 0;
    proof {
        assert(ops@.take(0) =~= Seq::<Operand>::empty());
    }
    while i < ops.len()
        invariant
            i <= ops@.len(),
            types@ == first_types(t0, ops_temps(ops@.take(i as int))),
        decreases ops@.len() - i,
    {
        proof {
            assert(ops@.take(i + 1).drop_last() =~= ops@.take(i as int));
            lemma_first_types_append(t0, ops_temps(ops@.take(i as int)), op_temps(ops@[i as int]));
        }
        record_operand(types, &ops[i]);
        i = i + 1;
    }
    proof {
        assert(ops@.take(ops@.len() as int) =~= ops@);
    }
}

/// Record the type of each temporary an instruction names that has none yet.
pub fn get_temp_types(instr: &Instr, temp_types: &mut HashMap<usize, Typ>)
    ensures
        final(temp_types)@ == first_types(old(temp_types)@, named_temps(*instr)),
{
    let ghost t0 = temp_types@;
    match instr {
        Instr::BinOp { dest, lhs, rhs, .. } => {
            record_temp(temp_types, dest);
            record_operand(temp_types, lhs);
            record_operand(temp_types, rhs);
            proof {
                lemma_first_types_append(t0, seq![*dest], op_temps(*lhs));
                lemma_first_types_append(t0, seq![*dest] + op_temps(*lhs), op_temps(*rhs));
            }
        },
        Instr::UnOp { dest, src, .. } => {
            record_temp(temp_types, dest);
            record_operand(temp_types, src);
            proof {
                lemma_first_types_append(t0, seq![*dest], op_temps(*src));
            }
        },
        Instr::Move { dest, src } => {
            record_temp(temp_types, dest);
            record_operand(temp_types, src);
            proof {
                lemma_first_types_append(t0, seq![*dest], op_temps(*src));
            }
        },
        Instr::Load { dest, addr } => {
            record_temp(temp_types, dest);
            record_operand(temp_types, addr);
            proof {
                lemma_first_types_append(t0, seq![*dest], op_temps(*addr));
            }
        },
        Instr::Store { addr, src } => {
            record_operand(temp_types, addr);
            record_operand(temp_types, src);
            proof {
                lemma_first_types_append(t0, op_temps(*addr), op_temps(*src));
            }
        },
        Instr::Alloc { dest, size } => {
            record_temp(temp_types, dest);
            record_operand(temp_types, size);
            proof {
                lemma_first_types_append(t0, seq![*dest], op_temps(*size));
            }
        },
        Instr::AllocArray { dest, size, count } => {
            record_temp(temp_types, dest);
            record_operand(temp_types, size);
            record_operand(temp_types, count);
            proof {
                lemma_first_types_append(t0, seq![*dest], op_temps(*size));
                lemma_first_types_append(t0, seq![*dest] + op_temps(*size), op_temps(*count));
            }
        },
        Instr::Call { dest, args, .. } => {
            match dest {
                Some(d) => {
                    record_temp(temp_types, d);
                    proof {
                        lemma_first_types_append(t0, seq![*d], ops_temps(args@));
                    }
                },
                None => {
                    assert(first_types(t0, Seq::<Temp>::empty()) == t0);
                },
            }
            record_operands(temp_types, args);
        },
        Instr::TailCall { args, .. } => record_operands(temp_types, args),
        Instr::Return(Some(op)) => record_operand(temp_types, op),
        Instr::JumpIf { pred, .. } => record_operand(temp_types, pred),
        Instr::Phi { dest, srcs } => {
            record_temp(temp_types, dest);
            let ghost t1 = temp_types@;
            let mut i: usize = 0;
            proof {
                assert(srcs@.take(0) =~= Seq::<(Label, Operand)>::empty());
            }
            while i < srcs.len()
                invariant
                    i <= srcs@.len(),
                    temp_types@ == first_types(t1, srcs_temps(srcs@.take(i as int))),
                decreases srcs@.len() - i,
            {
                proof {
                    assert(srcs@.take(i + 1).drop_last() =~= srcs@.take(i as int));
                    lemma_first_types_append(t1, srcs_temps(srcs@.take(i as int)), op_temps(srcs@[i as int].1));
                }
                record_operand(temp_types, &srcs[i].1);
                i = i + 1;
            }
            proof {
                assert(srcs@.take(srcs@.len() as int) =~= srcs@);
                lemma_first_types_append(t0, seq![*dest], srcs_temps(srcs@));
            }
        },
        _ => {},
    }
}

} // verus!
