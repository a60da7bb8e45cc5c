//! Stack slots for spilled temporaries: temporaries that interfere never share a slot.
use vstd::prelude::*;
use vstd::set_lib::{lemma_int_range, lemma_len_subset, set_int_range};

use crate::interference::{block_ids_below, build, function_ids_below, function_pairs, neighbours, represents, Node};
use crate::ir::{lemma_wf_slots, BasicBlock, IRContext, Instr};
use crate::liveness::{
    analyze_liveness, below_every_cover, covers_liveness, exposed, gen_of, is_liveness, kill_of, list_sets,
    live_in_of, live_out_of, read_ids, reads_below, run_of,
};
use crate::regalloc::{Color, SPILL};
use crate::x86asm::{StackVar, Width};

verus! {

/// Every temporary read somewhere in the function.
pub open spec fn all_reads(s: Seq<Option<BasicBlock>>) -> Set<usize> {
    Set::new(
        |x: usize|
            exists|b: int, k: int, j: int|
                0 <= b < s.len() && s[b] is Some && 0 <= k < run_of(s[b]->0).len() && 0 <= j < read_ids(
                    run_of(s[b]->0)[k],
                ).len() && #[trigger] read_ids(run_of(s[b]->0)[k])[j] == x,
    )
}

proof fn lemma_exposed_reads(is: Seq<Instr>, x: usize)
    requires
        exposed(is).0.contains(x),
    ensures
        exists|k: int, j: int| 0 <= k < is.len() && 0 <= j < read_ids(is[k]).len() && #[trigger] read_ids(is[k])[j] == x,
    decreases is.len(),
{
    let init = is.drop_last();
    if exposed(init).0.contains(x) {
        lemma_exposed_reads(init, x);
        let (k, j) = choose|k: int, j: int| 0 <= k < init.len() && 0 <= j < read_ids(init[k]).len() && #[trigger] read_ids(init[k])[j] == x;
        assert(is[k] == init[k]);
        assert(read_ids(is[k])[j] == x);
    } else {
        let ids = read_ids(is.last());
        assert(ids.to_set().contains(x));
        let j = choose|j: int| 0 <= j < ids.len() && ids[j] == x;
        assert(read_ids(is[is.len() - 1])[j] == x);
    }
}

/// What is live on exit from a block of the least solution is read somewhere.
proof fn lemma_live_are_reads(s: Seq<Option<BasicBlock>>, ins: Seq<Set<usize>>, outs: Seq<Set<usize>>)
    requires
        is_liveness(s, ins, outs),
        below_every_cover(s, ins, outs),
    ensures
        forall|b: int| 0 <= b < s.len() ==> (#[trigger] outs[b]).subset_of(all_reads(s)),
{
    let u = all_reads(s);
    let us = Seq::new(s.len(), |i: int| u);
    assert forall|b: int| 0 <= b < s.len() implies live_in_of(s, us, b).subset_of(#[trigger] us[b]) && live_out_of(s, us, b).subset_of(us[b]) by {
        if let Some(blk) = s[b] {
            assert forall|x: usize| gen_of(blk).contains(x) implies u.contains(x) by {
                lemma_exposed_reads(run_of(blk), x);
                let (k, j) = choose|k: int, j: int| 0 <= k < run_of(blk).len() && 0 <= j < read_ids(run_of(blk)[k]).len() && #[trigger] read_ids(run_of(blk)[k])[j] == x;
                assert(read_ids(run_of(s[b]->0)[k])[j] == x);
            }
        }
    }
    assert(covers_liveness(s, us, us));
}

/// A temporary is spilled and owns a stack slot: it is coloured for spilling and is not a
/// parameter passed on the stack.
pub open spec fn gets_slot(coloring: Seq<Color>, params_count: nat, t: usize) -> bool {
    t < coloring.len() && coloring[t as int] == SPILL && (t < 6 || t >= params_count)
}

/// Number of nodes a temporary interferes with.
pub open spec fn degree(g: Seq<Vec<Node>>, t: usize) -> nat {
    if t < g.len() {
        g[t as int]@.len()
    } else {
        0
    }
}

/// `a` comes before `b` in the order of slot assignment: higher degree first, then
/// lower id.
pub open spec fn assigned_before(g: Seq<Vec<Node>>, a: usize, b: usize) -> bool {
    degree(g, a) > degree(g, b) || (degree(g, a) == degree(g, b) && a < b)
}

/// The least natural number not in a set.
pub open spec fn least_free(used: Set<nat>, v: nat) -> bool {
    !used.contains(v) && forall|w: nat| w < v ==> used.contains(w)
}

/// Two temporaries interfere in the graph.
pub open spec fn interferes(g: Seq<Vec<Node>>, a: usize, b: usize) -> bool {
    a < g.len() && g[a as int]@.contains(Node::Temp(b))
}

/// Slots taken by the temporaries before position `k` that interfere with `order[k]`.
pub open spec fn taken_slots(g: Seq<Vec<Node>>, order: Seq<usize>, slots: Seq<nat>, k: int) -> Set<nat> {
    Set::new(|v: nat| exists|i: int| 0 <= i < k && interferes(g, order[k], order[i]) && #[trigger] slots[i] == v)
}

/// If a list holds every number below `k`, it has at least `k` entries.
proof fn lemma_pigeonhole(used: Seq<usize>, k: nat)
    requires
        forall|v: usize| v < k ==> #[trigger] used.contains(v),
        k <= usize::MAX + 1,
    ensures
        k <= used.len(),
{
    let ints = used.map_values(|x: usize| x as int);
    let range = set_int_range(0, k as int);
    lemma_int_range(0, k as int);
    assert forall|i: int| range.contains(i) implies ints.to_set().contains(i) by {
        let v = i as usize;
        assert(used.contains(v));
        let j = choose|j: int| 0 <= j < used.len() && used[j] == v;
        assert(ints[j] == i);
    }
    ints.lemma_cardinality_of_set();
    lemma_len_subset(range, ints.to_set());
}

/// A list without repetition of numbers below `n` has at most `n` entries.
proof fn lemma_distinct_below(v: Seq<usize>, n: nat)
    requires
        v.no_duplicates(),
        forall|i: int| 0 <= i < v.len() ==> #[trigger] v[i] < n,
    ensures
        v.len() <= n,
{
    let ints = v.map_values(|x: usize| x as int);
    assert(ints.no_duplicates()) by {
        assert forall|i: int, j: int| 0 <= i < ints.len() && 0 <= j < ints.len() && i != j implies ints[i] != ints[j] by {
            assert(v[i] != v[j]);
        }
    }
    ints.unique_seq_to_set();
    lemma_int_range(0, n as int);
    assert forall|x: int| ints.to_set().contains(x) implies set_int_range(0, n as int).contains(x) by {
        let i = choose|i: int| 0 <= i < ints.len() && ints[i] == x;
        assert(v[i] < n);
    }
    lemma_len_subset(ints.to_set(), set_int_range(0, n as int));
}

/// The least number not in a list.
fn least_unused(used: &Vec<usize>) -> (r: usize)
    ensures
        r <= used@.len(),
        !used@.contains(r),
        forall|w: usize| w < r ==> used@.contains(w),
{
    let mut slot: usize = 0;
    loop
        invariant
            slot <= used@.len(),
            forall|w: usize| w < slot ==> used@.contains(w),
        decreases used@.len() - slot,
    {
        let mut i: usize = 0;
        let mut found = false;
        while i < used.len()
            invariant
                i <= used@.len(),
                found == exists|j: int| 0 <= j < i && used@[j] == slot,
            decreases used@.len() - i,
        {
            if used[i] == slot {
                found = true;
            }
            i = i + 1;
        }
        if !found {
            return slot;
        }
        proof {
            assert forall|v: usize| v < slot + 1 implies #[trigger] used@.contains(v) by {
                if v < slot {
                    assert(used@.contains(v));
                } else {
                    let j = choose|j: int| 0 <= j < used@.len() && used@[j] == slot;
                    assert(used@[j] == v);
                }
            }
            lemma_pigeonhole(used@, (slot + 1) as nat);
        }
        slot = slot + 1;
    }
}

proof fn lemma_before_total(g: Seq<Vec<Node>>, a: usize, b: usize)
    requires
        a != b,
    ensures
        assigned_before(g, a, b) || assigned_before(g, b, a),
        !(assigned_before(g, a, b) && assigned_before(g, b, a)),
{
}

/// The temporaries that get a slot, ordered for assignment (higher degree first, then
/// lower id).
fn spill_order(g: &Vec<Vec<Node>>, coloring: &Vec<Color>, params_count: usize) -> (order: Vec<usize>)
    ensures
        order@.no_duplicates(),
        forall|t: usize| #[trigger] order@.contains(t) <==> gets_slot(coloring@, params_count as nat, t),
        forall|i: int, j: int| 0 <= i < j < order@.len() ==> assigned_before(g@, #[trigger] order@[i], #[trigger] order@[j]),
{
    let mut order: Vec<usize> = Vec::new();
    let mut t: usize = 0;
    while t < coloring.len()
        invariant
            t <= coloring@.len(),
            forall|x: usize| #[trigger] order@.contains(x) <==> (x < t && gets_slot(coloring@, params_count as nat, x)),
            forall|i: int, j: int| 0 <= i < j < order@.len() ==> assigned_before(g@, #[trigger] order@[i], #[trigger] order@[j]),
        decreases coloring@.len() - t,
    {
        if coloring[t] == SPILL && (t < 6 || t >= params_count) {
            let deg_t = if t < g.len() { g[t].len() } else { 0 };
            // First position whose temporary comes after t.
            let mut p: usize = 0;
            while p < order.len()
                invariant
                    p <= order@.len(),
                    deg_t == degree(g@, t),
                    forall|i: int| 0 <= i < p ==> !assigned_before(g@, t, #[trigger] order@[i]),
                ensures
                    p <= order@.len(),
                    forall|i: int| 0 <= i < p ==> !assigned_before(g@, t, #[trigger] order@[i]),
                    p < order@.len() ==> assigned_before(g@, t, order@[p as int]),
                decreases order@.len() - p,
            {
                let x = order[p];
                let deg_x = if x < g.len() { g[x].len() } else { 0 };
                if deg_t > deg_x || (deg_t == deg_x && t < x) {
                    break;
                }
                p = p + 1;
            }
            let ghost before = order@;
            proof {
                assert forall|i: int| p <= i < before.len() implies assigned_before(g@, t, #[trigger] before[i]) by {
                    assert(assigned_before(g@, t, before[p as int]));
                    if i > p {
                        assert(assigned_before(g@, before[p as int], before[i]));
                    }
                }
                assert forall|i: int| 0 <= i < p implies assigned_before(g@, #[trigger] before[i], t) by {
                    assert(before.contains(before[i]));
                    assert(before[i] < t);
                    lemma_before_total(g@, before[i], t);
                }
            }
            order.insert(p, t);
            proof {
                assert forall|i: int, j: int| 0 <= i < j < order@.len() implies assigned_before(g@, #[trigger] order@[i], #[trigger] order@[j]) by {
                    if j < p {
                        assert(order@[i] == before[i] && order@[j] == before[j]);
                    } else if j == p {
                        assert(order@[i] == before[i]);
                    } else if i < p {
                        assert(order@[i] == before[i] && order@[j] == before[j - 1]);
                        assert(assigned_before(g@, before[i], t));
                        assert(assigned_before(g@, t, before[j - 1]));
                    } else if i == p {
                        assert(order@[j] == before[j - 1]);
                    } else {
                        assert(order@[i] == before[i - 1] && order@[j] == before[j - 1]);
                    }
                }
                assert forall|x: usize| #[trigger] order@.contains(x) <==> (x < t + 1 && gets_slot(coloring@, params_count as nat, x)) by {
                    if x == t {
                        assert(order@[p as int] == t);
                    }
                    if order@.contains(x) && x != t {
                        let i = choose|i: int| 0 <= i < order@.len() && order@[i] == x;
                        if i < p {
                            assert(before[i] == x);
                        } else {
                            assert(before[i - 1] == x);
                        }
                        assert(before.contains(x));
                    }
                    if x < t && gets_slot(coloring@, params_count as nat, x) {
                        assert(before.contains(x));
                        let i = choose|i: int| 0 <= i < before.len() && before[i] == x;
                        if i < p {
                            assert(order@[i] == x);
                        } else {
                            assert(order@[i + 1] == x);
                        }
                    }
                }
            }
        }
        t = t + 1;
    }
    proof {
        assert forall|i: int, j: int| 0 <= i < order@.len() && 0 <= j < order@.len() && i != j implies order@[i] != order@[j] by {
            if i < j {
                assert(assigned_before(g@, order@[i], order@[j]));
            } else {
                assert(assigned_before(g@, order@[j], order@[i]));
            }
        }
    }
    order
}

/// `order` lists, without repetition, the temporaries that get a slot, in the order of
/// assignment.
pub open spec fn spill_order_ok(g: Seq<Vec<Node>>, coloring: Seq<Color>, params_count: nat, order: Seq<usize>) -> bool {
    &&& order.no_duplicates()
    &&& forall|t: usize| #[trigger] order.contains(t) <==> gets_slot(coloring, params_count, t)
    &&& forall|i: int, j: int| 0 <= i < j < order.len() ==> assigned_before(g, #[trigger] order[i], #[trigger] order[j])
}

/// Each temporary of `order` gets the least slot that no interfering temporary before
/// it has.
pub open spec fn greedy_slots(g: Seq<Vec<Node>>, order: Seq<usize>, slots: Seq<nat>) -> bool {
    &&& slots.len() == order.len()
    &&& forall|k: int| 0 <= k < order.len() ==> least_free(taken_slots(g, order, slots, k), #[trigger] slots[k])
}

/// Number of slots used: one more than the largest, or zero.
pub open spec fn slot_count(slots: Seq<nat>) -> nat
    decreases slots.len(),
{
    if slots.len() == 0 {
        0
    } else {
        let c = slot_count(slots.drop_last());
        if slots.last() + 1 > c { slots.last() + 1 } else { c }
    }
}

/// The stack slot of a slot number.
pub open spec fn slot_var(slot: nat) -> StackVar {
    StackVar { offset: (slot * 8) as i64, width: Width::W64 }
}

/// `r` is the slot assignment for graph `g`: each temporary that gets a slot, in the
/// order of assignment, with its stack slot; and the number of slots.
pub open spec fn is_slot_assignment(g: Seq<Vec<Node>>, coloring: Seq<Color>, params_count: nat, r: (Seq<(usize, StackVar)>, nat)) -> bool {
    exists|order: Seq<usize>, slots: Seq<nat>| {
        &&& spill_order_ok(g, coloring, params_count, order)
        &&& greedy_slots(g, order, slots)
        &&& r.0.len() == order.len()
        &&& forall|k: int| 0 <= k < order.len() ==> #[trigger] r.0[k] == (order[k], slot_var(slots[k]))
        &&& r.1 == slot_count(slots)
    }
}

/// Duplicate-free neighbour lists in which interference between temporaries is
/// symmetric.
pub open spec fn symmetric_graph(g: Seq<Vec<Node>>) -> bool {
    &&& forall|t: int| 0 <= t < g.len() ==> (#[trigger] g[t])@.no_duplicates()
    &&& forall|a: usize, b: usize| a < g.len() && #[trigger] g[a as int]@.contains(Node::Temp(b)) ==> b < g.len() && g[b as int]@.contains(Node::Temp(a))
}

/// Assign stack slots to the temporaries that are coloured for spilling (but parameters
/// passed on the stack), by decreasing degree, each taking the least slot that no
/// interfering temporary already has. Returns each such temporary with its stack slot,
/// in the order of assignment, and the number of slots.
pub fn assign_spill_slots(g: &Vec<Vec<Node>>, coloring: &Vec<Color>, params_count: usize) -> (r: (Vec<(usize, StackVar)>, usize))
    requires
        symmetric_graph(g@),
        coloring@.len() < 0x1000_0000_0000_0000,
    ensures
        is_slot_assignment(g@, coloring@, params_count as nat, (r.0@, r.1 as nat)),
        forall|k1: int, k2: int| 0 <= k1 < r.0@.len() && 0 <= k2 < r.0@.len() && k1 != k2
            && interferes(g@, #[trigger] r.0@[k1].0, #[trigger] r.0@[k2].0) ==> r.0@[k1].1 != r.0@[k2].1,
{
    let order = spill_order(g, coloring, params_count);
    let n = coloring.len();
    proof {
        assert forall|i: int| 0 <= i < order@.len() implies #[trigger] order@[i] < n by {
            assert(order@.contains(order@[i]));
        }
        lemma_distinct_below(order@, n as nat);
    }
    let mut slot_of: Vec<Option<usize>> = Vec::new();
    while slot_of.len() < n
        invariant
            slot_of@.len() <= n,
            forall|x: int| 0 <= x < slot_of@.len() ==> #[trigger] slot_of@[x] is None,
        decreases n - slot_of@.len(),
    {
        slot_of.push(None);
    }
    let ghost mut slots: Seq<nat> = Seq::empty();
    let mut alloc: Vec<(usize, StackVar)> = Vec::new();
    let mut count: usize = 0;
    let mut k: usize = 0;
    while k < order.len()
        invariant
            symmetric_graph(g@),
            spill_order_ok(g@, coloring@, params_count as nat, order@),
            n == coloring@.len(),
            n < 0x1000_0000_0000_0000,
            order@.len() <= n,
            slot_of@.len() == n,
            k <= order@.len(),
            slots.len() == k,
            forall|i: int| 0 <= i < k ==> least_free(taken_slots(g@, order@, slots, i), #[trigger] slots[i]),
            forall|i: int| 0 <= i < k ==> #[trigger] slots[i] <= i,
            forall|x: int| 0 <= x < n ==> (#[trigger] slot_of@[x] is Some <==> exists|i: int| 0 <= i < k && order@[i] == x),
            forall|i: int| 0 <= i < k ==> slot_of@[#[trigger] order@[i] as int] == Some(slots[i] as usize),
            alloc@.len() == k,
            forall|i: int| 0 <= i < k ==> #[trigger] alloc@[i] == (order@[i], slot_var(slots[i])),
            count == slot_count(slots),
        decreases order@.len() - k,
    {
        let t = order[k];
        proof {
            assert(order@.contains(t));
            assert(t < n);
        }
        // Slots of the interfering temporaries assigned before.
        let mut used: Vec<usize> = Vec::new();
        if t < g.len() {
            let list = &g[t];
            let mut j: usize = 0;
            while j < list.len()
                invariant
                    *list == g@[t as int],
                    t < g@.len(),
                    j <= list@.len(),
                    slot_of@.len() == n,
                    n == coloring@.len(),
                    spill_order_ok(g@, coloring@, params_count as nat, order@),
                    k < order@.len(),
                    order@[k as int] == t,
                    slots.len() == k,
                    forall|i: int| 0 <= i < k ==> #[trigger] slots[i] <= i,
                    k < n,
                    forall|x: int| 0 <= x < n ==> (#[trigger] slot_of@[x] is Some <==> exists|i: int| 0 <= i < k && order@[i] == x),
                    forall|i: int| 0 <= i < k ==> slot_of@[#[trigger] order@[i] as int] == Some(slots[i] as usize),
                    forall|v: usize| #[trigger] used@.contains(v) ==> exists|i: int| 0 <= i < k && slots[i] == v && list@.contains(Node::Temp(order@[i])),
                    forall|i: int| 0 <= i < k && (exists|jj: int| 0 <= jj < j && list@[jj] == Node::Temp(#[trigger] order@[i])) ==> used@.contains(slots[i] as usize),
                decreases list@.len() - j,
            {
                if let Node::Temp(nid) = list[j] {
                    if nid < slot_of.len() {
                        if let Some(sl) = slot_of[nid] {
                            let ghost before = used@;
                            used.push(sl);
                            proof {
                                assert(slot_of@[nid as int] is Some);
                                let i = choose|i: int| 0 <= i < k && order@[i] == nid;
                                assert(slot_of@[order@[i] as int] == Some(slots[i] as usize));
                                assert(slots[i] <= i);
                                assert(slots[i] as usize == sl);
                                assert(slots[i] == sl);
                                assert(list@[j as int] == Node::Temp(order@[i]));
                                assert(list@.contains(Node::Temp(order@[i])));
                                assert forall|v: usize| #[trigger] used@.contains(v) implies exists|i2: int| 0 <= i2 < k && slots[i2] == v && list@.contains(Node::Temp(order@[i2])) by {
                                    if v != sl {
                                        let q = choose|q: int| 0 <= q < used@.len() && used@[q] == v;
                                        assert(before[q] == v);
                                        assert(before.contains(v));
                                    }
                                }
                                assert forall|i2: int| 0 <= i2 < k && (exists|jj: int| 0 <= jj < j + 1 && list@[jj] == Node::Temp(#[trigger] order@[i2])) implies used@.contains(slots[i2] as usize) by {
                                    let jj = choose|jj: int| 0 <= jj < j + 1 && list@[jj] == Node::Temp(order@[i2]);
                                    if jj == j {
                                        assert(order@[i2] == nid);
                                        assert(order@.no_duplicates());
                                        assert(i2 == i);
                                        assert(used@[before.len() as int] == sl);
                                    } else {
                                        assert(before.contains(slots[i2] as usize));
                                        let q = choose|q: int| 0 <= q < before.len() && before[q] == slots[i2] as usize;
                                        assert(used@[q] == slots[i2] as usize);
                                    }
                                }
                            }
                        } else {
                            proof {
                                assert forall|i2: int| 0 <= i2 < k && (exists|jj: int| 0 <= jj < j + 1 && list@[jj] == Node::Temp(#[trigger] order@[i2])) implies used@.contains(slots[i2] as usize) by {
                                    let jj = choose|jj: int| 0 <= jj < j + 1 && list@[jj] == Node::Temp(order@[i2]);
                                    if jj == j {
                                        assert(list@[j as int] == Node::Temp(nid));
                                        assert(nid == order@[i2]);
                                        assert(slot_of@[order@[i2] as int] is Some);
                                    } else {
                                        assert(exists|jj2: int| 0 <= jj2 < j && list@[jj2] == Node::Temp(order@[i2]));
                                    }
                                }
                            }
                        }
                    } else {
                        proof {
                            assert forall|i2: int| 0 <= i2 < k && (exists|jj: int| 0 <= jj < j + 1 && list@[jj] == Node::Temp(#[trigger] order@[i2])) implies used@.contains(slots[i2] as usize) by {
                                let jj = choose|jj: int| 0 <= jj < j + 1 && list@[jj] == Node::Temp(order@[i2]);
                                if jj == j {
                                    assert(list@[j as int] == Node::Temp(nid));
                                    assert(nid == order@[i2]);
                                    assert(order@.contains(order@[i2]));
                                    assert(gets_slot(coloring@, params_count as nat, order@[i2]));
                                } else {
                                    assert(exists|jj2: int| 0 <= jj2 < j && list@[jj2] == Node::Temp(order@[i2]));
                                }
                            }
                        }
                    }
                }
                j = j + 1;
            }
        }
        let slot = least_unused(&used);
        proof {
            // The free slot is the least one that no interfering temporary before has.
            let taken = taken_slots(g@, order@, slots, k as int);
            assert forall|v: usize| #[trigger] taken.contains(v as nat) <==> used@.contains(v) by {
                if taken.contains(v as nat) {
                    let i = choose|i: int| 0 <= i < k && interferes(g@, order@[k as int], order@[i]) && #[trigger] slots[i] == v as nat;
                    let jj = choose|jj: int| 0 <= jj < g@[t as int]@.len() && g@[t as int]@[jj] == Node::Temp(order@[i]);
                    assert(used@.contains(slots[i] as usize));
                }
                if used@.contains(v) {
                    assert(t < g@.len());
                    let i = choose|i: int| 0 <= i < k && slots[i] == v && g@[t as int]@.contains(Node::Temp(order@[i]));
                    assert(interferes(g@, order@[k as int], order@[i]));
                }
            }
            assert(least_free(taken, slot as nat)) by {
                assert forall|w: nat| w < slot implies taken.contains(w) by {
                    assert(used@.contains(w as usize));
                    assert(taken.contains((w as usize) as nat));
                }
                assert(!used@.contains(slot));
            }
            // At most k distinct slots are taken, so the free one is at most k.
            let prior = Seq::new(k as nat, |i: int| slots[i] as usize);
            assert forall|v: usize| v < slot implies #[trigger] prior.contains(v) by {
                assert(used@.contains(v));
                assert(taken.contains(v as nat));
                let i = choose|i: int| 0 <= i < k && interferes(g@, order@[k as int], order@[i]) && #[trigger] slots[i] == v as nat;
                assert(prior[i] == v);
            }
            lemma_pigeonhole(prior, slot as nat);
        }
        let ghost old_slot_of = slot_of@;
        slot_of.set(t, Some(slot));
        let offset: i64 = ((slot as u64) * 8) as i64;
        alloc.push((t, StackVar { offset, width: Width::W64 }));
        if slot + 1 > count {
            count = slot + 1;
        }
        proof {
            let old_slots = slots;
            slots = slots.push(slot as nat);
            assert(slots.drop_last() =~= old_slots);
            assert forall|i: int| 0 <= i < k + 1 implies least_free(taken_slots(g@, order@, slots, i), #[trigger] slots[i]) by {
                assert(taken_slots(g@, order@, slots, i) =~= taken_slots(g@, order@, old_slots, i)) by {
                    assert forall|v: nat| taken_slots(g@, order@, slots, i).contains(v) <==> taken_slots(g@, order@, old_slots, i).contains(v) by {
                        if taken_slots(g@, order@, slots, i).contains(v) {
                            let q = choose|q: int| 0 <= q < i && interferes(g@, order@[i], order@[q]) && #[trigger] slots[q] == v;
                            assert(old_slots[q] == v);
                        }
                        if taken_slots(g@, order@, old_slots, i).contains(v) {
                            let q = choose|q: int| 0 <= q < i && interferes(g@, order@[i], order@[q]) && #[trigger] old_slots[q] == v;
                            assert(slots[q] == v);
                        }
                    }
                }
            }
            assert forall|x: int| 0 <= x < n implies (#[trigger] slot_of@[x] is Some <==> exists|i: int| 0 <= i < k + 1 && order@[i] == x) by {
                if x == t {
                    assert(order@[k as int] == x);
                }
            }
            assert forall|i: int| 0 <= i < k + 1 implies slot_of@[#[trigger] order@[i] as int] == Some(slots[i] as usize) by {
                assert(order@.contains(order@[i]));
                assert(order@[i] < n);
                if i < k {
                    assert(order@[i] != order@[k as int]);
                    assert(slots[i] == old_slots[i]);
                    assert(slot_of@[order@[i] as int] == old_slot_of[order@[i] as int]);
                    assert(old_slot_of[order@[i] as int] == Some(old_slots[i] as usize));
                } else {
                    assert(slots[i] == slot as nat);
                    assert(slot_of@[t as int] == Some(slot));
                }
            }
            assert(offset == (slot as nat * 8) as i64);
        }
        k = k + 1;
    }
    proof {
        assert(is_slot_assignment(g@, coloring@, params_count as nat, (alloc@, count as nat))) by {
            assert(greedy_slots(g@, order@, slots));
        }
        assert forall|k1: int, k2: int| 0 <= k1 < alloc@.len() && 0 <= k2 < alloc@.len() && k1 != k2
            && interferes(g@, #[trigger] alloc@[k1].0, #[trigger] alloc@[k2].0) implies alloc@[k1].1 != alloc@[k2].1 by {
            let (a, b) = if k1 < k2 { (k1, k2) } else { (k2, k1) };
            // The later one of the two saw the earlier one's slot as taken.
            if k1 < k2 {
                assert(interferes(g@, order@[k2], order@[k1]));
                assert(taken_slots(g@, order@, slots, k2).contains(slots[k1]));
            } else {
                assert(taken_slots(g@, order@, slots, k1).contains(slots[k2]));
            }
            assert(slots[k1] <= k1 && slots[k2] <= k2);
            assert(slot_var(slots[k1]).offset != slot_var(slots[k2]).offset);
        }
    }
    (alloc, count)
}

/// Every temporary the function reads or writes has an id below `usize::MAX`.
pub open spec fn temps_addressable(s: Seq<Option<BasicBlock>>) -> bool {
    forall|b: int| 0 <= b < s.len() && (#[trigger] s[b]) is Some ==> block_ids_below(s[b]->0, usize::MAX as nat)
}

proof fn lemma_represents_symmetric(g: Seq<Vec<Node>>, e: Set<(Node, Node)>)
    requires
        represents(g, e),
    ensures
        symmetric_graph(g),
        forall|a: usize, b: usize| #[trigger] interferes(g, a, b) <==> neighbours(e, Node::Temp(a)).contains(Node::Temp(b)),
{
    assert forall|a: usize, b: usize| a < g.len() && #[trigger] g[a as int]@.contains(Node::Temp(b)) implies b < g.len() && g[b as int]@.contains(Node::Temp(a)) by {
        assert(neighbours(e, Node::Temp(a)).contains(Node::Temp(b)));
        if e.contains((Node::Temp(a), Node::Temp(b))) {
            assert(crate::interference::node_below(Node::Temp(b), g.len()));
        } else {
            assert(e.contains((Node::Temp(b), Node::Temp(a))));
            assert(crate::interference::node_below(Node::Temp(b), g.len()));
        }
        assert(neighbours(e, Node::Temp(b)).contains(Node::Temp(a)));
    }
    assert forall|a: usize, b: usize| #[trigger] interferes(g, a, b) <==> neighbours(e, Node::Temp(a)).contains(Node::Temp(b)) by {
        if neighbours(e, Node::Temp(a)).contains(Node::Temp(b)) {
            if e.contains((Node::Temp(a), Node::Temp(b))) {
                assert(crate::interference::node_below(Node::Temp(a), g.len()));
            } else {
                assert(crate::interference::node_below(Node::Temp(a), g.len()));
            }
            assert(g[a as int]@.contains(Node::Temp(b)));
        }
    }
}

/// Stack slot allocation for spilled temporaries: from the least liveness solution of
/// the function and the interference it gives, each temporary coloured for spilling
/// (but parameters passed on the stack) gets, by decreasing degree, the least slot that
/// no interfering temporary already has. Returns each such temporary with its stack
/// slot, in the order of assignment, and the number of slots.
pub fn allocate_spill_slots(ctx: &IRContext, coloring: &Vec<Color>, params_count: usize) -> (r: (Vec<(usize, StackVar)>, usize))
    requires
        ctx.wf(),
        temps_addressable(ctx.slots()),
        coloring@.len() < 0x1000_0000_0000_0000,
    ensures
        exists|ins: Seq<Set<usize>>, outs: Seq<Set<usize>>, g: Seq<Vec<Node>>| {
            &&& is_liveness(ctx.slots(), ins, outs)
            &&& below_every_cover(ctx.slots(), ins, outs)
            &&& represents(g, function_pairs(ctx.slots(), outs, params_count as nat))
            &&& is_slot_assignment(g, coloring@, params_count as nat, (r.0@, r.1 as nat))
            &&& forall|k1: int, k2: int| 0 <= k1 < r.0@.len() && 0 <= k2 < r.0@.len() && k1 != k2
                && #[trigger] neighbours(function_pairs(ctx.slots(), outs, params_count as nat), Node::Temp(r.0@[k1].0)).contains(
                Node::Temp(#[trigger] r.0@[k2].0),
            ) ==> r.0@[k1].1 != r.0@[k2].1
        },
{
    let ghost s = ctx.slots();
    proof {
        assert forall|b: int, k: int, j: int|
            0 <= b < s.len() && s[b] is Some && 0 <= k < run_of(s[b]->0).len() && 0 <= j < read_ids(run_of(s[b]->0)[k]).len()
            implies #[trigger] read_ids(run_of(s[b]->0)[k])[j] < usize::MAX by {
            assert(block_ids_below(s[b]->0, usize::MAX as nat));
        }
    }
    let liveness = analyze_liveness(ctx);
    let ghost ins = list_sets(liveness.live_in@);
    let ghost outs = list_sets(liveness.live_out@);
    proof {
        lemma_live_are_reads(s, ins, outs);
        assert forall|b: int, i: int| 0 <= b < liveness.live_out@.len() && 0 <= i < liveness.live_out@[b]@.len()
            implies #[trigger] liveness.live_out@[b]@[i] < usize::MAX by {
            let x = liveness.live_out@[b]@[i];
            assert(liveness.live_out@[b]@.to_set().contains(x));
            assert(outs[b].contains(x));
            assert(all_reads(s).contains(x));
            let (bb, k, j) = choose|bb: int, k: int, j: int|
                0 <= bb < s.len() && s[bb] is Some && 0 <= k < run_of(s[bb]->0).len() && 0 <= j < read_ids(
                    run_of(s[bb]->0)[k],
                ).len() && #[trigger] read_ids(run_of(s[bb]->0)[k])[j] == x;
            assert(block_ids_below(s[bb]->0, usize::MAX as nat));
        }
        assert(function_ids_below(s, liveness.live_out@, usize::MAX as nat));
    }
    let graph = build(ctx, &liveness.live_out, params_count);
    proof {
        lemma_represents_symmetric(graph.neighbours@, function_pairs(s, outs, params_count as nat));
    }
    let r = assign_spill_slots(&graph.neighbours, coloring, params_count);
    proof {
        let e = function_pairs(s, outs, params_count as nat);
        assert forall|k1: int, k2: int| 0 <= k1 < r.0@.len() && 0 <= k2 < r.0@.len() && k1 != k2
            && #[trigger] neighbours(e, Node::Temp(r.0@[k1].0)).contains(Node::Temp(#[trigger] r.0@[k2].0))
            implies r.0@[k1].1 != r.0@[k2].1 by {
            assert(interferes(graph.neighbours@, r.0@[k1].0, r.0@[k2].0));
        }
    }
    r
}

} // verus!
