//! Liveness analysis: for each block, the temporaries that may be read before being
//! written again, on entry to the block and on exit from it.
use vstd::prelude::*;

use crate::cfg::{dest_of, get_operands_from_instruction, get_successors_of_block, operands_of, succs};
use crate::ir::{lemma_wf_slots, BasicBlock, IRContext, Instr, Label, Operand};

verus! {

/// Ids of the temporaries among some operands, in order.
pub open spec fn temp_ids(ops: Seq<Operand>) -> Seq<usize>
    decreases ops.len(),
{
    if ops.len() == 0 {
        Seq::<usize>::empty()
    } else {
        temp_ids(ops.drop_last()) + match ops.last() {
            Operand::Temp(t) => seq![t.0],
            Operand::Const(_) => Seq::<usize>::empty(),
        }
    }
}

/// Ids of the temporaries an instruction reads.
pub open spec fn read_ids(i: Instr) -> Seq<usize> {
    temp_ids(operands_of(i))
}

/// Id of the temporary an instruction defines.
pub open spec fn defined_id(i: Instr) -> Option<usize> {
    match dest_of(i) {
        Some(t) => Some(t.0),
        None => None,
    }
}

/// The instructions of a block in execution order: its body, then its terminator.
pub open spec fn run_of(b: BasicBlock) -> Seq<Instr> {
    b.body@ + match b.terminator {
        Some(t) => seq![t],
        None => Seq::<Instr>::empty(),
    }
}

/// For some instructions run in order: the temporaries read before any of them writes
/// them, and the temporaries they write.
pub open spec fn exposed(is: Seq<Instr>) -> (Set<usize>, Set<usize>)
    decreases is.len(),
{
    if is.len() == 0 {
        (Set::<usize>::empty(), Set::<usize>::empty())
    } else {
        let (g, k) = exposed(is.drop_last());
        let i = is.last();
        (
            g.union(read_ids(i).to_set().difference(k)),
            match defined_id(i) {
                Some(d) => k.insert(d),
                None => k,
            },
        )
    }
}

/// Temporaries a block reads before writing them.
pub open spec fn gen_of(b: BasicBlock) -> Set<usize> {
    exposed(run_of(b)).0
}

/// Temporaries a block writes.
pub open spec fn kill_of(b: BasicBlock) -> Set<usize> {
    exposed(run_of(b)).1
}

/// A label names an existing block slot.
pub open spec fn slot_exists(s: Seq<Option<BasicBlock>>, l: Label) -> bool {
    l.0 < s.len() && s[l.0 as int] is Some
}

/// What is live on exit from block `b`, given what is live on entry to each block:
/// the union over its existing successors.
pub open spec fn live_out_of(s: Seq<Option<BasicBlock>>, ins: Seq<Set<usize>>, b: int) -> Set<usize> {
    match s[b] {
        None => Set::<usize>::empty(),
        Some(blk) => Set::new(
            |x: usize|
                exists|j: int|
                    0 <= j < succs(blk).len() && slot_exists(s, #[trigger] succs(blk)[j])
                        && ins[succs(blk)[j].0 as int].contains(x),
        ),
    }
}

/// What is live on entry to block `b`, given what is live on exit from it.
pub open spec fn live_in_of(s: Seq<Option<BasicBlock>>, outs: Seq<Set<usize>>, b: int) -> Set<usize> {
    match s[b] {
        None => Set::<usize>::empty(),
        Some(blk) => gen_of(blk).union(outs[b].difference(kill_of(blk))),
    }
}

/// `ins` and `outs` solve the liveness equations of the function's blocks.
pub open spec fn is_liveness(s: Seq<Option<BasicBlock>>, ins: Seq<Set<usize>>, outs: Seq<Set<usize>>) -> bool {
    &&& ins.len() == s.len()
    &&& outs.len() == s.len()
    &&& forall|b: int| 0 <= b < s.len() ==> #[trigger] ins[b] == live_in_of(s, outs, b) && outs[b] == live_out_of(s, ins, b)
}

/// `ins` and `outs` hold at least what the liveness equations ask of them.
pub open spec fn covers_liveness(s: Seq<Option<BasicBlock>>, ins: Seq<Set<usize>>, outs: Seq<Set<usize>>) -> bool {
    &&& ins.len() == s.len()
    &&& outs.len() == s.len()
    &&& forall|b: int| 0 <= b < s.len() ==> live_in_of(s, outs, b).subset_of(#[trigger] ins[b]) && live_out_of(s, ins, b).subset_of(outs[b])
}

/// Set of the indices at which a bitmap is set.
pub open spec fn bits_set(v: Seq<bool>) -> Set<usize> {
    Set::new(|x: usize| x < v.len() && v[x as int])
}

/// Every temporary read in the function has an id below `m`.
pub open spec fn reads_below(s: Seq<Option<BasicBlock>>, m: nat) -> bool {
    forall|b: int, k: int, j: int|
        0 <= b < s.len() && s[b] is Some && 0 <= k < run_of(s[b]->0).len() && 0 <= j < read_ids(
            run_of(s[b]->0)[k],
        ).len() ==> #[trigger] read_ids(run_of(s[b]->0)[k])[j] < m
}

/// Bitmaps of `m` entries.
pub open spec fn rows_of_width(rows: Seq<Vec<bool>>, m: nat) -> bool {
    forall|b: int| 0 <= b < rows.len() ==> (#[trigger] rows[b])@.len() == m
}

/// The sets held by some bitmaps.
pub open spec fn row_sets(rows: Seq<Vec<bool>>) -> Seq<Set<usize>> {
    rows.map_values(|r: Vec<bool>| bits_set(r@))
}

/// Numbers below `m`.
pub open spec fn below(m: nat) -> Set<usize> {
    Set::new(|x: usize| x < m)
}

/// If an instruction defines a temporary, get its id.
pub fn get_defines(instr: &Instr) -> (r: Option<usize>)
    ensures
        r == defined_id(*instr),
{
    match crate::cfg::get_dest_temp_from_instruction(instr) {
        Some(t) => Some(t.0),
        None => None,
    }
}

/// Get the ids of the temporaries an instruction reads, in order.
pub fn get_uses(instr: &Instr) -> (r: Vec<usize>)
    ensures
        r@ == read_ids(*instr),
{
    let ops = get_operands_from_instruction(instr);
    let mut ids: Vec<usize> = Vec::new();
    let mut k: usize = 0;
    while k < ops.len()
        invariant
            k <= ops@.len(),
            ids@ == temp_ids(ops@.take(k as int)),
        decreases ops@.len() - k,
    {
        proof {
            assert(ops@.take(k as int + 1).drop_last() =~= ops@.take(k as int));
        }
        if let Operand::Temp(t) = &ops[k] {
            ids.push(t.0);
        }
        proof {
            assert(ids@ =~= temp_ids(ops@.take(k as int + 1)));
        }
        k = k + 1;
    }
    proof {
        assert(ops@.take(ops@.len() as int) =~= ops@);
    }
    ids
}

/// A bitmap of `m` unset entries.
fn empty_bits(m: usize) -> (r: Vec<bool>)
    ensures
        r@.len() == m,
        bits_set(r@) == Set::<usize>::empty(),
{
    let mut v: Vec<bool> = Vec::new();
    while v.len() < m
        invariant
            v@.len() <= m,
            forall|i: int| 0 <= i < v@.len() ==> !v@[i],
        decreases m - v@.len(),
    {
        v.push(false);
    }
    assert(bits_set(v@) =~= Set::<usize>::empty());
    v
}

/// Add the effect of one instruction to the bitmaps of what a run of instructions
/// reads before writing (`gen`) and writes (`kill`, below `m`).
fn walk_instr(gen: &mut Vec<bool>, kill: &mut Vec<bool>, instr: &Instr, Ghost(g): Ghost<Set<usize>>, Ghost(k): Ghost<Set<usize>>)
    requires
        old(gen)@.len() == old(kill)@.len(),
        bits_set(old(gen)@) == g,
        bits_set(old(kill)@) == k.intersect(below(old(kill)@.len() as nat)),
        forall|j: int| 0 <= j < read_ids(*instr).len() ==> #[trigger] read_ids(*instr)[j] < old(gen)@.len(),
    ensures
        final(gen)@.len() == old(gen)@.len(),
        final(kill)@.len() == old(kill)@.len(),
        bits_set(final(gen)@) == g.union(read_ids(*instr).to_set().difference(k)),
        bits_set(final(kill)@) == (match defined_id(*instr) {
            Some(d) => k.insert(d),
            None => k,
        }).intersect(below(old(kill)@.len() as nat)),
{
    let m = gen.len();
    let ids = get_uses(instr);
    let ghost all = read_ids(*instr);
    let mut j: usize = 0;
    while j < ids.len()
        invariant
            ids@ == all,
            all == read_ids(*instr),
            j <= ids@.len(),
            gen@.len() == m,
            kill@.len() == m,
            kill@ == old(kill)@,
            bits_set(kill@) == k.intersect(below(m as nat)),
            forall|i: int| 0 <= i < all.len() ==> #[trigger] all[i] < m,
            bits_set(gen@) == g.union(all.take(j as int).to_set().difference(k)),
        decreases ids@.len() - j,
    {
        let id = ids[j];
        let ghost before = gen@;
        if !kill[id] {
            gen.set(id, true);
        }
        proof {
            assert(all.take(j as int + 1) =~= all.take(j as int).push(id));
            assert(!kill@[id as int] <==> !k.contains(id)) by {
                assert(bits_set(kill@).contains(id) <==> kill@[id as int]);
            }
            assert(bits_set(gen@) =~= g.union(all.take(j as int + 1).to_set().difference(k))) by {
                assert forall|x: usize| bits_set(gen@).contains(x) <==> g.union(all.take(j as int + 1).to_set().difference(k)).contains(x) by {
                    if x == id {
                        assert(all.take(j as int + 1).to_set().contains(id)) by {
                            assert(all.take(j as int + 1)[j as int] == id);
                        }
                    } else {
                        assert(bits_set(gen@).contains(x) == bits_set(before).contains(x));
                        assert(all.take(j as int + 1).to_set().contains(x) == all.take(j as int).to_set().contains(x)) by {
                            let t0 = all.take(j as int);
                            let t1 = all.take(j as int + 1);
                            if t1.to_set().contains(x) {
                                let i = choose|i: int| 0 <= i < t1.len() && #[trigger] t1[i] == x;
                                assert(t0[i] == x);
                            }
                            if t0.to_set().contains(x) {
                                let i = choose|i: int| 0 <= i < t0.len() && #[trigger] t0[i] == x;
                                assert(t1[i] == x);
                            }
                        }
                    }
                }
            }
        }
        j = j + 1;
    }
    proof {
        assert(all.take(all.len() as int) =~= all);
    }
    let ghost mid = kill@;
    match get_defines(instr) {
        Some(d) => {
            if d < m {
                kill.set(d, true);
            }
            proof {
                assert(bits_set(kill@) =~= k.insert(d).intersect(below(m as nat))) by {
                    assert forall|x: usize| bits_set(kill@).contains(x) <==> k.insert(d).intersect(below(m as nat)).contains(x) by {
                        if x != d {
                            assert(bits_set(kill@).contains(x) == bits_set(mid).contains(x));
                        }
                    }
                }
            }
        },
        None => {},
    }
}

/// Bitmaps of what a block reads before writing it and of what it writes (below `m`).
fn block_gen_kill(b: &BasicBlock, m: usize) -> (r: (Vec<bool>, Vec<bool>))
    requires
        forall|k: int, j: int|
            0 <= k < run_of(*b).len() && 0 <= j < read_ids(run_of(*b)[k]).len() ==> #[trigger] read_ids(
                run_of(*b)[k],
            )[j] < m,
    ensures
        r.0@.len() == m,
        r.1@.len() == m,
        bits_set(r.0@) == gen_of(*b),
        bits_set(r.1@) == kill_of(*b).intersect(below(m as nat)),
{
    let mut gen = empty_bits(m);
    let mut kill = empty_bits(m);
    let ghost run = run_of(*b);
    proof {
        assert(run.take(0) =~= Seq::<Instr>::empty());
        assert(Set::<usize>::empty().intersect(below(m as nat)) =~= Set::<usize>::empty());
    }
    let mut k: usize = 0;
    while k < b.body.len()
        invariant
            run == run_of(*b),
            k <= b.body@.len(),
            gen@.len() == m,
            kill@.len() == m,
            forall|i: int, j: int|
                0 <= i < run.len() && 0 <= j < read_ids(run[i]).len() ==> #[trigger] read_ids(run[i])[j] < m,
            bits_set(gen@) == exposed(run.take(k as int)).0,
            bits_set(kill@) == exposed(run.take(k as int)).1.intersect(below(m as nat)),
        decreases b.body@.len() - k,
    {
        proof {
            assert(run.take(k as int + 1).drop_last() =~= run.take(k as int));
            assert(run[k as int] == b.body@[k as int]);
            assert forall|j: int| 0 <= j < read_ids(b.body@[k as int]).len() implies #[trigger] read_ids(b.body@[k as int])[j] < gen@.len() by {
                assert(read_ids(run[k as int])[j] < m);
            }
        }
        let ghost (g, kk) = exposed(run.take(k as int));
        walk_instr(&mut gen, &mut kill, &b.body[k], Ghost(g), Ghost(kk));
        k = k + 1;
    }
    match &b.terminator {
        Some(t) => {
            proof {
                let n = b.body@.len() as int;
                assert(run.take(n + 1) =~= run);
                assert(run.take(n + 1).drop_last() =~= run.take(n));
                assert(run[n] == *t);
                assert forall|j: int| 0 <= j < read_ids(*t).len() implies #[trigger] read_ids(*t)[j] < gen@.len() by {
                    assert(read_ids(run[n])[j] < m);
                }
            }
            let ghost (g, kk) = exposed(run.take(b.body@.len() as int));
            walk_instr(&mut gen, &mut kill, t, Ghost(g), Ghost(kk));
        },
        None => {
            proof {
                assert(run.take(b.body@.len() as int) =~= run);
            }
        },
    }
    (gen, kill)
}

/// Number of set entries of a bitmap.
pub open spec fn bit_count(v: Seq<bool>) -> nat
    decreases v.len(),
{
    if v.len() == 0 {
        0
    } else {
        bit_count(v.drop_last()) + if v.last() { 1nat } else { 0nat }
    }
}

/// Number of set entries of some bitmaps.
pub open spec fn rows_count(rows: Seq<Vec<bool>>) -> nat
    decreases rows.len(),
{
    if rows.len() == 0 {
        0
    } else {
        rows_count(rows.drop_last()) + bit_count(rows.last()@)
    }
}

/// Number of entries of some bitmaps.
pub open spec fn rows_size(rows: Seq<Vec<bool>>) -> nat
    decreases rows.len(),
{
    if rows.len() == 0 {
        0
    } else {
        rows_size(rows.drop_last()) + rows.last()@.len()
    }
}

proof fn lemma_bit_count(a: Seq<bool>, b: Seq<bool>)
    requires
        a.len() == b.len(),
        forall|i: int| 0 <= i < a.len() && #[trigger] a[i] ==> b[i],
    ensures
        bit_count(a) <= bit_count(b),
        bit_count(b) <= b.len(),
        a != b ==> bit_count(a) < bit_count(b),
    decreases a.len(),
{
    if a.len() > 0 {
        lemma_bit_count(a.drop_last(), b.drop_last());
        assert(a.last() ==> b.last()) by {
            if a.last() {
                assert(a[a.len() - 1]);
            }
        }
        if a != b && a.drop_last() == b.drop_last() {
            assert(a.last() != b.last()) by {
                if a.last() == b.last() {
                    assert forall|i: int| 0 <= i < a.len() implies a[i] == b[i] by {
                        if i < a.len() - 1 {
                            assert(a.drop_last()[i] == b.drop_last()[i]);
                        }
                    }
                    assert(a =~= b);
                }
            }
        }
    } else {
        assert(a =~= b);
    }
}

proof fn lemma_rows_count(a: Seq<Vec<bool>>, b: Seq<Vec<bool>>)
    requires
        a.len() == b.len(),
        forall|r: int| 0 <= r < a.len() ==> (#[trigger] a[r])@.len() == b[r]@.len(),
        forall|r: int, i: int| 0 <= r < a.len() && 0 <= i < a[r]@.len() && #[trigger] a[r]@[i] ==> b[r]@[i],
    ensures
        rows_count(a) <= rows_count(b),
        rows_count(b) <= rows_size(b),
        rows_size(a) == rows_size(b),
        (exists|r: int| 0 <= r < a.len() && (#[trigger] a[r])@ != b[r]@) ==> rows_count(a) < rows_count(b),
    decreases a.len(),
{
    if a.len() > 0 {
        let n = a.len() - 1;
        assert forall|r: int, i: int| 0 <= r < a.drop_last().len() && 0 <= i < a.drop_last()[r]@.len()
            && #[trigger] a.drop_last()[r]@[i] implies b.drop_last()[r]@[i] by {
            assert(a[r]@[i]);
        }
        lemma_rows_count(a.drop_last(), b.drop_last());
        assert forall|i: int| 0 <= i < a[n]@.len() && #[trigger] a[n]@[i] implies b[n]@[i] by {}
        lemma_bit_count(a[n]@, b[n]@);
        if exists|r: int| 0 <= r < a.len() && (#[trigger] a[r])@ != b[r]@ {
            let r = choose|r: int| 0 <= r < a.len() && (#[trigger] a[r])@ != b[r]@;
            if r < n {
                assert(a.drop_last()[r]@ != b.drop_last()[r]@);
            }
        }
    }
}

/// Liveness analysis result: for each block slot (by label number), the ids of the
/// temporaries live on entry and on exit, in increasing order.
pub struct Liveness {
    /// Temporaries live on entry to each block.
    pub live_in: Vec<Vec<usize>>,
    /// Temporaries live on exit from each block.
    pub live_out: Vec<Vec<usize>>,
}

/// The ids are in strictly increasing order.
pub open spec fn increasing(v: Seq<usize>) -> bool {
    forall|i: int, j: int| 0 <= i < j < v.len() ==> v[i] < v[j]
}

/// The sets held by some id lists.
pub open spec fn list_sets(lists: Seq<Vec<usize>>) -> Seq<Set<usize>> {
    lists.map_values(|l: Vec<usize>| l@.to_set())
}

/// The ids set in a bitmap, in increasing order.
fn bits_to_list(v: &Vec<bool>) -> (r: Vec<usize>)
    ensures
        r@.to_set() == bits_set(v@),
        increasing(r@),
{
    let mut out: Vec<usize> = Vec::new();
    let mut x: usize = 0;
    while x < v.len()
        invariant
            x <= v@.len(),
            increasing(out@),
            forall|i: int| 0 <= i < out@.len() ==> #[trigger] out@[i] < x,
            forall|y: usize| #[trigger] out@.contains(y) <==> (y < x && v@[y as int]),
        decreases v@.len() - x,
    {
        if v[x] {
            let ghost before = out@;
            out.push(x);
            proof {
                assert forall|y: usize| #[trigger] out@.contains(y) <==> (y < x + 1 && v@[y as int]) by {
                    if y == x {
                        assert(out@[before.len() as int] == x);
                    } else {
                        if out@.contains(y) {
                            let i = choose|i: int| 0 <= i < out@.len() && out@[i] == y;
                            assert(i < before.len());
                            assert(before[i] == y);
                            assert(before.contains(y));
                        }
                        if before.contains(y) {
                            let i = choose|i: int| 0 <= i < before.len() && before[i] == y;
                            assert(out@[i] == y);
                        }
                    }
                }
            }
        }
        x = x + 1;
    }
    proof {
        assert(out@.to_set() =~= bits_set(v@));
    }
    out
}

/// Each set of the first sequence is included in the set at the same position of the
/// second.
pub open spec fn pointwise_subset(a: Seq<Set<usize>>, b: Seq<Set<usize>>) -> bool {
    a.len() == b.len() && forall|i: int| 0 <= i < a.len() ==> (#[trigger] a[i]).subset_of(b[i])
}

/// Every set is at most what the liveness equations give for it.
pub open spec fn below_equations(s: Seq<Option<BasicBlock>>, ins: Seq<Set<usize>>, outs: Seq<Set<usize>>) -> bool {
    &&& ins.len() == s.len()
    &&& outs.len() == s.len()
    &&& forall|b: int| 0 <= b < s.len() ==> (#[trigger] ins[b]).subset_of(live_in_of(s, outs, b)) && outs[b].subset_of(live_out_of(s, ins, b))
}

/// The sets are included in those of every solution of the inclusions of liveness.
pub open spec fn below_every_cover(s: Seq<Option<BasicBlock>>, ins: Seq<Set<usize>>, outs: Seq<Set<usize>>) -> bool {
    forall|ins2: Seq<Set<usize>>, outs2: Seq<Set<usize>>| #[trigger] covers_liveness(s, ins2, outs2)
        ==> pointwise_subset(ins, ins2) && pointwise_subset(outs, outs2)
}

proof fn lemma_out_monotone(s: Seq<Option<BasicBlock>>, i1: Seq<Set<usize>>, i2: Seq<Set<usize>>, b: int)
    requires
        0 <= b < s.len(),
        i1.len() == s.len(),
        pointwise_subset(i1, i2),
    ensures
        live_out_of(s, i1, b).subset_of(live_out_of(s, i2, b)),
{
    if let Some(blk) = s[b] {
        assert forall|x: usize| live_out_of(s, i1, b).contains(x) implies live_out_of(s, i2, b).contains(x) by {
            let j = choose|j: int|
                0 <= j < succs(blk).len() && slot_exists(s, #[trigger] succs(blk)[j]) && i1[succs(blk)[j].0 as int].contains(x);
            assert(i1[succs(blk)[j].0 as int].subset_of(i2[succs(blk)[j].0 as int]));
        }
    }
}

/// One update of block `b` (exit from the current entries, then entry from that exit)
/// keeps the sets below the equations and below every cover, and only adds to them.
#[verifier::spinoff_prover]
proof fn lemma_update_step(s: Seq<Option<BasicBlock>>, ins: Seq<Set<usize>>, outs: Seq<Set<usize>>, b: int)
    requires
        0 <= b < s.len(),
        s[b] is Some,
        below_equations(s, ins, outs),
        below_every_cover(s, ins, outs),
    ensures
        ({
            let new_out = live_out_of(s, ins, b);
            let outs2 = outs.update(b, new_out);
            let new_in = live_in_of(s, outs2, b);
            let ins2 = ins.update(b, new_in);
            &&& below_equations(s, ins2, outs2)
            &&& below_every_cover(s, ins2, outs2)
            &&& pointwise_subset(ins, ins2)
            &&& pointwise_subset(outs, outs2)
        }),
{
    let new_out = live_out_of(s, ins, b);
    let outs2 = outs.update(b, new_out);
    let new_in = live_in_of(s, outs2, b);
    let ins2 = ins.update(b, new_in);
    let blk = s[b]->0;
    // The exit of b only grows: it was below its equation.
    assert(ins[b].subset_of(live_in_of(s, outs, b)));
    assert(outs[b].subset_of(new_out));
    assert(pointwise_subset(outs, outs2));
    // Hence so does its entry.
    assert(live_in_of(s, outs, b).subset_of(new_in));
    assert(ins[b].subset_of(new_in));
    assert(pointwise_subset(ins, ins2));
    assert forall|c: int| 0 <= c < s.len() implies (#[trigger] ins2[c]).subset_of(live_in_of(s, outs2, c))
        && outs2[c].subset_of(live_out_of(s, ins2, c)) by {
        lemma_out_monotone(s, ins, ins2, c);
        if c != b {
            assert(ins2[c] == ins[c] && outs2[c] == outs[c]);
            assert(ins[c].subset_of(live_in_of(s, outs, c)));
            assert(live_in_of(s, outs2, c) == live_in_of(s, outs, c));
        } else {
            assert(ins2[c] == new_in);
            assert(outs2[c] == new_out);
        }
    }
    assert forall|ins3: Seq<Set<usize>>, outs3: Seq<Set<usize>>| #[trigger] covers_liveness(s, ins3, outs3)
        implies pointwise_subset(ins2, ins3) && pointwise_subset(outs2, outs3) by {
        assert(pointwise_subset(ins, ins3) && pointwise_subset(outs, outs3));
        lemma_out_monotone(s, ins, ins3, b);
        assert(new_out.subset_of(outs3[b]));
        assert(new_in.subset_of(live_in_of(s, outs3, b)));
        assert(new_in.subset_of(ins3[b]));
        assert forall|c: int| 0 <= c < ins2.len() implies (#[trigger] ins2[c]).subset_of(ins3[c]) by {}
        assert forall|c: int| 0 <= c < outs2.len() implies (#[trigger] outs2[c]).subset_of(outs3[c]) by {}
    }
}

/// Set the entries of `dst` that are set in `src`.
fn or_into(dst: &mut Vec<bool>, src: &Vec<bool>)
    requires
        old(dst)@.len() == src@.len(),
    ensures
        final(dst)@.len() == old(dst)@.len(),
        bits_set(final(dst)@) == bits_set(old(dst)@).union(bits_set(src@)),
{
    let mut i: usize = 0;
    while i < src.len()
        invariant
            dst@.len() == src@.len(),
            old(dst)@.len() == src@.len(),
            i <= src@.len(),
            forall|j: int| 0 <= j < i ==> #[trigger] dst@[j] == (old(dst)@[j] || src@[j]),
            forall|j: int| i <= j < dst@.len() ==> #[trigger] dst@[j] == old(dst)@[j],
        decreases src@.len() - i,
    {
        if src[i] {
            dst.set(i, true);
        }
        i = i + 1;
    }
    assert(bits_set(dst@) =~= bits_set(old(dst)@).union(bits_set(src@)));
}

/// `gen`, and what of `out` is not in `kill`.
fn transfer(gen: &Vec<bool>, kill: &Vec<bool>, out: &Vec<bool>) -> (r: Vec<bool>)
    requires
        gen@.len() == kill@.len(),
        gen@.len() == out@.len(),
    ensures
        r@.len() == gen@.len(),
        bits_set(r@) == bits_set(gen@).union(bits_set(out@).difference(bits_set(kill@))),
{
    let mut r: Vec<bool> = Vec::new();
    let mut i: usize = 0;
    while i < gen.len()
        invariant
            gen@.len() == kill@.len(),
            gen@.len() == out@.len(),
            i <= gen@.len(),
            r@.len() == i,
            forall|j: int| 0 <= j < i ==> #[trigger] r@[j] == (gen@[j] || (out@[j] && !kill@[j])),
        decreases gen@.len() - i,
    {
        r.push(gen[i] || (out[i] && !kill[i]));
        i = i + 1;
    }
    assert(bits_set(r@) =~= bits_set(gen@).union(bits_set(out@).difference(bits_set(kill@))));
    r
}

/// Whether two bitmaps are equal.
fn same_bits(a: &Vec<bool>, b: &Vec<bool>) -> (r: bool)
    ensures
        r == (a@ == b@),
{
    if a.len() != b.len() {
        return false;
    }
    let mut i: usize = 0;
    while i < a.len()
        invariant
            a@.len() == b@.len(),
            i <= a@.len(),
            forall|j: int| 0 <= j < i ==> a@[j] == b@[j],
        decreases a@.len() - i,
    {
        if a[i] != b[i] {
            return false;
        }
        i = i + 1;
    }
    assert(a@ =~= b@);
    true
}

proof fn lemma_subset_bits(a: Seq<bool>, b: Seq<bool>)
    requires
        a.len() == b.len(),
        a.len() <= usize::MAX,
        bits_set(a).subset_of(bits_set(b)),
    ensures
        forall|i: int| 0 <= i < a.len() && #[trigger] a[i] ==> b[i],
{
    assert forall|i: int| 0 <= i < a.len() && #[trigger] a[i] implies b[i] by {
        assert(bits_set(a).contains(i as usize));
    }
}

/// A bound above every temporary a block reads, at least `m0`.
fn block_read_bound(blk: &BasicBlock, m0: usize) -> (m: usize)
    requires
        forall|k: int, j: int|
            0 <= k < run_of(*blk).len() && 0 <= j < read_ids(run_of(*blk)[k]).len() ==> #[trigger] read_ids(
                run_of(*blk)[k],
            )[j] < usize::MAX,
    ensures
        m >= m0,
        forall|k: int, j: int|
            0 <= k < run_of(*blk).len() && 0 <= j < read_ids(run_of(*blk)[k]).len() ==> #[trigger] read_ids(
                run_of(*blk)[k],
            )[j] < m,
{
    let ghost run = run_of(*blk);
    let mut m = m0;
    let mut k: usize = 0;
    let n = blk.body.len();
    while k < n
        invariant
            run == run_of(*blk),
            n == blk.body@.len(),
            k <= n,
            m >= m0,
            forall|kk: int, j: int| 0 <= kk < run.len() && 0 <= j < read_ids(run[kk]).len() ==> #[trigger] read_ids(run[kk])[j] < usize::MAX,
            forall|kk: int, j: int| 0 <= kk < k && 0 <= j < read_ids(run[kk]).len() ==> #[trigger] read_ids(run[kk])[j] < m,
        decreases n - k,
    {
        let ids = get_uses(&blk.body[k]);
        proof {
            assert(run[k as int] == blk.body@[k as int]);
        }
        let mut j: usize = 0;
        let ghost m_before = m;
        while j < ids.len()
            invariant
                ids@ == read_ids(run[k as int]),
                j <= ids@.len(),
                m >= m_before,
                forall|jj: int| 0 <= jj < ids@.len() ==> #[trigger] ids@[jj] < usize::MAX,
                forall|jj: int| 0 <= jj < j ==> #[trigger] ids@[jj] < m,
            decreases ids@.len() - j,
        {
            if ids[j] >= m {
                m = ids[j] + 1;
            }
            j = j + 1;
        }
        k = k + 1;
    }
    if let Some(t) = &blk.terminator {
        let ids = get_uses(t);
        proof {
            assert(run[n as int] == *t);
        }
        let mut j: usize = 0;
        let ghost m_before = m;
        while j < ids.len()
            invariant
                ids@ == read_ids(run[n as int]),
                j <= ids@.len(),
                m >= m_before,
                forall|jj: int| 0 <= jj < ids@.len() ==> #[trigger] ids@[jj] < usize::MAX,
                forall|jj: int| 0 <= jj < j ==> #[trigger] ids@[jj] < m,
            decreases ids@.len() - j,
        {
            if ids[j] >= m {
                m = ids[j] + 1;
            }
            j = j + 1;
        }
    }
    m
}

/// Bitmap of what is live on exit from block `b`: the union of the entries of its
/// existing successors.
fn live_out_bits(ctx: &IRContext, ins: &Vec<Vec<bool>>, b: usize, m: usize) -> (r: Vec<bool>)
    requires
        ctx.wf(),
        b < ctx.slots().len(),
        ctx.slots()[b as int] is Some,
        ins@.len() == ctx.slots().len(),
        rows_of_width(ins@, m as nat),
    ensures
        r@.len() == m,
        bits_set(r@) == live_out_of(ctx.slots(), row_sets(ins@), b as int),
{
    let ghost s = ctx.slots();
    let ghost sets = row_sets(ins@);
    proof { lemma_wf_slots(*ctx); }
    let blk = match ctx.get_block(Label(b)) {
        Some(blk) => blk,
        None => {
            proof {
                assert(false);
            }
            return empty_bits(m);
        },
    };
    let succ = get_successors_of_block(blk);
    let mut r = empty_bits(m);
    let mut j: usize = 0;
    while j < succ.len()
        invariant
            ctx.wf(),
            s == ctx.slots(),
            sets == row_sets(ins@),
            ins@.len() == s.len(),
            rows_of_width(ins@, m as nat),
            succ@ == succs(*blk),
            j <= succ@.len(),
            r@.len() == m,
            bits_set(r@) == Set::new(|x: usize| exists|jj: int| 0 <= jj < j && slot_exists(s, #[trigger] succ@[jj]) && sets[succ@[jj].0 as int].contains(x)),
        decreases succ@.len() - j,
    {
        let l = succ[j];
        let ghost before = bits_set(r@);
        if ctx.get_block(l).is_some() {
            proof {
                lemma_wf_slots(*ctx);
                assert(ins@[l.0 as int]@.len() == m);
                assert(sets[l.0 as int] == bits_set(ins@[l.0 as int]@));
            }
            or_into(&mut r, &ins[l.0]);
        }
        proof {
            assert(bits_set(r@) =~= Set::new(|x: usize| exists|jj: int| 0 <= jj < j + 1 && slot_exists(s, #[trigger] succ@[jj]) && sets[succ@[jj].0 as int].contains(x))) by {
                assert forall|x: usize| bits_set(r@).contains(x) <==> (exists|jj: int| 0 <= jj < j + 1 && slot_exists(s, #[trigger] succ@[jj]) && sets[succ@[jj].0 as int].contains(x)) by {
                    if exists|jj: int| 0 <= jj < j + 1 && slot_exists(s, #[trigger] succ@[jj]) && sets[succ@[jj].0 as int].contains(x) {
                        let jj = choose|jj: int| 0 <= jj < j + 1 && slot_exists(s, #[trigger] succ@[jj]) && sets[succ@[jj].0 as int].contains(x);
                        if jj < j {
                            assert(before.contains(x));
                        }
                    }
                    if before.contains(x) {
                        let jj = choose|jj: int| 0 <= jj < j && slot_exists(s, #[trigger] succ@[jj]) && sets[succ@[jj].0 as int].contains(x);
                        assert(0 <= jj < j + 1);
                    }
                }
            }
        }
        j = j + 1;
    }
    proof {
        assert(bits_set(r@) =~= live_out_of(s, sets, b as int));
    }
    r
}

/// The liveness equations hold for the blocks below `b`.
pub open spec fn solved_below(s: Seq<Option<BasicBlock>>, ins: Seq<Set<usize>>, outs: Seq<Set<usize>>, b: int) -> bool {
    forall|c: int| 0 <= c < b ==> #[trigger] ins[c] == live_in_of(s, outs, c) && outs[c] == live_out_of(s, ins, c)
}

/// Every list is in increasing order.
pub open spec fn all_increasing(ins: Seq<Vec<usize>>, outs: Seq<Vec<usize>>, n: int) -> bool {
    forall|c: int| 0 <= c < n ==> increasing((#[trigger] ins[c])@) && increasing(outs[c]@)
}

/// The per-block facts that the fixpoint iteration keeps.
pub open spec fn gen_kill_rows(s: Seq<Option<BasicBlock>>, gens: Seq<Vec<bool>>, kills: Seq<Vec<bool>>, m: nat) -> bool {
    &&& gens.len() == s.len()
    &&& kills.len() == s.len()
    &&& rows_of_width(gens, m)
    &&& rows_of_width(kills, m)
    &&& forall|b: int| 0 <= b < s.len() && (#[trigger] s[b]) is Some ==> bits_set(gens[b]@) == gen_of(s[b]->0)
        && bits_set(kills[b]@) == kill_of(s[b]->0).intersect(below(m))
}

/// Rows of missing blocks are empty.
pub open spec fn missing_rows_empty(s: Seq<Option<BasicBlock>>, rows: Seq<Vec<bool>>) -> bool {
    forall|b: int| 0 <= b < s.len() && (#[trigger] s[b]) is None ==> bits_set(rows[b]@) == Set::<usize>::empty()
}

/// Compute the liveness of the temporaries of every block of a function: the least
/// solution of the liveness equations (what is live on entry is what the block reads
/// before writing it, and what is live on exit and not written by the block; what is
/// live on exit is what is live on entry to a successor).
pub fn analyze_liveness(ctx: &IRContext) -> (r: Liveness)
    requires
        ctx.wf(),
        reads_below(ctx.slots(), usize::MAX as nat),
    ensures
        r.live_in@.len() == ctx.slots().len(),
        r.live_out@.len() == ctx.slots().len(),
        is_liveness(ctx.slots(), list_sets(r.live_in@), list_sets(r.live_out@)),
        below_every_cover(ctx.slots(), list_sets(r.live_in@), list_sets(r.live_out@)),
        all_increasing(r.live_in@, r.live_out@, ctx.slots().len() as int),
{
    proof { lemma_wf_slots(*ctx); }
    let ghost s = ctx.slots();
    let n = ctx.label_count();
    // A bound above every temporary read.
    let mut m: usize = 0;
    let mut b: usize = 0;
    while b < n
        invariant
            ctx.wf(),
            s == ctx.slots(),
            n == s.len(),
            b <= n,
            reads_below(s, usize::MAX as nat),
            forall|c: int, k: int, j: int|
                0 <= c < b && s[c] is Some && 0 <= k < run_of(s[c]->0).len() && 0 <= j < read_ids(run_of(s[c]->0)[k]).len()
                    ==> #[trigger] read_ids(run_of(s[c]->0)[k])[j] < m,
        decreases n - b,
    {
        if let Some(blk) = ctx.get_block(Label(b)) {
            proof {
                assert forall|k: int, j: int|
                    0 <= k < run_of(*blk).len() && 0 <= j < read_ids(run_of(*blk)[k]).len() implies #[trigger] read_ids(
                        run_of(*blk)[k],
                    )[j] < usize::MAX by {
                    assert(s[b as int]->0 == *blk);
                }
            }
            m = block_read_bound(blk, m);
        }
        b = b + 1;
    }
    // What each block reads before writing it, and what it writes.
    let mut gens: Vec<Vec<bool>> = Vec::new();
    let mut kills: Vec<Vec<bool>> = Vec::new();
    let mut b: usize = 0;
    while b < n
        invariant
            ctx.wf(),
            s == ctx.slots(),
            n == s.len(),
            b <= n,
            gens@.len() == b,
            kills@.len() == b,
            rows_of_width(gens@, m as nat),
            rows_of_width(kills@, m as nat),
            reads_below(s, m as nat),
            forall|c: int| 0 <= c < b && (#[trigger] s[c]) is Some ==> bits_set(gens@[c]@) == gen_of(s[c]->0)
                && bits_set(kills@[c]@) == kill_of(s[c]->0).intersect(below(m as nat)),
        decreases n - b,
    {
        match ctx.get_block(Label(b)) {
            Some(blk) => {
                proof {
                    assert(s[b as int]->0 == *blk);
                }
                let (g, k) = block_gen_kill(blk, m);
                gens.push(g);
                kills.push(k);
            },
            None => {
                gens.push(empty_bits(m));
                kills.push(empty_bits(m));
            },
        }
        b = b + 1;
    }
    // The sets start empty, and grow until they solve the equations.
    let mut ins: Vec<Vec<bool>> = Vec::new();
    let mut outs: Vec<Vec<bool>> = Vec::new();
    while ins.len() < n
        invariant
            ins@.len() == outs@.len(),
            ins@.len() <= n,
            rows_of_width(ins@, m as nat),
            rows_of_width(outs@, m as nat),
            forall|c: int| 0 <= c < ins@.len() ==> bits_set((#[trigger] ins@[c])@) == Set::<usize>::empty()
                && bits_set(outs@[c]@) == Set::<usize>::empty(),
        decreases n - ins@.len(),
    {
        ins.push(empty_bits(m));
        outs.push(empty_bits(m));
    }
    proof {
        let ins_s = row_sets(ins@);
        let outs_s = row_sets(outs@);
        assert forall|c: int| 0 <= c < s.len() implies (#[trigger] ins_s[c]).subset_of(live_in_of(s, outs_s, c))
            && outs_s[c].subset_of(live_out_of(s, ins_s, c)) by {
            assert(bits_set(ins@[c]@) == Set::<usize>::empty());
            assert(ins_s[c] == bits_set(ins@[c]@));
            assert(outs_s[c] == bits_set(outs@[c]@));
        }
        assert forall|ins2: Seq<Set<usize>>, outs2: Seq<Set<usize>>| #[trigger] covers_liveness(s, ins2, outs2)
            implies pointwise_subset(ins_s, ins2) && pointwise_subset(outs_s, outs2) by {
            assert forall|c: int| 0 <= c < ins_s.len() implies (#[trigger] ins_s[c]).subset_of(ins2[c]) by {
                assert(ins_s[c] == bits_set(ins@[c]@));
            }
            assert forall|c: int| 0 <= c < outs_s.len() implies (#[trigger] outs_s[c]).subset_of(outs2[c]) by {
                assert(bits_set(ins@[c]@) == Set::<usize>::empty());
                assert(outs_s[c] == bits_set(outs@[c]@));
            }
        }
        lemma_rows_count(ins@, ins@);
        lemma_rows_count(outs@, outs@);
        assert forall|c: int| 0 <= c < s.len() && (#[trigger] s[c]) is None implies bits_set(outs@[c]@) == Set::<usize>::empty() by {
            assert(bits_set(ins@[c]@) == Set::<usize>::empty());
        }
    }
    let ghost size_in = rows_size(ins@);
    let ghost size_out = rows_size(outs@);
    loop
        invariant
            ctx.wf(),
            s == ctx.slots(),
            n == s.len(),
            gen_kill_rows(s, gens@, kills@, m as nat),
            ins@.len() == n,
            outs@.len() == n,
            rows_of_width(ins@, m as nat),
            rows_of_width(outs@, m as nat),
            missing_rows_empty(s, ins@),
            missing_rows_empty(s, outs@),
            below_equations(s, row_sets(ins@), row_sets(outs@)),
            below_every_cover(s, row_sets(ins@), row_sets(outs@)),
            rows_size(ins@) == size_in,
            rows_size(outs@) == size_out,
            rows_count(ins@) <= size_in,
            rows_count(outs@) <= size_out,
        ensures
            is_liveness(s, row_sets(ins@), row_sets(outs@)),
        decreases (size_in - rows_count(ins@)) + (size_out - rows_count(outs@)),
    {
        let ghost count0 = rows_count(ins@) + rows_count(outs@);
        let ghost ins0 = ins@;
        let ghost outs0 = outs@;
        let mut changed = false;
        let mut b: usize = 0;
        while b < n
            invariant
                ctx.wf(),
                s == ctx.slots(),
                n == s.len(),
                b <= n,
                gen_kill_rows(s, gens@, kills@, m as nat),
                ins@.len() == n,
                outs@.len() == n,
                rows_of_width(ins@, m as nat),
                rows_of_width(outs@, m as nat),
                missing_rows_empty(s, ins@),
                missing_rows_empty(s, outs@),
                below_equations(s, row_sets(ins@), row_sets(outs@)),
                below_every_cover(s, row_sets(ins@), row_sets(outs@)),
                rows_size(ins@) == size_in,
                rows_size(outs@) == size_out,
                rows_count(ins@) <= size_in,
                rows_count(outs@) <= size_out,
                rows_count(ins@) + rows_count(outs@) >= count0,
                changed ==> rows_count(ins@) + rows_count(outs@) > count0,
                !changed ==> ins@ == ins0 && outs@ == outs0,
                !changed ==> solved_below(s, row_sets(ins@), row_sets(outs@), b as int),
            decreases n - b,
        {
            let ghost ins_start = ins@;
            let ghost outs_start = outs@;
            if ctx.get_block(Label(b)).is_some() {
                let ghost ins_b = ins@;
                let ghost outs_b = outs@;
                let ghost sin = row_sets(ins@);
                let ghost sout = row_sets(outs@);
                let new_out = live_out_bits(ctx, &ins, b, m);
                let new_in = transfer(&gens[b], &kills[b], &new_out);
                proof {
                    let blk = s[b as int]->0;
                    assert(bits_set(gens@[b as int]@) == gen_of(blk));
                    assert(bits_set(new_in@) =~= live_in_of(s, sout.update(b as int, bits_set(new_out@)), b as int));
                    lemma_update_step(s, sin, sout, b as int);
                }
                let same_in = same_bits(&new_in, &ins[b]);
                if !same_in {
                    ins.set(b, new_in);
                    changed = true;
                }
                let same_out = same_bits(&new_out, &outs[b]);
                if !same_out {
                    outs.set(b, new_out);
                    changed = true;
                }
                proof {
                    let new_in_s = live_in_of(s, sout.update(b as int, live_out_of(s, sin, b as int)), b as int);
                    assert(row_sets(ins@) =~= sin.update(b as int, new_in_s));
                    assert(row_sets(outs@) =~= sout.update(b as int, live_out_of(s, sin, b as int)));
                    // Rows only grow, so the counts do not drop.
                    assert forall|r: int, i: int| 0 <= r < ins_b.len() && 0 <= i < ins_b[r]@.len() && #[trigger] ins_b[r]@[i]
                        implies ins@[r]@[i] by {
                        assert(sin[r] == bits_set(ins_b[r]@));
                        assert(row_sets(ins@)[r] == bits_set(ins@[r]@));
                        assert(sin[r].subset_of(row_sets(ins@)[r]));
                        lemma_subset_bits(ins_b[r]@, ins@[r]@);
                    }
                    assert forall|r: int, i: int| 0 <= r < outs_b.len() && 0 <= i < outs_b[r]@.len() && #[trigger] outs_b[r]@[i]
                        implies outs@[r]@[i] by {
                        assert(sout[r] == bits_set(outs_b[r]@));
                        assert(row_sets(outs@)[r] == bits_set(outs@[r]@));
                        assert(sout[r].subset_of(row_sets(outs@)[r]));
                        lemma_subset_bits(outs_b[r]@, outs@[r]@);
                    }
                    lemma_rows_count(ins_b, ins@);
                    lemma_rows_count(outs_b, outs@);
                    if !same_in {
                        assert(ins_b[b as int]@ != ins@[b as int]@);
                    }
                    if !same_out {
                        assert(outs_b[b as int]@ != outs@[b as int]@);
                    }
                    if same_in && same_out {
                        assert(ins@ == ins_b && outs@ == outs_b);
                        assert(row_sets(ins@) == sin && row_sets(outs@) == sout);
                        assert(row_sets(outs@)[b as int] == bits_set(new_out@));
                        assert(row_sets(ins@)[b as int] == live_in_of(s, row_sets(outs@), b as int));
                        assert(row_sets(outs@)[b as int] == live_out_of(s, row_sets(ins@), b as int));
                    }
                }
            } else {
                proof {
                    assert(s[b as int] is None);
                    assert(row_sets(ins@)[b as int] == bits_set(ins@[b as int]@));
                    assert(row_sets(outs@)[b as int] == bits_set(outs@[b as int]@));
                    assert(row_sets(ins@)[b as int] == live_in_of(s, row_sets(outs@), b as int));
                    assert(row_sets(outs@)[b as int] == live_out_of(s, row_sets(ins@), b as int));
                }
            }
            proof {
                if !changed {
                    assert(ins@ == ins_start && outs@ == outs_start);
                    let si = row_sets(ins@);
                    let so = row_sets(outs@);
                    assert(si == row_sets(ins_start) && so == row_sets(outs_start));
                    assert(solved_below(s, si, so, b as int));
                    assert(si[b as int] == live_in_of(s, so, b as int) && so[b as int] == live_out_of(s, si, b as int));
                    assert forall|c: int| 0 <= c < b + 1 implies #[trigger] si[c] == live_in_of(s, so, c) && so[c] == live_out_of(s, si, c) by {
                        if c < b {
                            assert(si[c] == live_in_of(s, so, c));
                        }
                    }
                    assert(solved_below(s, si, so, b + 1));
                }
            }
            b = b + 1;
        }
        if !changed {
            proof {
                assert(b == n);
                assert(solved_below(s, row_sets(ins@), row_sets(outs@), n as int));
            }
            break;
        }
    }
    let mut live_in: Vec<Vec<usize>> = Vec::new();
    let mut live_out: Vec<Vec<usize>> = Vec::new();
    let mut b: usize = 0;
    while b < n
        invariant
            b <= n,
            ins@.len() == n,
            outs@.len() == n,
            live_in@.len() == b,
            live_out@.len() == b,
            forall|c: int| 0 <= c < b ==> (#[trigger] live_in@[c])@.to_set() == bits_set(ins@[c]@)
                && live_out@[c]@.to_set() == bits_set(outs@[c]@),
            all_increasing(live_in@, live_out@, b as int),
        decreases n - b,
    {
        let ghost li = live_in@;
        let ghost lo = live_out@;
        let l_in = bits_to_list(&ins[b]);
        let l_out = bits_to_list(&outs[b]);
        live_in.push(l_in);
        live_out.push(l_out);
        proof {
            assert forall|c: int| 0 <= c < b + 1 implies (#[trigger] live_in@[c])@.to_set() == bits_set(ins@[c]@)
                && live_out@[c]@.to_set() == bits_set(outs@[c]@) by {
                if c < b {
                    assert(live_in@[c] == li[c] && live_out@[c] == lo[c]);
                    assert(li[c]@.to_set() == bits_set(ins@[c]@));
                }
            }
            assert forall|c: int| 0 <= c < b + 1 implies increasing((#[trigger] live_in@[c])@) && increasing(live_out@[c]@) by {
                if c < b {
                    assert(live_in@[c] == li[c] && live_out@[c] == lo[c]);
                    assert(increasing(li[c]@));
                }
            }
        }
        b = b + 1;
    }
    proof {
        assert forall|c: int| 0 <= c < n implies #[trigger] list_sets(live_out@)[c] == row_sets(outs@)[c] by {
            assert(live_in@[c]@.to_set() == bits_set(ins@[c]@));
        }
        assert(all_increasing(live_in@, live_out@, n as int));
        assert(list_sets(live_in@) =~= row_sets(ins@));
        assert(list_sets(live_out@) =~= row_sets(outs@));
    }
    Liveness { live_in, live_out }
}

} // verus!
