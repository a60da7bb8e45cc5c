//! Scalar replacement of aggregates: forwarding stored values to later loads of the
//! same address within a block.
use vstd::prelude::*;

use crate::alias::{operand_target, AddressClass, AliasInfo, PointerTarget};
use crate::ir::{lemma_wf_slots, BasicBlock, IRContext, Instr, Operand};

verus! {

/// The address class an operand points at, if the analysis knows one.
pub open spec fn class_of(op: Operand, info: AliasInfo) -> Option<AddressClass> {
    match operand_target(op, info.target_map()) {
        Some(PointerTarget::Class(c)) => Some(c),
        _ => None,
    }
}

/// The known values at addresses whose allocation does not escape.
pub open spec fn without_escaping(known: Map<AddressClass, Operand>, info: AliasInfo) -> Map<AddressClass, Operand> {
    Map::new(
        |c: AddressClass| known.contains_key(c) && !info.escaping_set().contains(c.alloc_id),
        |c: AddressClass| known[c],
    )
}

/// The values known at each address after `instr`: a store to a known address records
/// what it stores; a store through an unknown pointer, or a call, may write any
/// escaping allocation and forgets those; a load from a known address with no known
/// value records the loaded temporary.
pub open spec fn known_after(known: Map<AddressClass, Operand>, instr: Instr, info: AliasInfo) -> Map<AddressClass, Operand> {
    match instr {
        Instr::Store { addr, src } => match class_of(addr, info) {
            Some(c) => known.insert(c, src),
            None => without_escaping(known, info),
        },
        Instr::Load { dest, addr } => match class_of(addr, info) {
            Some(c) => if known.contains_key(c) {
                known
            } else {
                known.insert(c, Operand::Temp(dest))
            },
            None => known,
        },
        Instr::Call { .. } => without_escaping(known, info),
        Instr::TailCall { .. } => without_escaping(known, info),
        _ => known,
    }
}

/// The values known at each address before instruction `k` of `body`.
pub open spec fn known_before(body: Seq<Instr>, k: int, info: AliasInfo) -> Map<AddressClass, Operand>
    decreases k,
{
    if k <= 0 {
        Map::empty()
    } else {
        known_after(known_before(body, k - 1, info), body[k - 1], info)
    }
}

/// The move that replaces `instr`, a load from an address whose value is known.
pub open spec fn forwarded(known: Map<AddressClass, Operand>, instr: Instr, info: AliasInfo) -> Option<Instr> {
    match instr {
        Instr::Load { dest, addr } => match class_of(addr, info) {
            Some(c) => if known.contains_key(c) {
                Some(Instr::Move { dest, src: known[c] })
            } else {
                None
            },
            None => None,
        },
        _ => None,
    }
}

/// `new` is block body `body` with each load of a known value replaced by a move of it.
pub open spec fn body_forwarded(body: Seq<Instr>, new: Seq<Instr>, info: AliasInfo) -> bool {
    &&& new.len() == body.len()
    &&& forall|i: int| 0 <= i < body.len() ==> #[trigger] new[i] == match forwarded(known_before(body, i, info), body[i], info) {
        Some(m) => m,
        None => body[i],
    }
}

/// Some load of `body` is forwarded.
pub open spec fn body_forwards(body: Seq<Instr>, info: AliasInfo) -> bool {
    exists|i: int| 0 <= i < body.len() && #[trigger] forwarded(known_before(body, i, info), body[i], info) is Some
}

/// The map that a list of (address, value) pairs stands for: later pairs override
/// earlier ones.
pub open spec fn pairs_map(v: Seq<(AddressClass, Operand)>) -> Map<AddressClass, Operand>
    decreases v.len(),
{
    if v.len() == 0 {
        Map::empty()
    } else {
        pairs_map(v.drop_last()).insert(v.last().0, v.last().1)
    }
}

/// The pairs whose allocation does not escape.
pub open spec fn pairs_kept(v: Seq<(AddressClass, Operand)>, info: AliasInfo) -> Seq<(AddressClass, Operand)>
    decreases v.len(),
{
    if v.len() == 0 {
        v
    } else if info.escaping_set().contains(v.last().0.alloc_id) {
        pairs_kept(v.drop_last(), info)
    } else {
        pairs_kept(v.drop_last(), info).push(v.last())
    }
}

proof fn lemma_pairs_kept(v: Seq<(AddressClass, Operand)>, info: AliasInfo)
    ensures
        pairs_map(pairs_kept(v, info)) == without_escaping(pairs_map(v), info),
    decreases v.len(),
{
    if v.len() > 0 {
        lemma_pairs_kept(v.drop_last(), info);
        let kept = pairs_kept(v, info);
        if !info.escaping_set().contains(v.last().0.alloc_id) {
            assert(kept.drop_last() == pairs_kept(v.drop_last(), info));
        }
        assert(pairs_map(kept) =~= without_escaping(pairs_map(v), info));
    } else {
        assert(pairs_map(pairs_kept(v, info)) =~= without_escaping(pairs_map(v), info));
    }
}

proof fn lemma_pairs_lookup(v: Seq<(AddressClass, Operand)>, c: AddressClass, i: int)
    requires
        -1 <= i < v.len(),
        forall|j: int| i < j < v.len() ==> (#[trigger] v[j]).0 != c,
    ensures
        i >= 0 && v[i].0 == c ==> pairs_map(v).contains_key(c) && pairs_map(v)[c] == v[i].1,
        pairs_map(v).contains_key(c) == pairs_map(v.take(i + 1)).contains_key(c),
        pairs_map(v).contains_key(c) ==> pairs_map(v)[c] == pairs_map(v.take(i + 1))[c],
    decreases v.len(),
{
    if v.len() > 0 && i < v.len() - 1 {
        lemma_pairs_lookup(v.drop_last(), c, i);
        assert(v.drop_last().take(i + 1) =~= v.take(i + 1));
    } else if v.len() > 0 {
        assert(v.take(i + 1) =~= v);
    }
}

/// The value recorded for address class `c`, searching from the latest pair.
fn lookup_value(v: &Vec<(AddressClass, Operand)>, c: AddressClass) -> (r: Option<Operand>)
    ensures
        r == (if pairs_map(v@).contains_key(c) {
            Some(pairs_map(v@)[c])
        } else {
            None::<Operand>
        }),
{
    let mut i: usize = v.len();
    while i > 0
        invariant
            i <= v@.len(),
            forall|j: int| i <= j < v@.len() ==> (#[trigger] v@[j]).0 != c,
        decreases i,
    {
        if v[i - 1].0 == c {
            proof {
                lemma_pairs_lookup(v@, c, i - 1);
            }
            return Some(v[i - 1].1.clone());
        }
        i = i - 1;
    }
    proof {
        lemma_pairs_lookup(v@, c, -1);
        assert(v@.take(0) =~= Seq::<(AddressClass, Operand)>::empty());
    }
    None
}

/// Forget the values at escaping allocations.
fn drop_escaping(v: Vec<(AddressClass, Operand)>, info: &AliasInfo) -> (r: Vec<(AddressClass, Operand)>)
    ensures
        pairs_map(r@) == without_escaping(pairs_map(v@), *info),
{
    let mut kept: Vec<(AddressClass, Operand)> = Vec::new();
    let mut i: usize = 0;
    proof {
        assert(v@.take(0) =~= Seq::<(AddressClass, Operand)>::empty());
    }
    while i < v.len()
        invariant
            i <= v@.len(),
            kept@ == pairs_kept(v@.take(i as int), *info),
        decreases v@.len() - i,
    {
        proof {
            assert(v@.take(i + 1).drop_last() =~= v@.take(i as int));
        }
        if !info.escapes(v[i].0.alloc_id) {
            kept.push((v[i].0, v[i].1.clone()));
        }
        i = i + 1;
    }
    proof {
        assert(v@.take(v@.len() as int) =~= v@);
        lemma_pairs_kept(v@, *info);
    }
    kept
}

/// Forward stored values to later loads within one block body.
fn forward_body(body: Vec<Instr>, info: &AliasInfo) -> (r: (Vec<Instr>, bool))
    ensures
        body_forwarded(body@, r.0@, *info),
        r.1 == body_forwards(body@, *info),
{
    let ghost b0 = body@;
    let mut body = body;
    let mut known: Vec<(AddressClass, Operand)> = Vec::new();
    let mut new_body: Vec<Instr> = Vec::new();
    let mut changed = false;
    let mut k: usize = 0;
    while k < body.len()
        invariant
            body@.len() == b0.len(),
            k <= b0.len(),
            forall|j: int| k <= j < b0.len() ==> body@[j] == b0[j],
            pairs_map(known@) == known_before(b0, k as int, *info),
            new_body@.len() == k,
            forall|i: int| 0 <= i < k ==> #[trigger] new_body@[i] == match forwarded(known_before(b0, i, *info), b0[i], *info) {
                Some(m) => m,
                None => b0[i],
            },
            changed == exists|i: int| 0 <= i < k && #[trigger] forwarded(known_before(b0, i, *info), b0[i], *info) is Some,
        decreases b0.len() - k,
    {
        let ghost kb = known@;
        let mut x = Instr::Return(None);
        std::mem::swap(&mut x, &mut body[k]);
        let mut this_forwarded = false;
        match x {
            Instr::Store { addr, src } => {
                match info.classify_operand(&addr) {
                    Some(c) => {
                        known.push((c, src.clone()));
                        assert(known@.drop_last() =~= kb);
                    },
                    None => {
                        known = drop_escaping(known, info);
                    },
                }
                new_body.push(Instr::Store { addr, src });
            },
            Instr::Load { dest, addr } => {
                match info.classify_operand(&addr) {
                    Some(c) => {
                        match lookup_value(&known, c) {
                            Some(prev) => {
                                new_body.push(Instr::Move { dest, src: prev });
                                this_forwarded = true;
                            },
                            None => {
                                known.push((c, Operand::Temp(crate::ir::duplicate_temp(&dest))));
                                assert(known@.drop_last() =~= kb);
                                new_body.push(Instr::Load { dest, addr });
                            },
                        }
                    },
                    None => {
                        new_body.push(Instr::Load { dest, addr });
                    },
                }
            },
            Instr::Call { dest, name, args } => {
                known = drop_escaping(known, info);
                new_body.push(Instr::Call { dest, name, args });
            },
            Instr::TailCall { name, args } => {
                known = drop_escaping(known, info);
                new_body.push(Instr::TailCall { name, args });
            },
            other => {
                new_body.push(other);
            },
        }
        proof {
            assert(known_before(b0, k + 1, *info) == known_after(known_before(b0, k as int, *info), b0[k as int], *info));
        }
        if this_forwarded {
            changed = true;
        }
        proof {
            assert(this_forwarded == forwarded(known_before(b0, k as int, *info), b0[k as int], *info) is Some);
            if this_forwarded {
                assert(forwarded(known_before(b0, k as int, *info), b0[k as int], *info) is Some);
            }
        }
        k = k + 1;
    }
    (new_body, changed)
}

/// Forward stores to later loads of the same address within each block: a load from an
/// address whose value is known (see `known_after`) becomes a move of that value.
/// Returns whether some load was forwarded.
pub fn local_forward(ctx: &mut IRContext, alias_analysis: &AliasInfo) -> (changed: bool)
    requires
        old(ctx).wf(),
    ensures
        final(ctx).wf(),
        final(ctx).labels() == old(ctx).labels(),
        final(ctx).temps() == old(ctx).temps(),
        final(ctx).slots().len() == old(ctx).slots().len(),
        forall|j: int| 0 <= j < old(ctx).slots().len() ==> (#[trigger] final(ctx).slots()[j] is Some) == (
        old(ctx).slots()[j] is Some),
        forall|j: int| 0 <= j < old(ctx).slots().len() && #[trigger] old(ctx).slots()[j] is Some ==> {
            let a = old(ctx).slots()[j]->0;
            let b = final(ctx).slots()[j]->0;
            &&& b == (BasicBlock { body: b.body, ..a })
            &&& body_forwarded(a.body@, b.body@, *alias_analysis)
        },
        changed == exists|j: int| 0 <= j < old(ctx).slots().len() && #[trigger] old(ctx).slots()[j] is Some
            && body_forwards(old(ctx).slots()[j]->0.body@, *alias_analysis),
{
    let ghost s0 = ctx.slots();
    proof { lemma_wf_slots(*ctx); }
    let n = ctx.get_blocks().len();
    let mut changed = false;
    let mut j: usize = 0;
    while j < n
        invariant
            ctx.wf(),
            n == s0.len(),
            s0 == old(ctx).slots(),
            ctx.labels() == old(ctx).labels(),
            ctx.temps() == old(ctx).temps(),
            ctx.slots().len() == s0.len(),
            j <= n,
            forall|i: int| j <= i < s0.len() ==> #[trigger] ctx.slots()[i] == s0[i],
            forall|i: int| 0 <= i < j ==> (#[trigger] ctx.slots()[i] is Some) == (s0[i] is Some),
            forall|i: int| 0 <= i < j && #[trigger] s0[i] is Some ==> {
                let a = s0[i]->0;
                let b = ctx.slots()[i]->0;
                &&& b == (BasicBlock { body: b.body, ..a })
                &&& body_forwarded(a.body@, b.body@, *alias_analysis)
            },
            changed == exists|i: int| 0 <= i < j && #[trigger] s0[i] is Some && body_forwards(s0[i]->0.body@, *alias_analysis),
        decreases n - j,
    {
        let l = crate::ir::Label(j);
        if ctx.get_block(l).is_some() {
            let ghost before = ctx.slots();
            let body = ctx.replace_block_body(l, Vec::new());
            let (new_body, block_changed) = forward_body(body, alias_analysis);
            ctx.replace_block_body(l, new_body);
            if block_changed {
                changed = true;
            }
            proof {
                lemma_wf_slots(*ctx);
                assert(ctx.slots()[j as int]->0 == (BasicBlock { body: ctx.slots()[j as int]->0.body, ..s0[j as int]->0 }));
                if block_changed {
                    assert(s0[j as int] is Some && body_forwards(s0[j as int]->0.body@, *alias_analysis));
                }
            }
        }
        j = j + 1;
    }
    changed
}

} // verus!
