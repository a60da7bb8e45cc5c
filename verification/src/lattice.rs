//! The constant-propagation lattice: undefined, one constant, or overdefined.
use vstd::prelude::*;

use crate::ast::{Typ, TypV};
use crate::ir::Operand;

verus! {

/// Possible states of a value in data-flow analysis.
pub enum LatticeValue {
    /// Value is undetermined.
    Undefined,
    /// Value is a known constant.
    Const((i64, Typ)),
    /// Value could be one of many.
    Overdefined,
}

/// Mathematical model of a lattice value, its type taken by its view.
pub enum LatticeV {
    Undefined,
    Const(i64, TypV),
    Overdefined,
}

impl View for LatticeValue {
    type V = LatticeV;

    open spec fn view(&self) -> LatticeV {
        match self {
            LatticeValue::Undefined => LatticeV::Undefined,
            LatticeValue::Const(c) => LatticeV::Const(c.0, c.1@),
            LatticeValue::Overdefined => LatticeV::Overdefined,
        }
    }
}

impl Clone for LatticeValue {
    fn clone(&self) -> (r: LatticeValue)
        ensures
            r == *self,
    {
        match self {
            LatticeValue::Undefined => LatticeValue::Undefined,
            LatticeValue::Const(c) => LatticeValue::Const((c.0, c.1.duplicate())),
            LatticeValue::Overdefined => LatticeValue::Overdefined,
        }
    }
}

/// Join of two lattice values met on different control-flow paths.
pub open spec fn join_spec(a: LatticeV, b: LatticeV) -> LatticeV {
    match (a, b) {
        (LatticeV::Undefined, v) => v,
        (v, LatticeV::Undefined) => v,
        (LatticeV::Const(x, t), LatticeV::Const(y, u)) => if x == y && t == u {
            LatticeV::Const(x, t)
        } else {
            LatticeV::Overdefined
        },
        _ => LatticeV::Overdefined,
    }
}

/// `a` is below `b` in the lattice.
pub open spec fn below(a: LatticeV, b: LatticeV) -> bool {
    join_spec(a, b) == b
}

/// Whether two lattice values are equal.
pub fn same_value(a: &LatticeValue, b: &LatticeValue) -> (r: bool)
    ensures
        r == (a@ == b@),
{
    match (a, b) {
        (LatticeValue::Undefined, LatticeValue::Undefined) => true,
        (LatticeValue::Overdefined, LatticeValue::Overdefined) => true,
        (LatticeValue::Const(x), LatticeValue::Const(y)) => x.0 == y.0 && x.1.same(&y.1),
        _ => false,
    }
}

/// Combine two lattice values from control-flow paths and return the resulting value.
pub fn join_lattice(lhs: LatticeValue, rhs: LatticeValue) -> (r: LatticeValue)
    ensures
        r@ == join_spec(lhs@, rhs@),
{
    match (lhs, rhs) {
        (LatticeValue::Undefined, value) => value,
        (value, LatticeValue::Undefined) => value,
        (LatticeValue::Const(l), LatticeValue::Const(r)) => {
            if l.0 == r.0 && l.1.same(&r.1) {
                LatticeValue::Const(l)
            } else {
                LatticeValue::Overdefined
            }
        },
        _ => LatticeValue::Overdefined,
    }
}

/// Join is commutative.
pub proof fn lemma_join_commutative(a: LatticeV, b: LatticeV)
    ensures
        join_spec(a, b) == join_spec(b, a),
{
}

/// Join is associative.
pub proof fn lemma_join_associative(a: LatticeV, b: LatticeV, c: LatticeV)
    ensures
        join_spec(join_spec(a, b), c) == join_spec(a, join_spec(b, c)),
{
}

/// Join is idempotent.
pub proof fn lemma_join_idempotent(a: LatticeV)
    ensures
        join_spec(a, a) == a,
{
}

/// Undefined is the identity of join, and overdefined absorbs every value.
pub proof fn lemma_join_bounds(a: LatticeV)
    ensures
        join_spec(LatticeV::Undefined, a) == a,
        join_spec(a, LatticeV::Undefined) == a,
        join_spec(LatticeV::Overdefined, a) == LatticeV::Overdefined,
        join_spec(a, LatticeV::Overdefined) == LatticeV::Overdefined,
{
}

/// The join is an upper bound of both its arguments, and the least one.
pub proof fn lemma_join_least_upper_bound(a: LatticeV, b: LatticeV, c: LatticeV)
    ensures
        below(a, join_spec(a, b)),
        below(b, join_spec(a, b)),
        below(a, c) && below(b, c) ==> below(join_spec(a, b), c),
{
}

/// The known states of temporaries, by temporary id.
pub type Lattice = Vec<(usize, LatticeValue)>;

/// State of temporary `id` in a lattice: its recorded value, or undefined.
pub open spec fn lattice_get(l: Seq<(usize, LatticeValue)>, id: usize) -> LatticeV {
    if exists|i: int| 0 <= i < l.len() && l[i].0 == id {
        l[choose|i: int| 0 <= i < l.len() && l[i].0 == id].1@
    } else {
        LatticeV::Undefined
    }
}

/// Recorded state of temporary `id` in a lattice, or undefined.
pub open spec fn lattice_entry(l: Seq<(usize, LatticeValue)>, id: usize) -> LatticeValue {
    if exists|i: int| 0 <= i < l.len() && l[i].0 == id {
        l[choose|i: int| 0 <= i < l.len() && l[i].0 == id].1
    } else {
        LatticeValue::Undefined
    }
}

/// Each temporary is recorded at most once.
pub open spec fn lattice_wf(l: Seq<(usize, LatticeValue)>) -> bool {
    forall|i: int, j: int| 0 <= i < l.len() && 0 <= j < l.len() && i != j ==> l[i].0 != l[j].0
}

/// Position of temporary `id` in a lattice.
fn lattice_find(lattice: &Lattice, id: usize) -> (r: Option<usize>)
    requires
        lattice_wf(lattice@),
    ensures
        r matches Some(i) ==> i < lattice@.len() && lattice@[i as int].0 == id && lattice_get(lattice@, id) == lattice@[i as int].1@,
        r is None ==> lattice_get(lattice@, id) == LatticeV::Undefined
            && forall|j: int| 0 <= j < lattice@.len() ==> lattice@[j].0 != id,
{
    let mut i: usize = 0;
    while i < lattice.len()
        invariant
            lattice_wf(lattice@),
            i <= lattice@.len(),
            forall|j: int| 0 <= j < i ==> lattice@[j].0 != id,
        decreases lattice@.len() - i,
    {
        if lattice[i].0 == id {
            proof {
                let k = choose|k: int| 0 <= k < lattice@.len() && lattice@[k].0 == id;
                assert(k == i as int);
            }
            return Some(i);
        }
        i = i + 1;
    }
    None
}

/// Update the lattice with a newly discovered value of temporary `temp_id`: its state
/// becomes the join of the old state and the new value. Returns whether it changed.
pub fn update_lattice(lattice: &mut Lattice, temp_id: usize, new: LatticeValue) -> (r: bool)
    requires
        lattice_wf(old(lattice)@),
    ensures
        lattice_wf(final(lattice)@),
        lattice_get(final(lattice)@, temp_id) == join_spec(lattice_get(old(lattice)@, temp_id), new@),
        forall|id: usize| id != temp_id ==> #[trigger] lattice_get(final(lattice)@, id) == lattice_get(old(lattice)@, id),
        r == (join_spec(lattice_get(old(lattice)@, temp_id), new@) != lattice_get(old(lattice)@, temp_id)),
        !r ==> final(lattice)@ == old(lattice)@,
{
    let pos = lattice_find(lattice, temp_id);
    let old_value = match pos {
        Some(i) => lattice[i].1.clone(),
        None => LatticeValue::Undefined,
    };
    let merged = join_lattice(old_value.clone(), new);
    if !same_value(&merged, &old_value) {
        let ghost l0 = lattice@;
        match pos {
            Some(i) => {
                lattice.set(i, (temp_id, merged));
                proof {
                    assert forall|id: usize| id != temp_id implies #[trigger] lattice_get(lattice@, id) == lattice_get(l0, id) by {
                        if exists|k: int| 0 <= k < l0.len() && l0[k].0 == id {
                            let k = choose|k: int| 0 <= k < l0.len() && l0[k].0 == id;
                            assert(lattice@[k].0 == id);
                            let k2 = choose|k2: int| 0 <= k2 < lattice@.len() && lattice@[k2].0 == id;
                            assert(k2 == k);
                        } else {
                            assert forall|k: int| 0 <= k < lattice@.len() implies lattice@[k].0 != id by {
                                if k != i {
                                    assert(lattice@[k] == l0[k]);
                                }
                            }
                        }
                    }
                    let k2 = choose|k2: int| 0 <= k2 < lattice@.len() && lattice@[k2].0 == temp_id;
                    assert(lattice@[i as int].0 == temp_id);
                    assert(k2 == i);
                }
            },
            None => {
                lattice.push((temp_id, merged));
                proof {
                    assert forall|id: usize| id != temp_id implies #[trigger] lattice_get(lattice@, id) == lattice_get(l0, id) by {
                        if exists|k: int| 0 <= k < l0.len() && l0[k].0 == id {
                            let k = choose|k: int| 0 <= k < l0.len() && l0[k].0 == id;
                            assert(lattice@[k].0 == id);
                            let k2 = choose|k2: int| 0 <= k2 < lattice@.len() && lattice@[k2].0 == id;
                            assert(k2 < l0.len());
                            assert(k2 == k);
                        } else {
                            assert forall|k: int| 0 <= k < lattice@.len() implies lattice@[k].0 != id by {
                                if k < l0.len() {
                                    assert(lattice@[k] == l0[k]);
                                }
                            }
                        }
                    }
                    assert(lattice@[l0.len() as int].0 == temp_id);
                    let k2 = choose|k2: int| 0 <= k2 < lattice@.len() && lattice@[k2].0 == temp_id;
                    assert(k2 == l0.len());
                }
            },
        }
        true
    } else {
        false
    }
}

/// Updating the lattice only moves a temporary's state up.
pub proof fn lemma_update_moves_up(old_state: LatticeV, new: LatticeV)
    ensures
        below(old_state, join_spec(old_state, new)),
{
}

/// Get the known lattice state of an operand: a constant is itself, a temporary is its
/// recorded state or undefined.
pub fn get_lattice_value_of_operand(op: &Operand, lattice: &Lattice) -> (r: LatticeValue)
    requires
        lattice_wf(lattice@),
    ensures
        r@ == match *op {
            Operand::Const(c) => LatticeV::Const(c.0, c.1@),
            Operand::Temp(t) => lattice_get(lattice@, t.0),
        },
        r == match *op {
            Operand::Const(c) => LatticeValue::Const(c),
            Operand::Temp(t) => lattice_entry(lattice@, t.0),
        },
{
    match op {
        Operand::Const(c) => LatticeValue::Const((c.0, c.1.duplicate())),
        Operand::Temp(t) => match lattice_find(lattice, t.0) {
            Some(i) => lattice[i].1.clone(),
            None => LatticeValue::Undefined,
        },
    }
}

} // verus!
