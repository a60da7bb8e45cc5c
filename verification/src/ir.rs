//! Three-address intermediate representation in SSA form.
use vstd::prelude::*;

use crate::assoc::{distinct_keys, entry_map, find_key, assoc_set, key_set};
use crate::ast::{BinOp, Ident, Typ, UnOp};

verus! {

/// Temporary (compiler-generated value store): an identifier and a type.
pub type Temp = (usize, Typ);

/// A copy of a temporary.
pub fn duplicate_temp(t: &Temp) -> (r: Temp)
    ensures
        r == *t,
{
    (t.0, t.1.duplicate())
}

/// Two temporaries are the same: same id and type.
pub open spec fn same_temp(a: Temp, b: Temp) -> bool {
    a.0 == b.0 && a.1@ == b.1@
}

/// Whether two temporaries are the same.
pub fn temps_equal(a: &Temp, b: &Temp) -> (r: bool)
    ensures
        r == same_temp(*a, *b),
{
    a.0 == b.0 && a.1.same(&b.1)
}

/// Operand to an operator.
pub enum Operand {
    /// Immediate with its type
    Const((i64, Typ)),
    /// Temporary
    Temp(Temp),
}

impl Clone for Operand {
    fn clone(&self) -> (r: Operand)
        ensures
            r == *self,
    {
        match self {
            Operand::Const(c) => Operand::Const((c.0, c.1.duplicate())),
            Operand::Temp(t) => Operand::Temp(duplicate_temp(t)),
        }
    }
}

/// Runtime exception.
#[derive(Copy, Clone, PartialEq, Eq, Structural, Debug)]
pub enum Exception {
    /// Forceful termination exception
    Abort,
}

/// Label identified by a unique integer.
#[derive(Copy, Clone, PartialEq, Eq, Structural, Debug, Hash)]
pub struct Label(pub usize);

/// Instructions of the three-address IR.
#[allow(inconsistent_fields)]
pub enum Instr {
    /// Binary operator
    BinOp { op: BinOp, dest: Temp, lhs: Operand, rhs: Operand },
    /// Unary operator
    UnOp { op: UnOp, dest: Temp, src: Operand },
    /// Label (block-start delimiter)
    Label(Label),
    /// Jump to a block
    JumpTo(Label),
    /// Conditional jump
    JumpIf { pred: Operand, holds: Label, fails: Label },
    /// Function call
    Call { dest: Option<Temp>, name: Ident, args: Vec<Operand> },
    /// Call in tail position
    TailCall { name: Ident, args: Vec<Operand> },
    /// Return from a function
    Return(Option<Operand>),
    /// Throw a runtime exception
    Throw(Exception),
    /// Phi node for control-flow merges
    Phi { dest: Temp, srcs: Vec<(Label, Operand)> },
    /// Copy value from source operand to dest temporary
    Move { dest: Temp, src: Operand },
    /// Load from memory
    Load { dest: Temp, addr: Operand },
    /// Store to memory
    Store { addr: Operand, src: Operand },
    /// Allocate a cell of the given size
    Alloc { dest: Temp, size: Operand },
    /// Allocate an array of `count` cells of the given size
    AllocArray { dest: Temp, size: Operand, count: Operand },
}

/// A copy of a list of operands.
pub fn clone_operands(v: &Vec<Operand>) -> (r: Vec<Operand>)
    ensures
        r@ == v@,
{
    let mut r: Vec<Operand> = Vec::new();
    let mut i: usize = 0;
    while i < v.len()
        invariant
            i <= v@.len(),
            r@ == v@.take(i as int),
        decreases v@.len() - i,
    {
        r.push(v[i].clone());
        proof { assert(v@.take(i as int + 1) =~= v@.take(i as int).push(v@[i as int])); }
        i = i + 1;
    }
    assert(v@.take(v@.len() as int) =~= v@);
    r
}

/// A copy of the sources of a phi node.
pub fn clone_phi_srcs(v: &Vec<(Label, Operand)>) -> (r: Vec<(Label, Operand)>)
    ensures
        r@ == v@,
{
    let mut r: Vec<(Label, Operand)> = Vec::new();
    let mut i: usize = 0;
    while i < v.len()
        invariant
            i <= v@.len(),
            r@ == v@.take(i as int),
        decreases v@.len() - i,
    {
        r.push((v[i].0, v[i].1.clone()));
        proof { assert(v@.take(i as int + 1) =~= v@.take(i as int).push(v@[i as int])); }
        i = i + 1;
    }
    assert(v@.take(v@.len() as int) =~= v@);
    r
}

/// A copy of an optional operand.
pub fn clone_opt_operand(o: &Option<Operand>) -> (r: Option<Operand>)
    ensures
        r == *o,
{
    match o {
        Some(op) => Some(op.clone()),
        None => None,
    }
}

/// A copy of an optional temporary.
pub fn clone_opt_temp(o: &Option<Temp>) -> (r: Option<Temp>)
    ensures
        r == *o,
{
    match o {
        Some(t) => Some(duplicate_temp(t)),
        None => None,
    }
}

/// Two instructions are the same, their lists compared by content.
pub open spec fn same_instr(a: Instr, b: Instr) -> bool {
    match (a, b) {
        (Instr::Call { dest: d1, name: n1, args: a1 }, Instr::Call { dest: d2, name: n2, args: a2 }) =>
            d1 == d2 && n1 == n2 && a1@ == a2@,
        (Instr::TailCall { name: n1, args: a1 }, Instr::TailCall { name: n2, args: a2 }) => n1 == n2 && a1@ == a2@,
        (Instr::Phi { dest: d1, srcs: s1 }, Instr::Phi { dest: d2, srcs: s2 }) => d1 == d2 && s1@ == s2@,
        _ => a == b,
    }
}

impl Clone for Instr {
    fn clone(&self) -> (r: Instr)
        ensures
            same_instr(r, *self),
    {
        match self {
            Instr::UnOp { op, dest, src } => Instr::UnOp { op: *op, dest: duplicate_temp(dest), src: src.clone() },
            Instr::Label(l) => Instr::Label(*l),
            Instr::JumpTo(l) => Instr::JumpTo(*l),
            Instr::JumpIf { pred, holds, fails } => Instr::JumpIf { pred: pred.clone(), holds: *holds, fails: *fails },
            Instr::Call { dest, name, args } =>
                Instr::Call { dest: clone_opt_temp(dest), name: name.clone(), args: clone_operands(args) },
            Instr::TailCall { name, args } => Instr::TailCall { name: name.clone(), args: clone_operands(args) },
            Instr::Return(o) => Instr::Return(clone_opt_operand(o)),
            Instr::Throw(e) => Instr::Throw(*e),
            Instr::Phi { dest, srcs } => Instr::Phi { dest: duplicate_temp(dest), srcs: clone_phi_srcs(srcs) },
            Instr::Move { dest, src } => Instr::Move { dest: duplicate_temp(dest), src: src.clone() },
            Instr::Load { dest, addr } => Instr::Load { dest: duplicate_temp(dest), addr: addr.clone() },
            Instr::Store { addr, src } => Instr::Store { addr: addr.clone(), src: src.clone() },
            Instr::Alloc { dest, size } => Instr::Alloc { dest: duplicate_temp(dest), size: size.clone() },
            Instr::AllocArray { dest, size, count } =>
                Instr::AllocArray { dest: duplicate_temp(dest), size: size.clone(), count: count.clone() },
            Instr::BinOp { op, dest, lhs: left, rhs: right } =>
                Instr::BinOp { op: *op, dest: duplicate_temp(dest), lhs: left.clone(), rhs: right.clone() },
        }
    }
}


/// A single basic block of the control-flow graph.
pub struct BasicBlock {
    /// The label that marks the entry of this block.
    pub label: Label,
    /// The instructions within this block.
    pub body: Vec<Instr>,
    /// The instruction that terminates this block.
    pub terminator: Option<Instr>,
    /// The labels that are direct predecessors of this block.
    pub preds: Vec<Label>,
    /// Are all predecessors of this block known?
    pub sealed: bool,
    /// The current SSA renaming of each variable in this block.
    pub current_def: Vec<(Ident, Temp)>,
    /// Phi nodes still awaiting operands from predecessor blocks.
    pub incomplete_phis: Vec<(Ident, Temp)>,
}

impl BasicBlock {
    /// Each variable is bound at most once in the renaming tables.
    pub open spec fn wf(&self) -> bool {
        distinct_keys(self.current_def@) && distinct_keys(self.incomplete_phis@)
    }

    /// Current SSA renaming of the variables of this block.
    pub open spec fn defs(&self) -> Map<Seq<char>, Temp> {
        entry_map(self.current_def@)
    }

    /// An empty, unsealed block.
    pub fn new(label: Label) -> (r: BasicBlock)
        ensures
            r.wf(),
            r.label == label,
            r.body@.len() == 0,
            r.terminator is None,
            r.preds@.len() == 0,
            !r.sealed,
            r.current_def@.len() == 0,
            r.incomplete_phis@.len() == 0,
    {
        BasicBlock {
            label,
            body: Vec::new(),
            terminator: None,
            preds: Vec::new(),
            sealed: false,
            current_def: Vec::new(),
            incomplete_phis: Vec::new(),
        }
    }
}

/// Every temporary named in a renaming table was created (its id is below `n`).
pub open spec fn temps_below(entries: Seq<(String, Temp)>, n: nat) -> bool {
    forall|i: int| 0 <= i < entries.len() ==> (#[trigger] entries[i]).1.0 < n
}

/// Context in which the SSA form of one function is built (after Braun et al.).
pub struct IRContext {
    /// Number of temporaries created (the id of the next one).
    temp_counter: usize,
    /// Number of labels created (the id of the next one).
    label_counter: usize,
    /// Basic blocks, indexed by the number of their label; removed blocks leave `None`.
    blocks: Vec<Option<BasicBlock>>,
    /// Label of the block currently being filled.
    current_block_label: Label,
    /// Trivial phi temporaries (by id) and the temporary that replaces each.
    trivial_phis: Vec<(usize, Temp)>,
    /// Type most recently assigned to each variable.
    latest_var_assignments: Vec<(Ident, Typ)>,
}

impl IRContext {
    /// Representation invariant.
    pub closed spec fn wf(&self) -> bool {
        &&& self.blocks@.len() == self.label_counter
        &&& forall|i: int| 0 <= i < self.blocks@.len() && (#[trigger] self.blocks@[i]) is Some ==> {
            &&& self.blocks@[i]->0.label.0 == i
            &&& self.blocks@[i]->0.wf()
            &&& temps_below(self.blocks@[i]->0.current_def@, self.temp_counter as nat)
            &&& temps_below(self.blocks@[i]->0.incomplete_phis@, self.temp_counter as nat)
        }
        &&& forall|i: int| 0 <= i < self.trivial_phis@.len() ==> (#[trigger] self.trivial_phis@[i]).1.0 < self.temp_counter
        &&& distinct_keys(self.latest_var_assignments@)
    }

    /// Label of the block currently being filled.
    pub closed spec fn current(&self) -> Label {
        self.current_block_label
    }

    /// Number of temporaries created so far.
    pub closed spec fn temps(&self) -> nat {
        self.temp_counter as nat
    }

    /// Number of labels created so far.
    pub closed spec fn labels(&self) -> nat {
        self.label_counter as nat
    }

    /// The table of trivial-phi replacements.
    pub closed spec fn trivial_table(&self) -> Seq<(usize, Temp)> {
        self.trivial_phis@
    }

    /// The block slots, indexed by label number.
    pub closed spec fn slots(&self) -> Seq<Option<BasicBlock>> {
        self.blocks@
    }

    /// Whether a block with the given label exists.
    pub open spec fn has_block(&self, l: Label) -> bool {
        l.0 < self.slots().len() && self.slots()[l.0 as int] is Some
    }

    /// The block with the given label (meaningful when it exists).
    pub open spec fn block(&self, l: Label) -> BasicBlock {
        self.slots()[l.0 as int]->0
    }

    /// The blocks of `other` are those of `self` except at label `l`.
    pub open spec fn same_except(&self, other: &IRContext, l: Label) -> bool {
        &&& other.slots().len() == self.slots().len()
        &&& forall|i: int| 0 <= i < self.slots().len() && i != l.0 ==> #[trigger] other.slots()[i] == self.slots()[i]
        &&& other.has_block(l) == self.has_block(l)
        &&& other.block(l).label == self.block(l).label
    }

    /// Create a context holding only an empty, sealed entry block, labelled 0.
    pub fn new() -> (r: IRContext)
        ensures
            r.wf(),
            r.temps() == 0,
            r.labels() == 1,
            r.current() == Label(0),
            r.has_block(Label(0)),
            r.block(Label(0)).sealed,
            r.block(Label(0)).body@.len() == 0,
            r.block(Label(0)).terminator is None,
            r.block(Label(0)).preds@.len() == 0,
            r.block(Label(0)).defs() == Map::<Seq<char>, Temp>::empty(),
    {
        let mut entry = BasicBlock::new(Label(0));
        entry.sealed = true;
        let mut blocks: Vec<Option<BasicBlock>> = Vec::new();
        blocks.push(Some(entry));
        let r = IRContext {
            temp_counter: 0,
            label_counter: 1,
            blocks,
            current_block_label: Label(0),
            trivial_phis: Vec::new(),
            latest_var_assignments: Vec::new(),
        };
        assert(r.block(Label(0)).defs() =~= Map::<Seq<char>, Temp>::empty());
        r
    }

    /// Label of the block currently being filled.
    pub fn current_label(&self) -> (r: Label)
        ensures
            r == self.current(),
    {
        self.current_block_label
    }

    /// Number of labels created within the context.
    pub fn label_count(&self) -> (r: usize)
        ensures
            r == self.labels(),
    {
        self.label_counter
    }

    /// Number of temporaries created within the context.
    pub fn get_temps_count(&self) -> (r: usize)
        ensures
            r == self.temps(),
    {
        self.temp_counter
    }

    /// The block slots of the context, indexed by label number.
    pub fn get_blocks(&self) -> (r: &Vec<Option<BasicBlock>>)
        ensures
            r@ == self.slots(),
    {
        &self.blocks
    }

    /// The block with a given label, if there is one.
    pub fn get_block(&self, label: Label) -> (r: Option<&BasicBlock>)
        ensures
            r is Some <==> self.has_block(label),
            r matches Some(b) ==> *b == self.block(label),
    {
        if label.0 < self.blocks.len() {
            match &self.blocks[label.0] {
                Some(b) => Some(b),
                None => None,
            }
        } else {
            None
        }
    }

    /// Create an empty, unsealed block and return its label.
    pub fn create_block(&mut self) -> (r: Label)
        requires
            old(self).wf(),
            old(self).labels() < usize::MAX,
        ensures
            old(self).grows(final(self)),
            final(self).has_block(r),
            final(self).wf(),
            r.0 == old(self).labels(),
            final(self).labels() == old(self).labels() + 1,
            final(self).temps() == old(self).temps(),
            final(self).current() == old(self).current(),
            final(self).slots() == old(self).slots().push(Some(final(self).block(r))),
            final(self).block(r).label == r,
            final(self).block(r).body@.len() == 0,
            final(self).block(r).terminator is None,
            final(self).block(r).preds@.len() == 0,
            !final(self).block(r).sealed,
            final(self).block(r).defs() == Map::<Seq<char>, Temp>::empty(),
            final(self).block(r).current_def@.len() == 0,
            final(self).block(r).incomplete_phis@.len() == 0,
    {
        let label = Label(self.label_counter);
        self.label_counter = self.label_counter + 1;
        self.blocks.push(Some(BasicBlock::new(label)));
        assert(self.block(label).defs() =~= Map::<Seq<char>, Temp>::empty());
        proof {
            assert forall|l: Label| #[trigger] old(self).has_block(l) implies self.has_block(l) by {
                assert(self.slots()[l.0 as int] == old(self).slots()[l.0 as int]);
            }
        }
        label
    }

    /// Remove the block with a given label from the context and give it back.
    pub fn take_block(&mut self, label: Label) -> (r: Option<BasicBlock>)
        requires
            old(self).wf(),
        ensures
            final(self).trivial_table() == old(self).trivial_table(),
            final(self).wf(),
            r is Some <==> old(self).has_block(label),
            r matches Some(b) ==> b == old(self).block(label) && b.wf(),
            final(self).labels() == old(self).labels(),
            final(self).temps() == old(self).temps(),
            final(self).current() == old(self).current(),
            final(self).slots() == (if label.0 < old(self).slots().len() {
                old(self).slots().update(label.0 as int, None)
            } else {
                old(self).slots()
            }),
    {
        if label.0 < self.blocks.len() {
            let mut slot: Option<BasicBlock> = None;
            std::mem::swap(&mut slot, &mut self.blocks[label.0]);
            slot
        } else {
            None
        }
    }

    /// Put a block back into its slot, given by its label.
    pub fn put_block(&mut self, block: BasicBlock)
        requires
            old(self).wf(),
            block.label.0 < old(self).labels(),
            block.wf(),
            temps_below(block.current_def@, old(self).temps()),
            temps_below(block.incomplete_phis@, old(self).temps()),
        ensures
            final(self).trivial_table() == old(self).trivial_table(),
            final(self).wf(),
            final(self).labels() == old(self).labels(),
            final(self).temps() == old(self).temps(),
            final(self).current() == old(self).current(),
            final(self).slots() == old(self).slots().update(block.label.0 as int, Some(block)),
    {
        let i = block.label.0;
        self.blocks.set(i, Some(block));
    }

    /// Replace the body of an existing block, giving back the old body.
    pub fn replace_block_body(&mut self, label: Label, body: Vec<Instr>) -> (r: Vec<Instr>)
        requires
            old(self).wf(),
            old(self).has_block(label),
        ensures
            final(self).wf(),
            final(self).labels() == old(self).labels(),
            final(self).temps() == old(self).temps(),
            final(self).current() == old(self).current(),
            final(self).trivial_table() == old(self).trivial_table(),
            final(self).slots() == old(self).slots().update(
                label.0 as int,
                Some((BasicBlock { body, ..old(self).block(label) })),
            ),
            r == old(self).block(label).body,
    {
        let mut slot: Option<BasicBlock> = None;
        std::mem::swap(&mut slot, &mut self.blocks[label.0]);
        let mut block = slot.unwrap();
        let mut body = body;
        std::mem::swap(&mut block.body, &mut body);
        self.blocks.set(label.0, Some(block));
        body
    }

    /// Replace the terminator of an existing block, giving back the old one.
    pub fn replace_block_terminator(&mut self, label: Label, terminator: Option<Instr>) -> (r: Option<Instr>)
        requires
            old(self).wf(),
            old(self).has_block(label),
        ensures
            final(self).wf(),
            final(self).labels() == old(self).labels(),
            final(self).temps() == old(self).temps(),
            final(self).current() == old(self).current(),
            final(self).trivial_table() == old(self).trivial_table(),
            final(self).slots() == old(self).slots().update(
                label.0 as int,
                Some((BasicBlock { terminator, ..old(self).block(label) })),
            ),
            r == old(self).block(label).terminator,
    {
        let mut slot: Option<BasicBlock> = None;
        std::mem::swap(&mut slot, &mut self.blocks[label.0]);
        let mut block = slot.unwrap();
        let mut terminator = terminator;
        std::mem::swap(&mut block.terminator, &mut terminator);
        self.blocks.set(label.0, Some(block));
        terminator
    }

    /// Replace the predecessor list of an existing block, giving back the old one.
    pub fn replace_block_preds(&mut self, label: Label, preds: Vec<Label>) -> (r: Vec<Label>)
        requires
            old(self).wf(),
            old(self).has_block(label),
        ensures
            final(self).wf(),
            final(self).labels() == old(self).labels(),
            final(self).temps() == old(self).temps(),
            final(self).current() == old(self).current(),
            final(self).trivial_table() == old(self).trivial_table(),
            final(self).slots() == old(self).slots().update(
                label.0 as int,
                Some((BasicBlock { preds, ..old(self).block(label) })),
            ),
            r == old(self).block(label).preds,
    {
        let mut slot: Option<BasicBlock> = None;
        std::mem::swap(&mut slot, &mut self.blocks[label.0]);
        let mut block = slot.unwrap();
        let mut preds = preds;
        std::mem::swap(&mut block.preds, &mut preds);
        self.blocks.set(label.0, Some(block));
        preds
    }

    /// Add a predecessor label to the current block.
    pub fn add_pred_to_block(&mut self, pred_label: Label)
        requires
            old(self).wf(),
            old(self).has_block(pred_label),
            old(self).has_block(old(self).current()),
        ensures
            old(self).same_shape(final(self)),
            final(self).wf(),
            final(self).labels() == old(self).labels(),
            final(self).temps() == old(self).temps(),
            final(self).current() == old(self).current(),
            old(self).same_except(final(self), old(self).current()),
            final(self).block(final(self).current()) == (BasicBlock {
                preds: final(self).block(final(self).current()).preds,
                ..old(self).block(old(self).current())
            }),
            final(self).block(final(self).current()).preds@
                == old(self).block(old(self).current()).preds@.push(pred_label),
    {
        let cur = self.current_block_label;
        let ghost s_before = *self;
        let mut b = self.take_block(cur).unwrap();
        b.preds.push(pred_label);
        let ghost bb = b;
        self.put_block(b);
        proof { lemma_take_put(s_before, *self, cur, bb); }
    }

    /// Set the terminator instruction of the current block.
    pub fn set_block_terminator(&mut self, terminator: Instr)
        requires
            old(self).wf(),
            old(self).has_block(old(self).current()),
        ensures
            old(self).same_shape(final(self)),
            final(self).wf(),
            final(self).labels() == old(self).labels(),
            final(self).temps() == old(self).temps(),
            final(self).current() == old(self).current(),
            old(self).same_except(final(self), old(self).current()),
            final(self).block(final(self).current()) == (BasicBlock {
                terminator: Some(terminator),
                ..old(self).block(old(self).current())
            }),
    {
        let cur = self.current_block_label;
        let ghost s_before = *self;
        let mut b = self.take_block(cur).unwrap();
        b.terminator = Some(terminator);
        let ghost bb = b;
        self.put_block(b);
        proof { lemma_take_put(s_before, *self, cur, bb); }
    }

    /// Add an instruction at the end of the current block.
    pub fn add_instr_to_block(&mut self, instr: Instr)
        requires
            old(self).wf(),
            old(self).has_block(old(self).current()),
        ensures
            old(self).same_shape(final(self)),
            final(self).wf(),
            final(self).labels() == old(self).labels(),
            final(self).temps() == old(self).temps(),
            final(self).current() == old(self).current(),
            old(self).same_except(final(self), old(self).current()),
            final(self).block(final(self).current()) == (BasicBlock {
                body: final(self).block(final(self).current()).body,
                ..old(self).block(old(self).current())
            }),
            final(self).block(final(self).current()).body@
                == old(self).block(old(self).current()).body@.push(instr),
    {
        let cur = self.current_block_label;
        let ghost s_before = *self;
        let mut b = self.take_block(cur).unwrap();
        b.body.push(instr);
        let ghost bb = b;
        self.put_block(b);
        proof { lemma_take_put(s_before, *self, cur, bb); }
    }

    /// Make the block with the given label the current one.
    pub fn switch_to_block(&mut self, label: Label)
        requires
            old(self).wf(),
            old(self).has_block(label),
        ensures
            old(self).grows(final(self)),
            final(self).current() == label,
            final(self).wf(),
            final(self).temps() == old(self).temps(),
            final(self).labels() == old(self).labels(),
            final(self).slots() == old(self).slots(),
    {
        self.current_block_label = label;
    }

    /// Create a temporary of the given type.
    pub fn create_temp(&mut self, typ: Typ) -> (r: Temp)
        requires
            old(self).wf(),
            old(self).temps() < usize::MAX,
        ensures
            old(self).same_shape(final(self)),
            final(self).wf(),
            r == (old(self).temps() as usize, typ),
            final(self).temps() == old(self).temps() + 1,
            final(self).labels() == old(self).labels(),
            final(self).slots() == old(self).slots(),
            final(self).current() == old(self).current(),
    {
        let t: Temp = (self.temp_counter, typ);
        self.temp_counter = self.temp_counter + 1;
        proof {
            assert forall|i: int| 0 <= i < self.blocks@.len() && (#[trigger] self.blocks@[i]) is Some implies
                temps_below(self.blocks@[i]->0.current_def@, self.temp_counter as nat)
                && temps_below(self.blocks@[i]->0.incomplete_phis@, self.temp_counter as nat) by {
                assert(temps_below(old(self).blocks@[i]->0.current_def@, old(self).temp_counter as nat));
                assert(temps_below(old(self).blocks@[i]->0.incomplete_phis@, old(self).temp_counter as nat));
            }
        }
        t
    }

    /// Record that variable `var_id` is renamed to `temp` in the block `block_label`.
    pub fn write_variable(&mut self, var_id: &Ident, temp: Temp, block_label: Label)
        requires
            old(self).wf(),
            old(self).has_block(block_label),
            temp.0 < old(self).temps(),
        ensures
            old(self).same_shape(final(self)),
            final(self).wf(),
            final(self).labels() == old(self).labels(),
            final(self).temps() == old(self).temps(),
            final(self).current() == old(self).current(),
            old(self).same_except(final(self), block_label),
            final(self).block(block_label) == (BasicBlock {
                current_def: final(self).block(block_label).current_def,
                ..old(self).block(block_label)
            }),
            final(self).block(block_label).defs() == old(self).block(block_label).defs().insert(var_id@, temp),
    {
        assoc_set(&mut self.latest_var_assignments, var_id.clone(), temp.1.duplicate());
        let ghost s_before = *self;
        let mut b = self.take_block(block_label).unwrap();
        let ghost old_defs = b.current_def@;
        assoc_set(&mut b.current_def, var_id.clone(), temp);
        proof {
            assert forall|i: int| 0 <= i < b.current_def@.len() implies (#[trigger] b.current_def@[i]).1.0 < self.temp_counter by {
                let k = b.current_def@[i].0@;
                crate::assoc::lemma_key_index(b.current_def@, i);
                assert(entry_map(b.current_def@)[k] == b.current_def@[i].1);
                if k != var_id@ {
                    assert(key_set(old_defs).contains(k)) by {
                        assert(entry_map(b.current_def@).dom().contains(k));
                    }
                    let j = crate::assoc::key_index(old_defs, k);
                    crate::assoc::lemma_key_index(old_defs, j);
                    assert(entry_map(old_defs)[k] == old_defs[j].1);
                    assert(old_defs[j].1.0 < self.temp_counter);
                }
            }
        }
        let ghost bb = b;
        self.put_block(b);
        proof { lemma_take_put(s_before, *self, block_label, bb); }
    }
}


/// The replacement the first entry for temporary `id` of a table of trivial phis records.
pub open spec fn first_trivial(table: Seq<(usize, Temp)>, id: usize) -> Option<Temp>
    decreases table.len(),
{
    if table.len() == 0 {
        None
    } else {
        match first_trivial(table.drop_last(), id) {
            Some(t) => Some(t),
            None => if table.last().0 == id { Some(table.last().1) } else { None },
        }
    }
}

/// Temporary `t` followed at most `n` steps through the trivial-phi replacements.
pub open spec fn resolved_temp(table: Seq<(usize, Temp)>, t: Temp, n: nat) -> Temp
    decreases n,
{
    if n == 0 {
        t
    } else {
        match first_trivial(table, t.0) {
            Some(u) => resolved_temp(table, u, (n - 1) as nat),
            None => t,
        }
    }
}

proof fn lemma_first_trivial(table: Seq<(usize, Temp)>, id: usize, i: int)
    requires
        0 <= i <= table.len(),
        forall|j: int| 0 <= j < i ==> table[j].0 != id,
    ensures
        i < table.len() && table[i].0 == id ==> first_trivial(table, id) == Some(table[i].1),
        i == table.len() ==> first_trivial(table, id) is None,
    decreases table.len(),
{
    if table.len() > 0 {
        if i < table.len() {
            if i < table.len() - 1 {
                lemma_first_trivial(table.drop_last(), id, i);
            } else {
                lemma_first_trivial(table.drop_last(), id, i);
            }
        } else {
            lemma_first_trivial(table.drop_last(), id, i - 1);
        }
    }
}

impl IRContext {
    /// `other` has the blocks, labels and current block of `self`, and no fewer temporaries.
    pub open spec fn same_shape(&self, other: &IRContext) -> bool {
        &&& other.slots().len() == self.slots().len()
        &&& other.labels() == self.labels()
        &&& other.current() == self.current()
        &&& other.temps() >= self.temps()
        &&& forall|l: Label| #[trigger] other.has_block(l) == self.has_block(l)
    }

    /// Every block of `self` is still in `other`, with no fewer temporaries or labels.
    pub open spec fn grows(&self, other: &IRContext) -> bool {
        &&& forall|l: Label| #[trigger] self.has_block(l) ==> other.has_block(l)
        &&& other.temps() >= self.temps()
        &&& other.labels() >= self.labels()
    }

    /// The replacement recorded for a trivial phi temporary, if any.
    pub closed spec fn trivial_target(&self, id: usize) -> Option<Temp> {
        if exists|i: int| 0 <= i < self.trivial_phis@.len() && self.trivial_phis@[i].0 == id {
            let i = choose|i: int| 0 <= i < self.trivial_phis@.len() && self.trivial_phis@[i].0 == id;
            Some(self.trivial_phis@[i].1)
        } else {
            None
        }
    }

    /// Position of a trivial phi temporary in the replacement table.
    fn find_trivial(&self, id: usize) -> (r: Option<usize>)
        ensures
            r matches Some(i) ==> i < self.trivial_phis@.len() && self.trivial_phis@[i as int].0 == id
                && forall|j: int| 0 <= j < i ==> self.trivial_phis@[j].0 != id,
            r is None ==> self.trivial_target(id) is None,
            r is None ==> forall|j: int| 0 <= j < self.trivial_phis@.len() ==> self.trivial_phis@[j].0 != id,
    {
        let mut i: usize = 0;
        while i < self.trivial_phis.len()
            invariant
                i <= self.trivial_phis@.len(),
                forall|j: int| 0 <= j < i ==> self.trivial_phis@[j].0 != id,
            decreases self.trivial_phis@.len() - i,
        {
            if self.trivial_phis[i].0 == id {
                return Some(i);
            }
            i = i + 1;
        }
        None
    }

    /// Resolve a temporary through the chain of trivial phi replacements.
    fn resolve_phi_temp(&self, t: Temp) -> (r: Temp)
        requires
            self.wf(),
            t.0 < self.temps(),
        ensures
            r.0 < self.temps(),
            self.trivial_target(t.0) is None ==> r == t,
            r == resolved_temp(self.trivial_table(), t, (self.trivial_table().len() + 1) as nat),
    {
        let ghost table = self.trivial_phis@;
        let ghost total = (table.len() + 1) as nat;
        let mut cur = t;
        let mut steps: usize = 0;
        while steps < self.trivial_phis.len()
            invariant
                self.wf(),
                table == self.trivial_phis@,
                total == table.len() + 1,
                cur.0 < self.temps(),
                steps <= self.trivial_phis@.len(),
                steps == 0 ==> cur == t,
                self.trivial_target(t.0) is None ==> cur == t,
                resolved_temp(table, t, total) == resolved_temp(table, cur, (total - steps) as nat),
            decreases self.trivial_phis@.len() - steps,
        {
            match self.find_trivial(cur.0) {
                Some(i) => {
                    proof {
                        if cur == t {
                            assert(self.trivial_phis@[i as int].0 == t.0);
                        }
                        lemma_first_trivial(table, cur.0, i as int);
                    }
                    cur = duplicate_temp(&self.trivial_phis[i].1);
                },
                None => {
                    proof {
                        lemma_first_trivial(table, cur.0, table.len() as int);
                    }
                    return cur;
                },
            }
            steps = steps + 1;
        }
        if steps == 0 {
            proof {
                lemma_first_trivial(table, cur.0, table.len() as int);
            }
            return cur;
        }
        match self.find_trivial(cur.0) {
            Some(i) => {
                proof {
                    if cur == t {
                        assert(self.trivial_phis@[i as int].0 == t.0);
                    }
                    lemma_first_trivial(table, cur.0, i as int);
                    reveal_with_fuel(resolved_temp, 2);
                    assert(resolved_temp(table, cur, 1) == table[i as int].1);
                }
                duplicate_temp(&self.trivial_phis[i].1)
            },
            None => {
                proof {
                    lemma_first_trivial(table, cur.0, table.len() as int);
                    assert(resolved_temp(table, cur, 1) == cur);
                }
                cur
            },
        }
    }

    /// Type of variable `var_id` as seen from the block `block_label`.
    fn infer_typ(&self, var_id: &Ident, block_label: Label) -> (r: Option<Typ>)
        requires
            self.wf(),
            self.has_block(block_label),
        ensures
            self.block(block_label).defs().contains_key(var_id@) ==> r == Some(self.block(block_label).defs()[var_id@].1),
    {
        let b = self.get_block(block_label).unwrap();
        match find_key(&b.current_def, var_id) {
            Some(i) => {
                proof { crate::assoc::lemma_key_index(b.current_def@, i as int); }
                return Some(b.current_def[i].1.1.duplicate());
            },
            None => {},
        }
        match find_key(&self.latest_var_assignments, var_id) {
            Some(i) => Some(self.latest_var_assignments[i].1.duplicate()),
            None => None,
        }
    }

    /// The temporary bound to a variable in a block, if any.
    fn lookup_def(&self, var_id: &Ident, block_label: Label) -> (r: Option<Temp>)
        requires
            self.wf(),
            self.has_block(block_label),
        ensures
            r is Some <==> self.block(block_label).defs().contains_key(var_id@),
            r matches Some(t) ==> t == self.block(block_label).defs()[var_id@] && t.0 < self.temps(),
    {
        let b = self.get_block(block_label).unwrap();
        match find_key(&b.current_def, var_id) {
            Some(i) => {
                proof {
                    crate::assoc::lemma_key_index(b.current_def@, i as int);
                    assert(temps_below(b.current_def@, self.temps()));
                    assert(b.current_def@[i as int].1.0 < self.temps());
                }
                Some(duplicate_temp(&b.current_def[i].1))
            },
            None => None,
        }
    }

    /// Record an incomplete phi for a variable in an unsealed block.
    fn add_incomplete_phi(&mut self, var_id: &Ident, phi: Temp, block_label: Label)
        requires
            old(self).wf(),
            old(self).has_block(block_label),
            phi.0 < old(self).temps(),
        ensures
            final(self).wf(),
            old(self).same_shape(final(self)),
            final(self).temps() == old(self).temps(),
            final(self).trivial_table() == old(self).trivial_table(),
            old(self).same_except(final(self), block_label),
            final(self).block(block_label) == (BasicBlock {
                incomplete_phis: final(self).block(block_label).incomplete_phis,
                ..old(self).block(block_label)
            }),
            entry_map(final(self).block(block_label).incomplete_phis@) == entry_map(old(self).block(block_label).incomplete_phis@).insert(
                var_id@,
                phi,
            ),
    {
        let ghost s_before = *self;
        let mut b = self.take_block(block_label).unwrap();
        let ghost old_phis = b.incomplete_phis@;
        assoc_set(&mut b.incomplete_phis, var_id.clone(), phi);
        proof {
            assert forall|i: int| 0 <= i < b.incomplete_phis@.len() implies (#[trigger] b.incomplete_phis@[i]).1.0 < self.temp_counter by {
                let k = b.incomplete_phis@[i].0@;
                crate::assoc::lemma_key_index(b.incomplete_phis@, i);
                assert(entry_map(b.incomplete_phis@)[k] == b.incomplete_phis@[i].1);
                if k != var_id@ {
                    assert(key_set(old_phis).contains(k)) by {
                        assert(entry_map(b.incomplete_phis@).dom().contains(k));
                    }
                    let j = crate::assoc::key_index(old_phis, k);
                    crate::assoc::lemma_key_index(old_phis, j);
                    assert(entry_map(old_phis)[k] == old_phis[j].1);
                    assert(old_phis[j].1.0 < self.temp_counter);
                }
            }
        }
        let ghost bb = b;
        self.put_block(b);
        proof { lemma_take_put(s_before, *self, block_label, bb); }
    }
}



/// Taking a block out and putting a block with the same label back keeps the shape.
proof fn lemma_take_put(s0: IRContext, s2: IRContext, l: Label, x: BasicBlock)
    requires
        s0.has_block(l),
        s2.slots() == s0.slots().update(l.0 as int, None).update(l.0 as int, Some(x)),
        s2.labels() == s0.labels(),
        s2.current() == s0.current(),
        s2.temps() >= s0.temps(),
    ensures
        s0.same_shape(&s2),
{
    assert forall|m: Label| #[trigger] s2.has_block(m) == s0.has_block(m) by {
        if m.0 != l.0 {
            if m.0 < s0.slots().len() {
                assert(s2.slots()[m.0 as int] == s0.slots()[m.0 as int]);
            }
        }
    }
}

/// Shapes compose.
proof fn lemma_shape_trans(a: IRContext, b: IRContext, c: IRContext)
    requires
        a.same_shape(&b),
        b.same_shape(&c),
    ensures
        a.same_shape(&c),
{
    assert forall|l: Label| #[trigger] c.has_block(l) == a.has_block(l) by {
        assert(c.has_block(l) == b.has_block(l));
        assert(b.has_block(l) == a.has_block(l));
    }
}

/// A context of the same shape has grown from the first.
/// In a well-formed context there is one slot per label, and the block in slot `i`
/// carries label `i`.
pub proof fn lemma_wf_slots(ctx: IRContext)
    requires
        ctx.wf(),
    ensures
        ctx.slots().len() == ctx.labels(),
        ctx.labels() <= usize::MAX,
        forall|i: int| 0 <= i < ctx.slots().len() && (#[trigger] ctx.slots()[i]) is Some
            ==> ctx.slots()[i]->0.label.0 == i && ctx.slots()[i]->0.wf(),
{
}

pub proof fn lemma_shape_grows(a: IRContext, b: IRContext)
    requires
        a.same_shape(&b),
    ensures
        a.grows(&b),
        b.current() == a.current(),
{
    assert forall|l: Label| #[trigger] a.has_block(l) implies b.has_block(l) by {
        assert(b.has_block(l) == a.has_block(l));
    }
}

/// Growth composes.
pub proof fn lemma_grows_trans(a: IRContext, b: IRContext, c: IRContext)
    requires
        a.grows(&b),
        b.grows(&c),
    ensures
        a.grows(&c),
{
    assert forall|l: Label| #[trigger] a.has_block(l) implies c.has_block(l) by {
        assert(b.has_block(l));
    }
}

/// Position of the phi node that defines temporary `id` in a block body.
fn find_phi(body: &Vec<Instr>, id: usize) -> (r: Option<usize>)
    ensures
        r matches Some(i) ==> i < body@.len() && (body@[i as int] matches Instr::Phi { dest, .. } && dest.0 == id)
            && forall|j: int| 0 <= j < i ==> !(#[trigger] body@[j] matches Instr::Phi { dest, .. } && dest.0 == id),
        r is None ==> forall|j: int| 0 <= j < body@.len() ==> !(#[trigger] body@[j] matches Instr::Phi { dest, .. } && dest.0 == id),
{
    let mut i: usize = 0;
    while i < body.len()
        invariant
            i <= body@.len(),
            forall|j: int| 0 <= j < i ==> !(#[trigger] body@[j] matches Instr::Phi { dest, .. } && dest.0 == id),
        decreases body@.len() - i,
    {
        match &body[i] {
            Instr::Phi { dest, .. } => {
                if dest.0 == id {
                    return Some(i);
                }
            },
            _ => {},
        }
        i = i + 1;
    }
    None
}

/// Body without the phi node that defines temporary `id`.
fn without_phi(body: &Vec<Instr>, id: usize) -> (r: Vec<Instr>)
    ensures
        forall|j: int| 0 <= j < r@.len() ==> !(#[trigger] r@[j] matches Instr::Phi { dest, .. } && dest.0 == id),
        r@.len() <= body@.len(),
        same_instrs(r@, phis_removed(body@, id)),
{
    let mut r: Vec<Instr> = Vec::new();
    let mut i: usize = 0;
    while i < body.len()
        invariant
            i <= body@.len(),
            r@.len() <= i,
            forall|j: int| 0 <= j < r@.len() ==> !(#[trigger] r@[j] matches Instr::Phi { dest, .. } && dest.0 == id),
            same_instrs(r@, phis_removed(body@.take(i as int), id)),
        decreases body@.len() - i,
    {
        proof {
            assert(body@.take(i + 1).drop_last() =~= body@.take(i as int));
            assert(body@.take(i + 1).last() == body@[i as int]);
        }
        let keep = match &body[i] {
            Instr::Phi { dest, .. } => dest.0 != id,
            _ => true,
        };
        if keep {
            let c = body[i].clone();
            r.push(c);
        }
        i = i + 1;
    }
    proof {
        assert(body@.take(body@.len() as int) =~= body@);
    }
    r
}

/// A block body without the phi nodes that define temporary `id`.
pub open spec fn phis_removed(body: Seq<Instr>, id: usize) -> Seq<Instr>
    decreases body.len(),
{
    if body.len() == 0 {
        body
    } else if body.last() matches Instr::Phi { dest, .. } && dest.0 == id {
        phis_removed(body.drop_last(), id)
    } else {
        phis_removed(body.drop_last(), id).push(body.last())
    }
}


/// The instruction is the phi node that defines temporary `id`.
pub open spec fn is_phi_of(ins: Instr, id: usize) -> bool {
    ins matches Instr::Phi { dest, .. } && dest.0 == id
}

/// The block slot holds a block with the phi node of temporary `id`.
pub open spec fn slot_has_phi(slot: Option<BasicBlock>, id: usize) -> bool {
    slot matches Some(b) && exists|j: int| 0 <= j < b.body@.len() && is_phi_of(#[trigger] b.body@[j], id)
}

/// Position of the first phi node of temporary `id` in a body that has one.
pub open spec fn first_phi_at(body: Seq<Instr>, id: usize) -> int {
    choose|j: int| 0 <= j < body.len() && is_phi_of(body[j], id) && forall|q: int| 0 <= q < j ==> !is_phi_of(#[trigger] body[q], id)
}

/// First block slot that has the phi node of temporary `id`, where one has.
pub open spec fn first_phi_block(slots: Seq<Option<BasicBlock>>, id: usize) -> int {
    choose|i: int| 0 <= i < slots.len() && slot_has_phi(slots[i], id) && forall|q: int| 0 <= q < i ==> !slot_has_phi(#[trigger] slots[q], id)
}

/// Sources of a phi node.
pub open spec fn srcs_of(ins: Instr) -> Seq<(Label, Operand)> {
    match ins {
        Instr::Phi { srcs, .. } => srcs@,
        _ => Seq::empty(),
    }
}

/// Sources of the first phi node of temporary `id`, in the first block that has one.
pub open spec fn phi_sources(slots: Seq<Option<BasicBlock>>, id: usize) -> Option<Seq<(Label, Operand)>> {
    if exists|i: int| 0 <= i < slots.len() && slot_has_phi(#[trigger] slots[i], id) {
        let b = slots[first_phi_block(slots, id)]->0;
        Some(srcs_of(b.body@[first_phi_at(b.body@, id)]))
    } else {
        None
    }
}

/// Temporaries among the sources of a phi node, in order, other than temporary `id`.
pub open spec fn src_temps(srcs: Seq<(Label, Operand)>, id: usize) -> Seq<Temp>
    decreases srcs.len(),
{
    if srcs.len() == 0 {
        Seq::empty()
    } else {
        let rest = src_temps(srcs.drop_last(), id);
        match srcs.last().1 {
            Operand::Temp(t) => if t.0 != id { rest.push(t) } else { rest },
            _ => rest,
        }
    }
}

/// Temporary that `t` resolves to through the trivial phi nodes recorded so far.
pub open spec fn phi_resolved(ir: IRContext, t: Temp) -> Temp {
    resolved_temp(ir.trivial_table(), t, (ir.trivial_table().len() + 1) as nat)
}

/// The temporaries that `ts` resolve to, each id once, in order of first appearance.
pub open spec fn distinct_resolved(ir: IRContext, ts: Seq<Temp>) -> Seq<Temp>
    decreases ts.len(),
{
    if ts.len() == 0 {
        Seq::empty()
    } else {
        let r = distinct_resolved(ir, ts.drop_last());
        let t = phi_resolved(ir, ts.last());
        if exists|a: int| 0 <= a < r.len() && (#[trigger] r[a]).0 == t.0 {
            r
        } else {
            r.push(t)
        }
    }
}

/// What the phi node of `phi` is replaced with when it is trivial: its sources other
/// than itself, all of known temporaries, resolve to exactly one temporary.
pub open spec fn phi_replacement(ir: IRContext, phi: Temp) -> Option<Temp> {
    match phi_sources(ir.slots(), phi.0) {
        None => None,
        Some(srcs) => {
            let ts = src_temps(srcs, phi.0);
            let rs = distinct_resolved(ir, ts);
            if (forall|k: int| 0 <= k < ts.len() ==> (#[trigger] ts[k]).0 < ir.temps()) && rs.len() == 1 {
                Some(rs[0])
            } else {
                None
            }
        },
    }
}

proof fn lemma_src_temps_prefix(s: Seq<(Label, Operand)>, a: int, id: usize)
    requires
        0 <= a <= s.len(),
    ensures
        src_temps(s.take(a), id).len() <= src_temps(s, id).len(),
        forall|j: int| 0 <= j < src_temps(s.take(a), id).len() ==> #[trigger] src_temps(s, id)[j] == src_temps(s.take(a), id)[j],
    decreases s.len(),
{
    if a == s.len() {
        assert(s.take(a) =~= s);
    } else {
        assert(s.take(a) =~= s.drop_last().take(a));
        lemma_src_temps_prefix(s.drop_last(), a, id);
    }
}

/// Whether a list of temporaries holds one with the given id.
fn has_temp_id(v: &Vec<Temp>, id: usize) -> (r: bool)
    ensures
        r == exists|j: int| 0 <= j < v@.len() && v@[j].0 == id,
{
    let mut i: usize = 0;
    while i < v.len()
        invariant
            i <= v@.len(),
            forall|j: int| 0 <= j < i ==> v@[j].0 != id,
        decreases v@.len() - i,
    {
        if v[i].0 == id {
            return true;
        }
        i = i + 1;
    }
    false
}

impl IRContext {
    /// Remove the phi node of `phi` when it is trivial (its sources, other than itself,
    /// resolve to a single temporary) and give back the temporary it resolves to.
    #[verifier::rlimit(60)]
    #[verifier::spinoff_prover]
    fn try_remove_trivial_phi(&mut self, phi: Temp) -> (r: Temp)
        requires
            old(self).wf(),
            phi.0 < old(self).temps(),
        ensures
            final(self).wf(),
            old(self).same_shape(final(self)),
            final(self).temps() == old(self).temps(),
            r.0 < final(self).temps(),
            r == match phi_replacement(*old(self), phi) {
                Some(t) => t,
                None => phi,
            },
    {
        let mut found: Option<(usize, Vec<(Label, Operand)>)> = None;
        let mut i: usize = 0;
        while i < self.blocks.len()
            invariant_except_break
                found is None,
                forall|q: int| 0 <= q < i ==> !slot_has_phi(#[trigger] self.blocks@[q], phi.0),
            invariant
                i <= self.blocks@.len(),
            ensures
                found is None ==> forall|q: int| 0 <= q < self.blocks@.len() ==> !slot_has_phi(#[trigger] self.blocks@[q], phi.0),
                found matches Some(f) ==> f.0 < self.blocks@.len()
                    && phi_sources(self.blocks@, phi.0) == Some(f.1@),
            decreases self.blocks@.len() - i,
        {
            match &self.blocks[i] {
                Some(b) => {
                    match find_phi(&b.body, phi.0) {
                        Some(j) => {
                            proof {
                                let body = b.body@;
                                assert(is_phi_of(body[j as int], phi.0));
                                assert(slot_has_phi(self.blocks@[i as int], phi.0));
                                assert(forall|q: int| 0 <= q < i ==> !slot_has_phi(#[trigger] self.blocks@[q], phi.0));
                                let fb = first_phi_block(self.blocks@, phi.0);
                                if fb < i {
                                    assert(!slot_has_phi(self.blocks@[fb], phi.0));
                                }
                                if fb > i {
                                    assert(!slot_has_phi(self.blocks@[i as int], phi.0));
                                }
                                assert(fb == i);
                                let fj = first_phi_at(body, phi.0);
                                if fj < j {
                                    assert(!is_phi_of(body[fj], phi.0));
                                }
                                if fj > j {
                                    assert(!is_phi_of(body[j as int], phi.0));
                                }
                                assert(fj == j);
                            }
                            match &b.body[j] {
                                Instr::Phi { srcs, .. } => {
                                    found = Some((i, clone_phi_srcs(srcs)));
                                },
                                _ => {},
                            }
                            break;
                        },
                        None => {
                            proof {
                                assert(!slot_has_phi(self.blocks@[i as int], phi.0));
                            }
                        },
                    }
                },
                None => {},
            }
            i = i + 1;
        }
        let (block_index, srcs) = match found {
            Some(f) => f,
            None => {
                proof {
                    assert(phi_sources(self.blocks@, phi.0) is None);
                }
                return phi;
            },
        };
        let ghost ts = src_temps(srcs@, phi.0);
        let mut resolved: Vec<Temp> = Vec::new();
        let mut k: usize = 0;
        while k < srcs.len()
            invariant
                self.wf(),
                *self == *old(self),
                phi_sources(self.blocks@, phi.0) == Some(srcs@),
                ts == src_temps(srcs@, phi.0),
                phi.0 < self.temps(),
                k <= srcs@.len(),
                forall|j: int| 0 <= j < resolved@.len() ==> (#[trigger] resolved@[j]).0 < self.temps(),
                forall|j: int| 0 <= j < src_temps(srcs@.take(k as int), phi.0).len()
                    ==> (#[trigger] src_temps(srcs@.take(k as int), phi.0)[j]).0 < self.temps(),
                resolved@ == distinct_resolved(*self, src_temps(srcs@.take(k as int), phi.0)),
            decreases srcs@.len() - k,
        {
            let ghost tk = src_temps(srcs@.take(k as int), phi.0);
            proof {
                assert(srcs@.take(k + 1).drop_last() =~= srcs@.take(k as int));
                assert(srcs@.take(k + 1).last() == srcs@[k as int]);
            }
            let ghost tk1 = src_temps(srcs@.take(k + 1), phi.0);
            match &srcs[k].1 {
                Operand::Temp(t) => {
                    if t.0 != phi.0 {
                        assert(tk1 == tk.push(*t));
                        if t.0 >= self.temp_counter {
                            proof {
                                lemma_src_temps_prefix(srcs@, k + 1, phi.0);
                                assert(ts[tk.len() as int] == *t);
                                assert(srcs@.take(srcs@.len() as int) =~= srcs@);
                            }
                            return phi;
                        }
                        let rt = self.resolve_phi_temp(duplicate_temp(t));
                        assert(rt == phi_resolved(*self, tk1[tk.len() as int]));
                        if !has_temp_id(&resolved, rt.0) {
                            resolved.push(rt);
                        }
                        proof {
                            assert(tk1.drop_last() =~= tk);
                            assert(tk1.last() == *t);
                        }
                    } else {
                        assert(tk1 == tk);
                    }
                },
                Operand::Const(_) => {
                    assert(tk1 == tk);
                },
            }
            k = k + 1;
        }
        proof {
            assert(srcs@.take(srcs@.len() as int) =~= srcs@);
        }
        if resolved.len() != 1 {
            return phi;
        }
        let only = duplicate_temp(&resolved[0]);
        let lbl = Label(block_index);
        match self.take_block(lbl) {
            Some(mut b) => {
                b.body = without_phi(&b.body, phi.0);
                self.put_block(b);
            },
            None => {},
        }
        match self.find_trivial(phi.0) {
            Some(idx) => {
                self.trivial_phis.set(idx, (phi.0, duplicate_temp(&only)));
            },
            None => {
                self.trivial_phis.push((phi.0, duplicate_temp(&only)));
            },
        }
        only
    }

    /// Give the incomplete phi `phi` of variable `var_id` in block `block_label` its
    /// sources, one per predecessor, and simplify it when it is trivial.
    fn resolve_incomplete_phi(&mut self, var_id: &Ident, phi: Temp, block_label: Label, fuel: usize) -> (r: Option<Temp>)
        requires
            old(self).wf(),
            old(self).has_block(block_label),
            phi.0 < old(self).temps(),
        ensures
            final(self).wf(),
            old(self).same_shape(final(self)),
            r matches Some(t) ==> t.0 < final(self).temps(),
        decreases fuel, 1nat,
    {
        let preds = self.get_block(block_label).unwrap().preds.clone();
        let mut srcs: Vec<(Label, Operand)> = Vec::new();
        let mut i: usize = 0;
        while i < preds.len()
            invariant
                self.wf(),
                old(self).same_shape(self),
                self.has_block(block_label),
                phi.0 < self.temps(),
                i <= preds@.len(),
            decreases preds@.len() - i,
        {
            let p = preds[i];
            if self.get_block(p).is_none() {
                return None;
            }
            let t = match self.read_variable_fuel(var_id, p, fuel) {
                Some(t) => t,
                None => return None,
            };
            srcs.push((p, Operand::Temp(t)));
            i = i + 1;
        }
        let ghost s_before = *self;
        let mut b = self.take_block(block_label).unwrap();
        let node = Instr::Phi { dest: duplicate_temp(&phi), srcs };
        match find_phi(&b.body, phi.0) {
            Some(j) => {
                b.body.set(j, node);
            },
            None => {
                b.body.insert(0, node);
            },
        }
        let ghost bb = b;
        self.put_block(b);
        proof { lemma_take_put(s_before, *self, block_label, bb); }
        Some(self.try_remove_trivial_phi(phi))
    }

    /// Temporary that holds variable `var_id` at the start of block `block_label`,
    /// searching predecessors at most `fuel` levels deep.
    fn read_variable_fuel(&mut self, var_id: &Ident, block_label: Label, fuel: usize) -> (r: Option<Temp>)
        requires
            old(self).wf(),
            old(self).has_block(block_label),
        ensures
            final(self).wf(),
            old(self).same_shape(final(self)),
            r matches Some(t) ==> t.0 < final(self).temps(),
            old(self).block(block_label).defs().contains_key(var_id@) ==> r == Some(resolved_temp(
                old(self).trivial_table(),
                old(self).block(block_label).defs()[var_id@],
                (old(self).trivial_table().len() + 1) as nat,
            )),
            old(self).block(block_label).defs().contains_key(var_id@) ==> *final(self) == *old(self),
        decreases fuel, 0nat,
    {
        match self.lookup_def(var_id, block_label) {
            Some(t) => {
                return Some(self.resolve_phi_temp(t));
            },
            None => {},
        }
        let sealed = self.get_block(block_label).unwrap().sealed;
        if !sealed {
            let typ = match self.infer_typ(var_id, block_label) {
                Some(t) => t,
                None => return None,
            };
            if self.temp_counter == usize::MAX {
                return None;
            }
            let phi = self.create_temp(typ);
            self.add_incomplete_phi(var_id, duplicate_temp(&phi), block_label);
            self.write_variable(var_id, duplicate_temp(&phi), block_label);
            return Some(phi);
        }
        if fuel == 0 {
            return None;
        }
        let preds = self.get_block(block_label).unwrap().preds.clone();
        let temp = if preds.len() == 1 {
            if self.get_block(preds[0]).is_none() {
                return None;
            }
            match self.read_variable_fuel(var_id, preds[0], fuel - 1) {
                Some(t) => t,
                None => return None,
            }
        } else {
            let typ = match self.infer_typ(var_id, block_label) {
                Some(t) => t,
                None => return None,
            };
            if self.temp_counter == usize::MAX {
                return None;
            }
            let phi = self.create_temp(typ);
            self.write_variable(var_id, duplicate_temp(&phi), block_label);
            match self.resolve_incomplete_phi(var_id, phi, block_label, fuel - 1) {
                Some(t) => t,
                None => return None,
            }
        };
        self.write_variable(var_id, duplicate_temp(&temp), block_label);
        Some(temp)
    }

    /// Depth to which predecessors are searched when reading a variable.
    fn search_depth(&self) -> (r: usize)
        ensures
            r == (if self.labels() < usize::MAX / 2 - 1 { 2 * self.labels() + 2 } else { usize::MAX as nat }),
    {
        if self.label_counter < usize::MAX / 2 - 1 {
            2 * self.label_counter + 2
        } else {
            usize::MAX
        }
    }

    /// Temporary that holds variable `var_id` at the start of block `block_label`,
    /// adding phi nodes where control flow merges. `None` when the variable has no
    /// definition that reaches the block, or when temporaries run out.
    pub fn read_variable(&mut self, var_id: &Ident, block_label: Label) -> (r: Option<Temp>)
        requires
            old(self).wf(),
            old(self).has_block(block_label),
        ensures
            final(self).wf(),
            old(self).same_shape(final(self)),
            r matches Some(t) ==> t.0 < final(self).temps(),
            old(self).block(block_label).defs().contains_key(var_id@) ==> r == Some(resolved_temp(
                old(self).trivial_table(),
                old(self).block(block_label).defs()[var_id@],
                (old(self).trivial_table().len() + 1) as nat,
            )),
            old(self).block(block_label).defs().contains_key(var_id@) ==> *final(self) == *old(self),
    {
        let fuel = self.search_depth();
        self.read_variable_fuel(var_id, block_label, fuel)
    }

    /// Seal block `block_label`: all its predecessors are known, so its incomplete phi
    /// nodes get their sources.
    pub fn seal_block(&mut self, block_label: Label)
        requires
            old(self).wf(),
            old(self).has_block(block_label),
        ensures
            final(self).wf(),
            old(self).same_shape(final(self)),
            final(self).block(block_label).sealed,
            final(self).block(block_label).incomplete_phis@.len() == 0,
    {
        let mut pending: Vec<(Ident, Temp)> = Vec::new();
        {
            let b = self.get_block(block_label).unwrap();
            let mut i: usize = 0;
            while i < b.incomplete_phis.len()
                invariant
                    self.wf(),
                    self.has_block(block_label),
                    *b == self.block(block_label),
                    i <= b.incomplete_phis@.len(),
                    forall|j: int| 0 <= j < pending@.len() ==> (#[trigger] pending@[j]).1.0 < self.temps(),
                decreases b.incomplete_phis@.len() - i,
            {
                proof {
                    assert(temps_below(b.incomplete_phis@, self.temps()));
                    assert(b.incomplete_phis@[i as int].1.0 < self.temps());
                }
                pending.push((b.incomplete_phis[i].0.clone(), duplicate_temp(&b.incomplete_phis[i].1)));
                i = i + 1;
            }
        }
        let fuel = self.search_depth();
        let ghost s0 = *self;
        let mut k: usize = 0;
        while k < pending.len()
            invariant
                self.wf(),
                s0.same_shape(self),
                old(self).same_shape(&s0),
                self.has_block(block_label),
                k <= pending@.len(),
                forall|j: int| 0 <= j < pending@.len() ==> (#[trigger] pending@[j]).1.0 < s0.temps(),
            decreases pending@.len() - k,
        {
            let _ = self.resolve_incomplete_phi(&pending[k].0, duplicate_temp(&pending[k].1), block_label, fuel);
            k = k + 1;
        }
        let ghost s_before = *self;
        let mut b = self.take_block(block_label).unwrap();
        b.incomplete_phis = Vec::new();
        b.sealed = true;
        let ghost bb = b;
        self.put_block(b);
        proof { lemma_take_put(s_before, *self, block_label, bb); }
    }
}


/// Instructions of a block as laid out in linear code: its label, body and terminator.
pub open spec fn block_instrs(b: BasicBlock) -> Seq<Instr> {
    seq![Instr::Label(b.label)] + b.body@ + match b.terminator {
        Some(t) => seq![t],
        None => Seq::empty(),
    }
}

/// Linear code of the blocks listed in `order`, in that order.
pub open spec fn linear(ctx: IRContext, order: Seq<Label>) -> Seq<Instr>
    decreases order.len(),
{
    if order.len() == 0 {
        Seq::empty()
    } else {
        linear(ctx, order.drop_last()) + block_instrs(ctx.block(order.last()))
    }
}

/// Two instruction sequences are the same, instruction by instruction.
pub open spec fn same_instrs(a: Seq<Instr>, b: Seq<Instr>) -> bool {
    a.len() == b.len() && forall|i: int| 0 <= i < a.len() ==> same_instr(#[trigger] a[i], b[i])
}

proof fn lemma_linear_step(ctx: IRContext, order: Seq<Label>, i: int)
    requires
        0 <= i < order.len(),
    ensures
        linear(ctx, order.take(i + 1)) == linear(ctx, order.take(i)) + block_instrs(ctx.block(order[i])),
{
    assert(order.take(i + 1).drop_last() =~= order.take(i));
    assert(order.take(i + 1).last() == order[i]);
}

impl IRContext {
    /// Transform the control-flow graph into linear code: the blocks reachable from the
    /// entry block, in reverse post-order, each as its label, body and terminator.
    pub fn linearize(&self) -> (r: Vec<Instr>)
        ensures
            exists|order: Seq<Label>| crate::cfg::rpo_ok(*self, order) && same_instrs(r@, linear(*self, order))
                && forall|i: int| 0 < i < order.len() ==> #[trigger] crate::cfg::parent_before(*self, order, i),
    {
        let order = crate::cfg::get_block_labels_in_rpo(self);
        let mut out: Vec<Instr> = Vec::new();
        let mut i: usize = 0;
        while i < order.len()
            invariant
                i <= order@.len(),
                forall|j: int| 0 <= j < order@.len() ==> self.has_block(#[trigger] order@[j]),
                same_instrs(out@, linear(*self, order@.take(i as int))),
            decreases order@.len() - i,
        {
            proof {
                assert(order@.take(i as int + 1).drop_last() =~= order@.take(i as int));
                assert(self.has_block(order@[i as int]));
            }
            let b = self.get_block(order[i]).unwrap();
            let ghost before = out@;
            let ghost target = linear(*self, order@.take(i as int));
            out.push(Instr::Label(b.label));
            let mut k: usize = 0;
            while k < b.body.len()
                invariant
                    k <= b.body@.len(),
                    same_instrs(before, target),
                    out@.len() == before.len() + 1 + k,
                    out@.take(before.len() as int) == before,
                    out@[before.len() as int] == Instr::Label(b.label),
                    forall|j: int| 0 <= j < k ==> same_instr(#[trigger] out@[before.len() + 1 + j], b.body@[j]),
                decreases b.body@.len() - k,
            {
                out.push(b.body[k].clone());
                proof {
                    assert forall|j: int| 0 <= j < before.len() implies out@.take(before.len() as int)[j] == before[j] by {
                        assert(out@[j] == out@.take(before.len() as int)[j]);
                    }
                    assert(out@.take(before.len() as int) =~= before);
                }
                k = k + 1;
            }
            let ghost mid = out@;
            match &b.terminator {
                Some(t) => {
                    out.push(t.clone());
                },
                None => {},
            }
            proof {
                let want = linear(*self, order@.take(i as int + 1));
                lemma_linear_step(*self, order@, i as int);
                let bi = block_instrs(*b);
                assert(want == target + bi);
                assert(mid.len() == before.len() + 1 + b.body@.len());
                assert(out@.len() == want.len());
                assert forall|j: int| 0 <= j < out@.len() implies same_instr(#[trigger] out@[j], want[j]) by {
                    if j < mid.len() {
                        assert(out@[j] == mid[j]);
                    }
                    if j < before.len() {
                        assert(mid[j] == mid.take(before.len() as int)[j]);
                        assert(want[j] == target[j]);
                        assert(same_instr(before[j], target[j]));
                    } else if j == before.len() {
                        assert(want[j] == bi[0]);
                    } else if j < mid.len() {
                        let m = j - before.len() - 1;
                        assert(want[j] == bi[j - target.len()]);
                        assert(bi[1 + m] == b.body@[m]);
                        assert(same_instr(mid[before.len() + 1 + m], b.body@[m]));
                    } else {
                        assert(want[j] == bi[j - target.len()]);
                    }
                }
            }
            i = i + 1;
        }
        assert(order@.take(order@.len() as int) =~= order@);
        out
    }
}


/// The block holds no phi node for a temporary that has a trivial-phi replacement.
pub open spec fn no_trivial_phi(ctx: IRContext, b: BasicBlock) -> bool {
    forall|j: int| 0 <= j < b.body@.len() ==> !(#[trigger] b.body@[j] matches Instr::Phi { dest, .. } && ctx.trivial_target(dest.0) is Some)
}

impl IRContext {
    /// The operand with its temporary resolved through the trivial-phi replacements.
    fn resolve_op(&self, op: Operand) -> (r: Operand)
        requires
            self.wf(),
        ensures
            r == match op {
                Operand::Temp(t) => if t.0 < self.temps() {
                    Operand::Temp(resolved_temp(self.trivial_table(), t, (self.trivial_table().len() + 1) as nat))
                } else {
                    op
                },
                Operand::Const(_) => op,
            },
    {
        match op {
            Operand::Temp(t) => {
                if t.0 < self.temp_counter {
                    Operand::Temp(self.resolve_phi_temp(t))
                } else {
                    Operand::Temp(t)
                }
            },
            Operand::Const(c) => Operand::Const(c),
        }
    }

    /// Operands resolved through the trivial-phi replacements.
    fn resolve_ops(&self, v: &Vec<Operand>) -> (r: Vec<Operand>)
        requires
            self.wf(),
        ensures
            r@.len() == v@.len(),
    {
        let mut r: Vec<Operand> = Vec::new();
        let mut i: usize = 0;
        while i < v.len()
            invariant
                self.wf(),
                i <= v@.len(),
                r@.len() == i,
            decreases v@.len() - i,
        {
            r.push(self.resolve_op(v[i].clone()));
            i = i + 1;
        }
        r
    }

    /// An instruction with its operands resolved through the trivial-phi replacements.
    fn resolve_instr(&self, instr: &Instr) -> (r: Instr)
        requires
            self.wf(),
        ensures
            crate::cfg::dest_of(r) == crate::cfg::dest_of(*instr),
            (r is Phi) == (*instr is Phi),
    {
        match instr {
            Instr::BinOp { op, dest, lhs: a, rhs: b } => Instr::BinOp {
                op: *op,
                dest: duplicate_temp(dest),
                lhs: self.resolve_op(a.clone()),
                rhs: self.resolve_op(b.clone()),
            },
            Instr::UnOp { op, dest, src } => Instr::UnOp { op: *op, dest: duplicate_temp(dest), src: self.resolve_op(src.clone()) },
            Instr::Call { dest, name, args } => Instr::Call { dest: clone_opt_temp(dest), name: name.clone(), args: self.resolve_ops(args) },
            Instr::TailCall { name, args } => Instr::TailCall { name: name.clone(), args: self.resolve_ops(args) },
            Instr::Return(o) => match o {
                Some(op) => Instr::Return(Some(self.resolve_op(op.clone()))),
                None => Instr::Return(None),
            },
            Instr::JumpIf { pred, holds, fails } => Instr::JumpIf { pred: self.resolve_op(pred.clone()), holds: *holds, fails: *fails },
            Instr::Phi { dest, srcs } => {
                let mut r: Vec<(Label, Operand)> = Vec::new();
                let mut i: usize = 0;
                while i < srcs.len()
                    invariant
                        self.wf(),
                        i <= srcs@.len(),
                    decreases srcs@.len() - i,
                {
                    r.push((srcs[i].0, self.resolve_op(srcs[i].1.clone())));
                    i = i + 1;
                }
                Instr::Phi { dest: duplicate_temp(dest), srcs: r }
            },
            Instr::Move { dest, src } => Instr::Move { dest: duplicate_temp(dest), src: self.resolve_op(src.clone()) },
            Instr::Load { dest, addr } => Instr::Load { dest: duplicate_temp(dest), addr: self.resolve_op(addr.clone()) },
            Instr::Store { addr, src } => Instr::Store { addr: self.resolve_op(addr.clone()), src: self.resolve_op(src.clone()) },
            Instr::Alloc { dest, size } => Instr::Alloc { dest: duplicate_temp(dest), size: self.resolve_op(size.clone()) },
            Instr::AllocArray { dest, size, count } => Instr::AllocArray {
                dest: duplicate_temp(dest),
                size: self.resolve_op(size.clone()),
                count: self.resolve_op(count.clone()),
            },
            _ => instr.clone(),
        }
    }

    /// Whether a temporary has a trivial-phi replacement.
    fn is_trivial(&self, id: usize) -> (r: bool)
        ensures
            r == (self.trivial_target(id) is Some),
    {
        match self.find_trivial(id) {
            Some(i) => {
                proof { assert(self.trivial_phis@[i as int].0 == id); }
                true
            },
            None => false,
        }
    }

    /// A block with its trivial phi nodes removed and every temporary it uses or
    /// renames resolved through the trivial-phi replacements.
    fn finalize_block(&self, b: BasicBlock) -> (r: BasicBlock)
        requires
            self.wf(),
            b.wf(),
            temps_below(b.current_def@, self.temps()),
            temps_below(b.incomplete_phis@, self.temps()),
        ensures
            r.wf(),
            r.label == b.label,
            temps_below(r.current_def@, self.temps()),
            temps_below(r.incomplete_phis@, self.temps()),
            no_trivial_phi(*self, r),
    {
        let mut b = b;
        let mut defs: Vec<(Ident, Temp)> = Vec::new();
        let mut i: usize = 0;
        while i < b.current_def.len()
            invariant
                self.wf(),
                i <= b.current_def@.len(),
                defs@.len() == i,
                temps_below(b.current_def@, self.temps()),
                forall|j: int| 0 <= j < i ==> (#[trigger] defs@[j]).0 == b.current_def@[j].0 && defs@[j].1.0 < self.temps(),
            decreases b.current_def@.len() - i,
        {
            proof { assert(b.current_def@[i as int].1.0 < self.temps()); }
            let t = self.resolve_phi_temp(duplicate_temp(&b.current_def[i].1));
            defs.push((b.current_def[i].0.clone(), t));
            i = i + 1;
        }
        proof {
            assert forall|x: int, y: int| 0 <= x < defs@.len() && 0 <= y < defs@.len() && x != y implies defs@[x].0@ != defs@[y].0@ by {
                assert(defs@[x].0 == b.current_def@[x].0);
                assert(defs@[y].0 == b.current_def@[y].0);
            }
        }
        b.current_def = defs;
        let mut body: Vec<Instr> = Vec::new();
        let mut k: usize = 0;
        while k < b.body.len()
            invariant
                self.wf(),
                k <= b.body@.len(),
                forall|j: int| 0 <= j < body@.len() ==> !(#[trigger] body@[j] matches Instr::Phi { dest, .. } && self.trivial_target(dest.0) is Some),
            decreases b.body@.len() - k,
        {
            let drop = match &b.body[k] {
                Instr::Phi { dest, .. } => self.is_trivial(dest.0),
                _ => false,
            };
            if !drop {
                let ri = self.resolve_instr(&b.body[k]);
                proof {
                    if ri is Phi {
                        assert(crate::cfg::dest_of(ri) == crate::cfg::dest_of(b.body@[k as int]));
                    }
                }
                body.push(ri);
            }
            k = k + 1;
        }
        b.body = body;
        let term = match &b.terminator {
            Some(t) => Some(self.resolve_instr(t)),
            None => None,
        };
        b.terminator = term;
        b
    }

    /// Apply the recorded trivial-phi replacements throughout the context: remove the
    /// trivial phi nodes and make every use and renaming refer to their replacements.
    pub fn finalize_trivial_phis(&mut self)
        requires
            old(self).wf(),
        ensures
            final(self).wf(),
            old(self).same_shape(final(self)),
            final(self).temps() == old(self).temps(),
            forall|l: Label| #[trigger] final(self).has_block(l) ==> no_trivial_phi(*final(self), final(self).block(l)),
    {
        if self.trivial_phis.len() == 0 {
            proof {
                assert forall|l: Label| #[trigger] self.has_block(l) implies no_trivial_phi(*self, self.block(l)) by {
                    assert forall|id: usize| self.trivial_target(id) is None by {}
                }
            }
            return;
        }
        let ghost s0 = *self;
        let mut i: usize = 0;
        while i < self.blocks.len()
            invariant
                self.wf(),
                s0.same_shape(self),
                self.temps() == s0.temps(),
                self.trivial_phis@ == s0.trivial_phis@,
                i <= self.blocks@.len(),
                forall|l: Label| l.0 < i && #[trigger] self.has_block(l) ==> no_trivial_phi(*self, self.block(l)),
            decreases self.blocks@.len() - i,
        {
            let l = Label(i);
            let ghost s_before = *self;
            match self.take_block(l) {
                Some(b) => {
                    let nb = self.finalize_block(b);
                    let ghost bb = nb;
                    self.put_block(nb);
                    proof {
                        lemma_take_put(s_before, *self, l, bb);
                        lemma_shape_trans(s0, s_before, *self);
                        assert forall|m: Label| m.0 < i + 1 && #[trigger] self.has_block(m) implies no_trivial_phi(*self, self.block(m)) by {
                            if m.0 != i {
                                assert(self.slots()[m.0 as int] == s_before.slots()[m.0 as int]);
                                assert(s_before.has_block(m));
                                assert(no_trivial_phi(s_before, s_before.block(m)));
                            }
                        }
                    }
                },
                None => {
                    proof {
                        assert(self.slots() =~= s_before.slots());
                        assert(s_before.same_shape(self));
                        lemma_shape_trans(s0, s_before, *self);
                        assert forall|m: Label| m.0 < i + 1 && #[trigger] self.has_block(m) implies no_trivial_phi(*self, self.block(m)) by {
                            assert(m.0 != i);
                            assert(self.slots()[m.0 as int] == s_before.slots()[m.0 as int]);
                            assert(s_before.has_block(m));
                            assert(no_trivial_phi(s_before, s_before.block(m)));
                        }
                    }
                },
            }
            i = i + 1;
        }
        proof {
            assert forall|l: Label| #[trigger] self.has_block(l) implies no_trivial_phi(*self, self.block(l)) by {
                assert(l.0 < i);
            }
        }
    }
}

} // verus!
