//! Per-function semantic context: parameters, scoped variables and calls made.
use vstd::prelude::*;

use crate::assoc::{
    assoc_map, distinct_keys, find_key, key_index, key_set, lemma_assoc_push, lemma_assoc_update,
    lemma_key_index,
};
use crate::ast::{Ident, Typ, TypV, Variable};

verus! {

/// Model of the scope structure: the path of open scopes and how many were ever opened.
pub struct ScopeModel {
    /// Identifier of the scope currently evaluated.
    pub current_id: usize,
    /// Number of scopes created so far.
    pub count: usize,
    /// Path from the outermost open scope to the current one.
    pub stack: Seq<usize>,
}

/// Opening a nested scope.
pub open spec fn enter_model(s: ScopeModel) -> ScopeModel {
    ScopeModel { current_id: s.count, count: (s.count + 1) as usize, stack: s.stack.push(s.count) }
}

/// Closing the current scope.
pub open spec fn exit_model(s: ScopeModel) -> ScopeModel {
    let stack = s.stack.drop_last();
    ScopeModel {
        current_id: if stack.len() == 0 { 0 } else { stack.last() },
        count: s.count,
        stack,
    }
}

/// Well-formed scope structure: open scopes were created in order and the current
/// scope is the innermost open one (or scope 0 when none is open).
pub open spec fn scope_wf(s: ScopeModel) -> bool {
    &&& forall|i: int, j: int| 0 <= i < j < s.stack.len() ==> s.stack[i] < s.stack[j]
    &&& forall|i: int| 0 <= i < s.stack.len() ==> s.stack[i] < s.count
    &&& s.current_id == (if s.stack.len() == 0 { 0 } else { s.stack.last() })
}

/// Structure and state of scopes within the type context.
pub struct ScopeContext {
    /// Identifier for the currently evaluated scope in context.
    current_id: usize,
    /// Total number of scopes within context.
    count: usize,
    /// Path to current scope from root scope; these are exactly the active scopes.
    scope_stack: Vec<usize>,
}

impl View for ScopeContext {
    type V = ScopeModel;

    closed spec fn view(&self) -> ScopeModel {
        ScopeModel { current_id: self.current_id, count: self.count, stack: self.scope_stack@ }
    }
}

impl ScopeContext {
    /// Generate a new, empty scope context.
    pub fn new() -> (r: Self)
        ensures
            r@ == (ScopeModel { current_id: 0, count: 0, stack: Seq::<usize>::empty() }),
            scope_wf(r@),
    {
        ScopeContext { current_id: 0, count: 0, scope_stack: Vec::new() }
    }

    /// Identifier of the current scope.
    pub fn current(&self) -> (r: usize)
        ensures
            r == self@.current_id,
    {
        self.current_id
    }

    /// Whether another scope can still be numbered.
    pub fn can_enter(&self) -> (r: bool)
        ensures
            r == (self@.count < usize::MAX),
    {
        self.count < usize::MAX
    }

    /// Number of open scopes.
    pub fn depth(&self) -> (r: usize)
        ensures
            r == self@.stack.len(),
    {
        self.scope_stack.len()
    }

    /// Create and enter a nested scope from the current scope.
    pub fn enter_scope(&mut self)
        requires
            old(self)@.count < usize::MAX,
        ensures
            final(self)@ == enter_model(old(self)@),
            scope_wf(old(self)@) ==> scope_wf(final(self)@),
    {
        self.current_id = self.count;
        self.count = self.count + 1;
        self.scope_stack.push(self.current_id);
    }

    /// Leave current scope and go back to parent scope.
    pub fn exit_scope(&mut self)
        requires
            old(self)@.stack.len() > 0,
        ensures
            final(self)@ == exit_model(old(self)@),
            scope_wf(old(self)@) ==> scope_wf(final(self)@),
    {
        self.scope_stack.pop();
        let n = self.scope_stack.len();
        self.current_id = if n == 0 { 0 } else { self.scope_stack[n - 1] };
    }

    /// Check that a scope id is currently active.
    pub fn is_active(&self, id: usize) -> (r: bool)
        ensures
            r == self@.stack.contains(id),
    {
        let mut i: usize = 0;
        while i < self.scope_stack.len()
            invariant
                i <= self.scope_stack.len(),
                forall|j: int| 0 <= j < i ==> self.scope_stack@[j] != id,
            decreases self.scope_stack.len() - i,
        {
            if self.scope_stack[i] == id {
                return true;
            }
            i = i + 1;
        }
        false
    }
}

/// Exiting a scope undoes entering it: the open scopes and the current scope are
/// those from before, and only the count of scopes created has grown by one.
pub proof fn law_exit_undoes_enter(s: ScopeModel)
    requires
        scope_wf(s),
        s.count < usize::MAX,
    ensures
        exit_model(enter_model(s)).stack == s.stack,
        exit_model(enter_model(s)).current_id == s.current_id,
        exit_model(enter_model(s)).count == s.count + 1,
{
    assert(enter_model(s).stack.drop_last() =~= s.stack);
}

/// A freshly entered scope is active and is the current scope, and scopes active
/// before stay active.
pub proof fn law_enter_activates(s: ScopeModel, id: usize)
    requires
        scope_wf(s),
        s.count < usize::MAX,
    ensures
        enter_model(s).stack.contains(enter_model(s).current_id),
        s.stack.contains(id) ==> enter_model(s).stack.contains(id),
        !s.stack.contains(s.count),
{
    let t = enter_model(s);
    assert(t.stack[t.stack.len() - 1] == s.count);
    if s.stack.contains(id) {
        let k = choose|k: int| 0 <= k < s.stack.len() && s.stack[k] == id;
        assert(t.stack[k] == id);
    }
}

/// Metadata and semantic info of a variable.
pub struct VarContext {
    /// Type of the variable.
    pub typ: Typ,
    /// Id of the scope within which the variable is declared.
    pub decl_scope: usize,
    /// Id of the scope within which the variable is defined.
    pub defn_scope: Option<usize>,
}

/// Model of a variable record.
pub struct VarModel {
    pub typ: TypV,
    pub decl_scope: usize,
    pub defn_scope: Option<usize>,
}

/// Model of a set of identifiers held in a vector.
pub open spec fn ident_set(v: Seq<String>) -> Set<Seq<char>> {
    Set::new(|k: Seq<char>| exists|i: int| 0 <= i < v.len() && v[i]@ == k)
}

/// Whether a vector of identifiers holds an identifier.
pub fn contains_ident(v: &Vec<Ident>, id: &Ident) -> (r: bool)
    ensures
        r == ident_set(v@).contains(id@),
{
    let mut i: usize = 0;
    while i < v.len()
        invariant
            i <= v@.len(),
            forall|j: int| 0 <= j < i ==> v@[j]@ != id@,
        decreases v@.len() - i,
    {
        if v[i] == *id {
            return true;
        }
        i = i + 1;
    }
    false
}

/// Add an identifier to a vector of identifiers used as a set.
pub fn insert_ident(v: &mut Vec<Ident>, id: Ident)
    ensures
        ident_set(final(v)@) == ident_set(old(v)@).insert(id@),
        ident_set(old(v)@).contains(id@) ==> final(v)@ == old(v)@,
{
    if !contains_ident(v, &id) {
        let ghost old_v = v@;
        v.push(id);
        assert(ident_set(v@) =~= ident_set(old_v).insert(id@)) by {
            assert forall|k: Seq<char>| ident_set(v@).contains(k) implies ident_set(old_v).insert(id@).contains(k) by {
                let i = choose|i: int| 0 <= i < v@.len() && v@[i]@ == k;
                if i < old_v.len() {
                    assert(old_v[i]@ == k);
                }
            }
            assert forall|k: Seq<char>| ident_set(old_v).insert(id@).contains(k) implies ident_set(v@).contains(k) by {
                if k == id@ {
                    assert(v@[old_v.len() as int]@ == k);
                } else {
                    let i = choose|i: int| 0 <= i < old_v.len() && old_v[i]@ == k;
                    assert(v@[i]@ == k);
                }
            }
        }
    } else {
        assert(ident_set(v@) =~= ident_set(v@).insert(id@));
    }
}

} // verus!

verus! {

/// Model of a variable record.
pub open spec fn var_model(v: VarContext) -> VarModel {
    VarModel { typ: v.typ@, decl_scope: v.decl_scope, defn_scope: v.defn_scope }
}

/// Model of the variables of a function: a map from names to records.
pub open spec fn var_map(entries: Seq<(String, VarContext)>) -> Map<Seq<char>, VarModel> {
    assoc_map(entries, |v: VarContext| var_model(v))
}

proof fn lemma_var_map_update(entries: Seq<(String, VarContext)>, i: int, v: VarContext)
    requires
        distinct_keys(entries),
        0 <= i < entries.len(),
    ensures
        distinct_keys(entries.update(i, (entries[i].0, v))),
        var_map(entries.update(i, (entries[i].0, v))) == var_map(entries).insert(entries[i].0@, var_model(v)),
{
    lemma_assoc_update(entries, i, v, |v: VarContext| var_model(v));
}

proof fn lemma_var_map_push(entries: Seq<(String, VarContext)>, k: String, v: VarContext)
    requires
        distinct_keys(entries),
        !key_set(entries).contains(k@),
    ensures
        distinct_keys(entries.push((k, v))),
        var_map(entries.push((k, v))) == var_map(entries).insert(k@, var_model(v)),
{
    lemma_assoc_push(entries, k, v, |v: VarContext| var_model(v));
}

/// Model of a function's semantic context.
pub struct FunctionModel {
    /// Parameter types in order.
    pub params: Seq<TypV>,
    /// Scope structure.
    pub scopes: ScopeModel,
    /// Variables by name.
    pub vars: Map<Seq<char>, VarModel>,
    /// Names of the functions called.
    pub calls: Set<Seq<char>>,
}

/// A variable is declared when it is recorded and its declaration scope is open.
pub open spec fn declared(m: FunctionModel, k: Seq<char>) -> bool {
    m.vars.contains_key(k) && m.scopes.stack.contains(m.vars[k].decl_scope)
}

/// A variable is defined when its definition scope is open.
pub open spec fn defined(m: FunctionModel, k: Seq<char>) -> bool {
    m.vars.contains_key(k) && (m.vars[k].defn_scope matches Some(s) && m.scopes.stack.contains(s))
}

/// Record of a variable after a definition of it in the current scope.
pub open spec fn defined_record(m: FunctionModel, k: Seq<char>, t: TypV) -> VarModel {
    if declared(m, k) {
        VarModel {
            typ: t,
            decl_scope: m.vars[k].decl_scope,
            defn_scope: if defined(m, k) { m.vars[k].defn_scope } else { Some(m.scopes.current_id) },
        }
    } else {
        VarModel { typ: t, decl_scope: m.scopes.current_id, defn_scope: Some(m.scopes.current_id) }
    }
}

/// A record that `define_all_vars` promotes: declared in an open scope, not defined in one.
pub open spec fn eligible(m: FunctionModel, v: VarModel) -> bool {
    m.scopes.stack.contains(v.decl_scope) && !(v.defn_scope matches Some(s) && m.scopes.stack.contains(s))
}

/// A record after `define_all_vars`.
pub open spec fn promote_record(m: FunctionModel, v: VarModel) -> VarModel {
    if eligible(m, v) {
        VarModel { defn_scope: Some(m.scopes.current_id), ..v }
    } else {
        v
    }
}

/// The variables after `define_all_vars`.
pub open spec fn promote_all(m: FunctionModel) -> Map<Seq<char>, VarModel> {
    Map::new(|k: Seq<char>| m.vars.contains_key(k), |k: Seq<char>| promote_record(m, m.vars[k]))
}

/// Metadata and semantic info for a function.
pub struct FunctionContext {
    /// Sequence of parameter types taken by this function.
    params: Vec<Typ>,
    /// Scope context for semantic analysis within this function.
    pub scope_context: ScopeContext,
    /// Variables within this function (names are distinct).
    variables: Vec<(Ident, VarContext)>,
    /// Function calls made from within this function (names are distinct).
    function_calls: Vec<Ident>,
}

/// Models of a sequence of types.
pub open spec fn typ_views(ts: Seq<Typ>) -> Seq<TypV> {
    ts.map_values(|t: Typ| t@)
}

/// Models of the types of a sequence of variables.
pub open spec fn var_typ_views(vs: Seq<Variable>) -> Seq<TypV> {
    vs.map_values(|v: Variable| v.0@)
}

impl View for FunctionContext {
    type V = FunctionModel;

    closed spec fn view(&self) -> FunctionModel {
        FunctionModel {
            params: typ_views(self.params@),
            scopes: self.scope_context@,
            vars: var_map(self.variables@),
            calls: ident_set(self.function_calls@),
        }
    }
}

impl FunctionContext {
    /// Representation invariant.
    pub closed spec fn wf(&self) -> bool {
        distinct_keys(self.variables@) && scope_wf(self.scope_context@)
    }

    /// Generate a new context for a function, treating parameters as defined variables.
    pub fn new(params: &[Variable]) -> (r: Self)
        requires
            forall|i: int| 0 <= i < params@.len() ==> params@[i].0@ != TypV::Void,
        ensures
            r.wf(),
            r@.params == var_typ_views(params@),
            r@.scopes == (ScopeModel { current_id: 0, count: 0, stack: Seq::<usize>::empty() }),
            r@.calls == Set::<Seq<char>>::empty(),
            forall|k: Seq<char>| #[trigger] r@.vars.contains_key(k) <==> exists|i: int| 0 <= i < params@.len() && params@[i].1@ == k,
    {
        let mut types: Vec<Typ> = Vec::new();
        let mut i: usize = 0;
        while i < params.len()
            invariant
                i <= params@.len(),
                types@.len() == i,
                typ_views(types@) == var_typ_views(params@).take(i as int),
            decreases params@.len() - i,
        {
            let ghost prev = types@;
            let t = params[i].0.duplicate();
            assert(t@ == params@[i as int].0@);
            types.push(t);
            i = i + 1;
            assert forall|j: int| 0 <= j < i implies #[trigger] typ_views(types@)[j] == var_typ_views(params@).take(i as int)[j] by {
                assert(typ_views(types@)[j] == types@[j]@);
                assert(var_typ_views(params@)[j] == params@[j].0@);
                if j < i - 1 {
                    assert(typ_views(prev)[j] == var_typ_views(params@).take(i - 1)[j]);
                    assert(typ_views(prev)[j] == prev[j]@);
                }
            }
            assert(typ_views(types@) =~= var_typ_views(params@).take(i as int));
        }
        assert(var_typ_views(params@).take(params@.len() as int) =~= var_typ_views(params@));
        let mut ctx = FunctionContext {
            params: types,
            scope_context: ScopeContext::new(),
            variables: Vec::new(),
            function_calls: Vec::new(),
        };
        assert(ident_set(ctx.function_calls@) =~= Set::<Seq<char>>::empty());
        ctx.reset_params(params);
        ctx
    }

    /// Clear previous param names and initialize the new parameter list as defined.
    pub fn reset_params(&mut self, params: &[Variable])
        requires
            old(self).wf(),
            forall|i: int| 0 <= i < params@.len() ==> params@[i].0@ != TypV::Void,
        ensures
            final(self).wf(),
            final(self)@.params == old(self)@.params,
            final(self)@.scopes == old(self)@.scopes,
            final(self)@.calls == old(self)@.calls,
            forall|k: Seq<char>| #[trigger] final(self)@.vars.contains_key(k) <==> exists|i: int| 0 <= i < params@.len() && params@[i].1@ == k,
    {
        self.variables = Vec::new();
        assert(var_map(self.variables@) =~= Map::<Seq<char>, VarModel>::empty());
        let mut i: usize = 0;
        while i < params.len()
            invariant
                self.wf(),
                i <= params@.len(),
                forall|j: int| 0 <= j < params@.len() ==> params@[j].0@ != TypV::Void,
                self@.params == old(self)@.params,
                self@.scopes == old(self)@.scopes,
                self@.calls == old(self)@.calls,
                forall|k: Seq<char>| #[trigger] self@.vars.contains_key(k) <==> exists|j: int| 0 <= j < i && params@[j].1@ == k,
            decreases params@.len() - i,
        {
            let var = (params[i].0.duplicate(), params[i].1.clone());
            let ghost before = self@;
            let _ = self.define_var(var);
            i = i + 1;
            assert forall|k: Seq<char>| #[trigger] self@.vars.contains_key(k) <==> exists|j: int| 0 <= j < i && params@[j].1@ == k by {
                if self@.vars.contains_key(k) && k != params@[i - 1].1@ {
                    assert(before.vars.contains_key(k));
                }
                if exists|j: int| 0 <= j < i && params@[j].1@ == k {
                    let j = choose|j: int| 0 <= j < i && params@[j].1@ == k;
                    if j < i - 1 {
                        assert(before.vars.contains_key(k));
                    }
                }
            }
        }
    }

    /// Get a function's sequence of parameter types.
    pub fn get_params(&self) -> (r: &Vec<Typ>)
        ensures
            typ_views(r@) == self@.params,
    {
        &self.params
    }

    /// Get the type of a variable; `None` when no variable of that name is known.
    pub fn get_var_type(&self, id: &Ident) -> (r: Option<Typ>)
        requires
            self.wf(),
        ensures
            r is Some <==> self@.vars.contains_key(id@),
            r matches Some(t) ==> t@ == self@.vars[id@].typ,
    {
        match find_key(&self.variables, id) {
            Some(i) => {
                proof { lemma_key_index(self.variables@, i as int); }
                Some(self.variables[i].1.typ.duplicate())
            },
            None => None,
        }
    }

    /// Check if a variable is declared in the currently active scopes.
    pub fn is_var_declared(&self, var: &Ident) -> (r: bool)
        requires
            self.wf(),
        ensures
            r == declared(self@, var@),
    {
        match find_key(&self.variables, var) {
            Some(i) => {
                proof { lemma_key_index(self.variables@, i as int); }
                self.scope_context.is_active(self.variables[i].1.decl_scope)
            },
            None => false,
        }
    }

    /// Check if a variable is defined in the currently active scopes.
    pub fn is_var_defined(&self, var: &Ident) -> (r: bool)
        requires
            self.wf(),
        ensures
            r == defined(self@, var@),
    {
        match find_key(&self.variables, var) {
            Some(i) => {
                proof { lemma_key_index(self.variables@, i as int); }
                match self.variables[i].1.defn_scope {
                    Some(s) => self.scope_context.is_active(s),
                    None => false,
                }
            },
            None => false,
        }
    }

    /// Declare a variable in the current scope. Fails when the variable is void or
    /// is already declared in an active scope.
    pub fn declare_var(&mut self, var: Variable) -> (r: Result<(), String>)
        requires
            old(self).wf(),
        ensures
            final(self).wf(),
            r is Ok <==> (var.0@ != TypV::Void && !declared(old(self)@, var.1@)),
            r is Ok ==> final(self)@ == (FunctionModel {
                vars: old(self)@.vars.insert(var.1@, VarModel {
                    typ: var.0@,
                    decl_scope: old(self)@.scopes.current_id,
                    defn_scope: None,
                }),
                ..old(self)@
            }),
            r is Err ==> final(self)@ == old(self)@,
    {
        if var.0.same(&Typ::Void) {
            return Err(String::from_str("a variable cannot be void"));
        }
        if self.is_var_declared(&var.1) {
            return Err(String::from_str("variable is already declared in this scope"));
        }
        let ctx = VarContext { typ: var.0, decl_scope: self.scope_context.current(), defn_scope: None };
        self.put_var(var.1, ctx);
        Ok(())
    }

    /// Insert or replace the record of a variable.
    fn put_var(&mut self, name: Ident, ctx: VarContext)
        requires
            old(self).wf(),
        ensures
            final(self).wf(),
            final(self)@ == (FunctionModel { vars: old(self)@.vars.insert(name@, var_model(ctx)), ..old(self)@ }),
    {
        match find_key(&self.variables, &name) {
            Some(i) => {
                proof { lemma_var_map_update(self.variables@, i as int, ctx); }
                let key = self.variables[i].0.clone();
                self.variables.set(i, (key, ctx));
            },
            None => {
                proof { lemma_var_map_push(self.variables@, name, ctx); }
                self.variables.push((name, ctx));
            },
        }
    }

    /// Define a variable in the current scope (and declare it if fresh). Fails when
    /// the variable is void.
    pub fn define_var(&mut self, var: Variable) -> (r: Result<(), String>)
        requires
            old(self).wf(),
        ensures
            final(self).wf(),
            r is Ok <==> var.0@ != TypV::Void,
            r is Ok ==> final(self)@ == (FunctionModel {
                vars: old(self)@.vars.insert(var.1@, defined_record(old(self)@, var.1@, var.0@)),
                ..old(self)@
            }),
            r is Err ==> final(self)@ == old(self)@,
    {
        if var.0.same(&Typ::Void) {
            return Err(String::from_str("a variable cannot be void"));
        }
        let current = self.scope_context.current();
        match find_key(&self.variables, &var.1) {
            Some(i) => {
                proof { lemma_key_index(self.variables@, i as int); }
                let decl = self.variables[i].1.decl_scope;
                if self.scope_context.is_active(decl) {
                    let defn = match self.variables[i].1.defn_scope {
                        Some(s) => if self.scope_context.is_active(s) { Some(s) } else { Some(current) },
                        None => Some(current),
                    };
                    let ctx = VarContext { typ: var.0, decl_scope: decl, defn_scope: defn };
                    self.put_var(var.1, ctx);
                } else {
                    let ctx = VarContext { typ: var.0, decl_scope: current, defn_scope: Some(current) };
                    self.put_var(var.1, ctx);
                }
            },
            None => {
                let ctx = VarContext { typ: var.0, decl_scope: current, defn_scope: Some(current) };
                self.put_var(var.1, ctx);
            },
        }
        Ok(())
    }

    /// Define all variables declared in active scopes but not defined in them, in the
    /// current scope; returns their names.
    pub fn define_all_vars(&mut self) -> (r: Vec<Ident>)
        requires
            old(self).wf(),
        ensures
            final(self).wf(),
            final(self)@ == (FunctionModel { vars: promote_all(old(self)@), ..old(self)@ }),
            ident_set(r@) == Set::new(|k: Seq<char>| declared(old(self)@, k) && !defined(old(self)@, k)),
    {
        let current = self.scope_context.current();
        let ghost old_entries = self.variables@;
        let ghost m = self@;
        let mut defines: Vec<Ident> = Vec::new();
        let mut i: usize = 0;
        while i < self.variables.len()
            invariant
                self.wf(),
                i <= self.variables@.len(),
                self.variables@.len() == old_entries.len(),
                self.scope_context@ == m.scopes,
                current == m.scopes.current_id,
                self@.params == m.params,
                self@.calls == m.calls,
                m.vars == var_map(old_entries),
                distinct_keys(old_entries),
                forall|j: int| 0 <= j < old_entries.len() ==> (#[trigger] self.variables@[j]).0 == old_entries[j].0,
                forall|j: int| 0 <= j < i ==> var_model((#[trigger] self.variables@[j]).1) == promote_record(m, var_model(old_entries[j].1)),
                forall|j: int| i <= j < old_entries.len() ==> (#[trigger] self.variables@[j]).1 == old_entries[j].1,
                ident_set(defines@) == Set::new(|k: Seq<char>| exists|j: int| 0 <= j < i && old_entries[j].0@ == k && eligible(m, var_model(old_entries[j].1))),
            decreases old_entries.len() - i,
        {
            let decl = self.variables[i].1.decl_scope;
            let active_decl = self.scope_context.is_active(decl);
            let active_defn = match self.variables[i].1.defn_scope {
                Some(s) => self.scope_context.is_active(s),
                None => false,
            };
            let ghost prev_defs = defines@;
            if active_decl && !active_defn {
                let key = self.variables[i].0.clone();
                let typ = self.variables[i].1.typ.duplicate();
                let name = key.clone();
                let ctx = VarContext { typ, decl_scope: decl, defn_scope: Some(current) };
                proof { lemma_var_map_update(self.variables@, i as int, ctx); }
                self.variables.set(i, (key, ctx));
                insert_ident(&mut defines, name);
            }
            proof {
                assert(ident_set(defines@) =~= Set::new(|k: Seq<char>| exists|j: int| 0 <= j < i + 1 && old_entries[j].0@ == k && eligible(m, var_model(old_entries[j].1)))) by {
                    assert forall|k: Seq<char>| ident_set(defines@).contains(k) implies exists|j: int| 0 <= j < i + 1 && old_entries[j].0@ == k && eligible(m, var_model(old_entries[j].1)) by {
                        if ident_set(prev_defs).contains(k) {
                            let j = choose|j: int| 0 <= j < i && old_entries[j].0@ == k && eligible(m, var_model(old_entries[j].1));
                            assert(0 <= j < i + 1);
                        } else {
                            assert(k == old_entries[i as int].0@);
                        }
                    }
                    assert forall|k: Seq<char>| (exists|j: int| 0 <= j < i + 1 && old_entries[j].0@ == k && eligible(m, var_model(old_entries[j].1))) implies ident_set(defines@).contains(k) by {
                        let j = choose|j: int| 0 <= j < i + 1 && old_entries[j].0@ == k && eligible(m, var_model(old_entries[j].1));
                        if j < i {
                            assert(ident_set(prev_defs).contains(k));
                        }
                    }
                }
            }
            i = i + 1;
        }
        proof {
            assert forall|k: Seq<char>| #[trigger] var_map(self.variables@).contains_key(k) <==> promote_all(m).contains_key(k) by {
                if var_map(self.variables@).contains_key(k) {
                    let j = choose|j: int| 0 <= j < self.variables@.len() && self.variables@[j].0@ == k;
                    assert(old_entries[j].0@ == k);
                    assert(key_set(old_entries).contains(k));
                }
                if promote_all(m).contains_key(k) {
                    let j = choose|j: int| 0 <= j < old_entries.len() && old_entries[j].0@ == k;
                    assert(self.variables@[j].0@ == k);
                    assert(key_set(self.variables@).contains(k));
                }
            }
            assert forall|k: Seq<char>| #[trigger] promote_all(m).contains_key(k) implies var_map(self.variables@)[k] == promote_all(m)[k] by {
                let j = key_index(old_entries, k);
                lemma_key_index(old_entries, j);
                assert(self.variables@[j].0@ == k);
                lemma_key_index(self.variables@, j);
            }
            assert(var_map(self.variables@) =~= promote_all(m));
            assert forall|k: Seq<char>| ident_set(defines@).contains(k) <==> (declared(m, k) && !defined(m, k)) by {
                if ident_set(defines@).contains(k) {
                    let j = choose|j: int| 0 <= j < old_entries.len() && old_entries[j].0@ == k && eligible(m, var_model(old_entries[j].1));
                    lemma_key_index(old_entries, j);
                }
                if declared(m, k) && !defined(m, k) {
                    let j = key_index(old_entries, k);
                    lemma_key_index(old_entries, j);
                    assert(exists|j: int| 0 <= j < old_entries.len() && old_entries[j].0@ == k && eligible(m, var_model(old_entries[j].1)));
                }
            }
            assert(ident_set(defines@) =~= Set::new(|k: Seq<char>| declared(m, k) && !defined(m, k)));
        }
        defines
    }

    /// Whether another scope can still be numbered.
    pub fn can_enter_scope(&self) -> (r: bool)
        ensures
            r == (self@.scopes.count < usize::MAX),
    {
        self.scope_context.can_enter()
    }

    /// Create and enter a nested scope.
    pub fn enter_scope(&mut self)
        requires
            old(self).wf(),
            old(self)@.scopes.count < usize::MAX,
        ensures
            final(self).wf(),
            final(self)@ == (FunctionModel { scopes: crate::function_context::enter_model(old(self)@.scopes), ..old(self)@ }),
    {
        self.scope_context.enter_scope();
    }

    /// Leave the current scope.
    pub fn exit_scope(&mut self)
        requires
            old(self).wf(),
            old(self)@.scopes.stack.len() > 0,
        ensures
            final(self).wf(),
            final(self)@ == (FunctionModel { scopes: crate::function_context::exit_model(old(self)@.scopes), ..old(self)@ }),
    {
        self.scope_context.exit_scope();
    }

    /// Get a copy of the functions called by this function.
    pub fn get_function_calls(&self) -> (r: Vec<Ident>)
        ensures
            ident_set(r@) == self@.calls,
    {
        self.function_calls.clone()
    }

    /// Add a function call made by this function.
    pub fn insert_function_call(&mut self, id: Ident)
        ensures
            final(self)@ == (FunctionModel { calls: old(self)@.calls.insert(id@), ..old(self)@ }),
            old(self).wf() ==> final(self).wf(),
    {
        insert_ident(&mut self.function_calls, id);
    }
}

} // verus!
