//! Symbol table: type aliases, function signatures and contexts, and struct layouts.
use vstd::prelude::*;

use crate::assoc::{
    assoc_map, distinct_keys, find_key, key_set, lemma_assoc_push, lemma_assoc_update,
    lemma_key_index,
};
use crate::ast::{Ident, Typ, TypV, Variable};
use crate::function_context::{
    contains_ident, ident_set, insert_ident, var_typ_views, FunctionContext, FunctionModel,
};

verus! {

/// Concrete type of a type after replacing aliases (`None` when an alias is unknown or
/// names a function, or when nested dimensions do not fit in a machine word).
pub open spec fn resolve_spec(types: Map<Seq<char>, TypV>, fns: Set<Seq<char>>, t: TypV) -> Option<TypV>
    decreases t,
{
    match t {
        TypV::Array(inner, d) => match resolve_spec(types, fns, *inner) {
            Some(TypV::Array(ii, id)) => if id + d <= usize::MAX {
                Some(TypV::Array(ii, (id + d) as usize))
            } else {
                None
            },
            Some(r) => Some(TypV::Array(Box::new(r), d)),
            None => None,
        },
        TypV::Pointer(inner, d) => match resolve_spec(types, fns, *inner) {
            Some(TypV::Pointer(ii, id)) => if id + d <= usize::MAX {
                Some(TypV::Pointer(ii, (id + d) as usize))
            } else {
                None
            },
            Some(r) => Some(TypV::Pointer(Box::new(r), d)),
            None => None,
        },
        TypV::Typedef(id) => if types.contains_key(id) && !fns.contains(id) {
            Some(types[id])
        } else {
            None
        },
        _ => Some(t),
    }
}

/// The shape of a pointer or array type is valid: no pointer to void, null or an alias.
pub open spec fn pointer_legal(t: TypV) -> bool
    decreases t,
{
    match t {
        TypV::Pointer(inner, _) | TypV::Array(inner, _) => {
            !(*inner is Void || *inner is Null || *inner is Typedef) && pointer_legal(*inner)
        },
        _ => true,
    }
}

/// Model of the symbol table.
pub struct SymbolModel {
    /// Concrete type of each alias, and return type of each function.
    pub types: Map<Seq<char>, TypV>,
    /// Context of each declared function.
    pub functions: Map<Seq<char>, FunctionModel>,
    /// Functions that have been defined.
    pub defined: Set<Seq<char>>,
    /// Functions declared in the header.
    pub header: Set<Seq<char>>,
    /// Fields of each struct, in declaration order.
    pub structs: Map<Seq<char>, Seq<(TypV, Seq<char>)>>,
}

/// Models of a list of fields.
pub open spec fn fields_view(fs: Seq<(Typ, Ident)>) -> Seq<(TypV, Seq<char>)> {
    fs.map_values(|f: (Typ, Ident)| (f.0@, f.1@))
}

/// An identifier is a type alias: it has a type and is not a function.
pub open spec fn is_alias(m: SymbolModel, id: Seq<char>) -> bool {
    m.types.contains_key(id) && !m.functions.contains_key(id)
}

/// Resolution of a type in the symbol table.
pub open spec fn resolve_in(m: SymbolModel, t: TypV) -> Option<TypV> {
    resolve_spec(m.types, m.functions.dom(), t)
}

/// Models of a list of variables.
pub open spec fn vars_view(ps: Seq<Variable>) -> Seq<(TypV, Seq<char>)> {
    ps.map_values(|p: Variable| (p.0@, p.1@))
}

/// A parameter is acceptable: its type resolves to a legal, non-void, non-struct type,
/// and its name is not a type alias.
pub open spec fn param_ok(m: SymbolModel, p: (TypV, Seq<char>)) -> bool {
    &&& resolve_in(m, p.0) matches Some(r)
    &&& r != TypV::Void
    &&& !is_alias(m, p.1)
    &&& !(r is Struct)
    &&& pointer_legal(r)
}

/// Names in a list of variables are pairwise distinct.
pub open spec fn names_distinct(ps: Seq<(TypV, Seq<char>)>) -> bool {
    forall|i: int, j: int| 0 <= i < j < ps.len() ==> ps[i].1 != ps[j].1
}

/// Resolved types of a list of variables (meaningful when each resolves).
pub open spec fn resolved_types(m: SymbolModel, ps: Seq<(TypV, Seq<char>)>) -> Seq<TypV> {
    ps.map_values(|p: (TypV, Seq<char>)| resolve_in(m, p.0).unwrap())
}

/// A function declaration is accepted.
pub open spec fn declaration_ok(m: SymbolModel, id: Seq<char>, t: TypV, ps: Seq<(TypV, Seq<char>)>, is_header: bool) -> bool {
    &&& !(is_header && id == "main"@)
    &&& !is_alias(m, id)
    &&& resolve_in(m, t) matches Some(r)
    &&& !(r is Struct)
    &&& pointer_legal(r)
    &&& forall|i: int| 0 <= i < ps.len() ==> param_ok(m, #[trigger] ps[i])
    &&& names_distinct(ps)
    &&& m.functions.contains_key(id) ==> (m.types[id] == r && m.functions[id].params == resolved_types(m, ps))
}

/// Names of a list of variables.
pub open spec fn names_of(ps: Seq<(TypV, Seq<char>)>) -> Set<Seq<char>> {
    Set::new(|k: Seq<char>| exists|i: int| 0 <= i < ps.len() && ps[i].1 == k)
}

/// The first field of a given name.
pub open spec fn field_lookup(fs: Seq<(TypV, Seq<char>)>, f: Seq<char>) -> Option<TypV>
    decreases fs.len(),
{
    if fs.len() == 0 {
        None
    } else if fs[0].1 == f {
        Some(fs[0].0)
    } else {
        field_lookup(fs.drop_first(), f)
    }
}

/// A struct definition is accepted.
pub open spec fn struct_ok(m: SymbolModel, id: Seq<char>, fs: Seq<(TypV, Seq<char>)>) -> bool {
    &&& !m.structs.contains_key(id)
    &&& forall|i: int| 0 <= i < fs.len() ==> field_ok(m, #[trigger] fs[i].0)
    &&& names_distinct(fs)
}

/// A field type is acceptable.
pub open spec fn field_ok(m: SymbolModel, t: TypV) -> bool {
    &&& resolve_in(m, t) matches Some(r)
    &&& !(r is Void || r is Null)
    &&& (r matches TypV::Struct(s) ==> m.structs.contains_key(s))
    &&& pointer_legal(r)
}

/// Store and query metadata about symbols (identifiers) in the source code.
pub struct SymbolTable {
    /// Concrete type for typedefs, return type for functions.
    typ: Vec<(Ident, Typ)>,
    /// Context of each declared function.
    function_context: Vec<(Ident, FunctionContext)>,
    /// Set of functions that have been defined.
    defined_functions: Vec<Ident>,
    /// Set of functions declared in header.
    header_functions: Vec<Ident>,
    /// Mapping from struct identifier to fields in declaration order.
    structs: Vec<(Ident, Vec<(Typ, Ident)>)>,
}

impl View for SymbolTable {
    type V = SymbolModel;

    closed spec fn view(&self) -> SymbolModel {
        SymbolModel {
            types: assoc_map(self.typ@, |t: Typ| t@),
            functions: assoc_map(self.function_context@, |f: FunctionContext| f@),
            defined: ident_set(self.defined_functions@),
            header: ident_set(self.header_functions@),
            structs: assoc_map(self.structs@, |fs: Vec<(Typ, Ident)>| fields_view(fs@)),
        }
    }
}

impl SymbolTable {
    /// Representation invariant.
    pub closed spec fn wf(&self) -> bool {
        &&& distinct_keys(self.typ@)
        &&& distinct_keys(self.function_context@)
        &&& distinct_keys(self.structs@)
        &&& forall|i: int| 0 <= i < self.function_context@.len() ==> (#[trigger] self.function_context@[i]).1.wf()
        &&& forall|k: Seq<char>| #[trigger] self@.functions.contains_key(k) ==> self@.types.contains_key(k)
    }

    /// Create a new, empty symbol table.
    pub fn new() -> (r: Self)
        ensures
            r.wf(),
            r@.types == Map::<Seq<char>, TypV>::empty(),
            r@.functions == Map::<Seq<char>, FunctionModel>::empty(),
            r@.defined == Set::<Seq<char>>::empty(),
            r@.header == Set::<Seq<char>>::empty(),
            r@.structs == Map::<Seq<char>, Seq<(TypV, Seq<char>)>>::empty(),
    {
        let r = SymbolTable {
            typ: Vec::new(),
            function_context: Vec::new(),
            defined_functions: Vec::new(),
            header_functions: Vec::new(),
            structs: Vec::new(),
        };
        assert(r@.types =~= Map::<Seq<char>, TypV>::empty());
        assert(r@.functions =~= Map::<Seq<char>, FunctionModel>::empty());
        assert(r@.defined =~= Set::<Seq<char>>::empty());
        assert(r@.header =~= Set::<Seq<char>>::empty());
        assert(r@.structs =~= Map::<Seq<char>, Seq<(TypV, Seq<char>)>>::empty());
        r
    }

    /// Check whether an identifier is a type alias.
    pub fn is_typedef(&self, id: &Ident) -> (r: bool)
        requires
            self.wf(),
        ensures
            r == is_alias(self@, id@),
    {
        find_key(&self.typ, id).is_some() && find_key(&self.function_context, id).is_none()
    }

    /// Check whether an identifier belongs to a declared function.
    pub fn is_function(&self, id: &Ident) -> (r: bool)
        requires
            self.wf(),
        ensures
            r == self@.functions.contains_key(id@),
    {
        find_key(&self.function_context, id).is_some()
    }

    /// Check whether an identifier belongs to a function declared in the header file.
    pub fn is_header_function(&self, id: &Ident) -> (r: bool)
        ensures
            r == self@.header.contains(id@),
    {
        contains_ident(&self.header_functions, id)
    }

    /// Check whether a function has been defined.
    pub fn is_function_defined(&self, id: &Ident) -> (r: bool)
        ensures
            r == self@.defined.contains(id@),
    {
        contains_ident(&self.defined_functions, id)
    }

    /// Check whether a struct has been defined.
    pub fn is_struct_defined(&self, id: &Ident) -> (r: bool)
        requires
            self.wf(),
        ensures
            r == self@.structs.contains_key(id@),
    {
        find_key(&self.structs, id).is_some()
    }

    /// Checks that the shape of a pointer type is valid.
    pub fn is_pointer_legal(typ: &Typ) -> (r: bool)
        ensures
            r == pointer_legal(typ@),
        decreases typ,
    {
        let inner = match typ {
            Typ::Pointer(inner, _) => inner,
            Typ::Array(inner, _) => inner,
            _ => return true,
        };
        let bad = match &**inner {
            Typ::Void | Typ::Null | Typ::Typedef(_) => true,
            _ => false,
        };
        !bad && Self::is_pointer_legal(&**inner)
    }

    /// Get the concrete type of a type alias. Fails when an alias is unknown or names a
    /// function. The table is left as it was.
    pub fn resolve_type(&mut self, typ: Typ) -> (r: Result<Typ, String>)
        requires
            old(self).wf(),
        ensures
            final(self)@ == old(self)@,
            final(self).wf(),
            r is Ok <==> resolve_in(old(self)@, typ@) is Some,
            r matches Ok(t) ==> Some(t@) == resolve_in(old(self)@, typ@),
    {
        self.resolve(&typ)
    }

    /// Resolution of a type against the table.
    fn resolve(&self, typ: &Typ) -> (r: Result<Typ, String>)
        requires
            self.wf(),
        ensures
            r is Ok <==> resolve_in(self@, typ@) is Some,
            r matches Ok(t) ==> Some(t@) == resolve_in(self@, typ@),
        decreases typ,
    {
        match typ {
            Typ::Array(inner, dims) => {
                let t = self.resolve(&**inner)?;
                match t {
                    Typ::Array(ii, id) => match id.checked_add(*dims) {
                        Some(d) => Ok(Typ::Array(ii, d)),
                        None => Err(String::from_str("array dimensions overflow")),
                    },
                    t => Ok(Typ::Array(Box::new(t), *dims)),
                }
            },
            Typ::Pointer(inner, dims) => {
                let t = self.resolve(&**inner)?;
                match t {
                    Typ::Pointer(ii, id) => match id.checked_add(*dims) {
                        Some(d) => Ok(Typ::Pointer(ii, d)),
                        None => Err(String::from_str("pointer depth overflow")),
                    },
                    t => Ok(Typ::Pointer(Box::new(t), *dims)),
                }
            },
            Typ::Typedef(id) => match find_key(&self.typ, id) {
                Some(i) => {
                    proof { lemma_key_index(self.typ@, i as int); }
                    if find_key(&self.function_context, id).is_some() {
                        Err(String::from_str("identifier is not a type"))
                    } else {
                        Ok(self.typ[i].1.duplicate())
                    }
                },
                None => Err(String::from_str("unknown type identifier")),
            },
            Typ::Struct(s) => Ok(Typ::Struct(s.clone())),
            Typ::Bool => Ok(Typ::Bool),
            Typ::Int => Ok(Typ::Int),
            Typ::Null => Ok(Typ::Null),
            Typ::Void => Ok(Typ::Void),
        }
    }

    /// Get a mutable function context by function name.
    pub fn get_mut_function_context(&mut self, id: &Ident) -> (r: &mut FunctionContext)
        requires
            old(self).wf(),
            old(self)@.functions.contains_key(id@),
        ensures
            (*r)@ == old(self)@.functions[id@],
            r.wf(),
            final(self)@ == (SymbolModel {
                functions: old(self)@.functions.insert(id@, (*final(r))@),
                ..old(self)@
            }),
            final(r).wf() ==> final(self).wf(),
    {
        let i = find_key(&self.function_context, id).unwrap();
        proof {
            let entries = self.function_context@;
            lemma_key_index(entries, i as int);
            assert forall|v: FunctionContext|
                assoc_map(#[trigger] entries.update(i as int, (entries[i as int].0, v)), |f: FunctionContext| f@)
                    == assoc_map(entries, |f: FunctionContext| f@).insert(id@, v@)
                && distinct_keys(entries.update(i as int, (entries[i as int].0, v))) by {
                lemma_assoc_update(entries, i as int, v, |f: FunctionContext| f@);
            }
        }
        &mut self.function_context[i].1
    }

    /// Get function context by function name.
    pub fn get_function_context(&self, id: &Ident) -> (r: &FunctionContext)
        requires
            self.wf(),
            self@.functions.contains_key(id@),
        ensures
            r@ == self@.functions[id@],
            r.wf(),
    {
        let i = find_key(&self.function_context, id).unwrap();
        proof { lemma_key_index(self.function_context@, i as int); }
        &self.function_context[i].1
    }

    /// Get the return type and parameter list of a declared function.
    pub fn get_function_signature(&self, id: &Ident) -> (r: Option<(Typ, Vec<Typ>)>)
        requires
            self.wf(),
        ensures
            r is Some <==> self@.functions.contains_key(id@),
            r matches Some(sig) ==> sig.0@ == self@.types[id@]
                && crate::function_context::typ_views(sig.1@) == self@.functions[id@].params,
    {
        match find_key(&self.function_context, id) {
            Some(i) => {
                proof {
                    lemma_key_index(self.function_context@, i as int);
                    assert(self@.functions.contains_key(id@));
                    assert(self@.types.contains_key(id@));
                }
                let j = find_key(&self.typ, id).unwrap();
                proof { lemma_key_index(self.typ@, j as int); }
                let params = self.function_context[i].1.get_params();
                let mut copy: Vec<Typ> = Vec::new();
                let mut k: usize = 0;
                while k < params.len()
                    invariant
                        k <= params@.len(),
                        copy@.len() == k,
                        forall|x: int| 0 <= x < k ==> (#[trigger] copy@[x])@ == params@[x]@,
                    decreases params@.len() - k,
                {
                    copy.push(params[k].duplicate());
                    k = k + 1;
                }
                assert(crate::function_context::typ_views(copy@) =~= crate::function_context::typ_views(params@));
                Some((self.typ[j].1.duplicate(), copy))
            },
            None => None,
        }
    }

    /// Get the type of a struct's field.
    pub fn get_struct_field_type(&self, struct_id: &Ident, field_id: &Ident) -> (r: Option<Typ>)
        requires
            self.wf(),
        ensures
            self@.structs.contains_key(struct_id@) ==> (match r {
                Some(t) => field_lookup(self@.structs[struct_id@], field_id@) == Some(t@),
                None => field_lookup(self@.structs[struct_id@], field_id@) is None,
            }),
            !self@.structs.contains_key(struct_id@) ==> r is None,
    {
        match find_key(&self.structs, struct_id) {
            Some(i) => {
                proof { lemma_key_index(self.structs@, i as int); }
                let fields = &self.structs[i].1;
                let ghost fv = fields_view(fields@);
                assert(self@.structs[struct_id@] == fv);
                assert(fv.skip(0) =~= fv);
                let mut k: usize = 0;
                while k < fields.len()
                    invariant
                        k <= fields@.len(),
                        fv == fields_view(fields@),
                        fv.len() == fields@.len(),
                        self@.structs.contains_key(struct_id@),
                        self@.structs[struct_id@] == fv,
                        field_lookup(fv, field_id@) == field_lookup(fv.skip(k as int), field_id@),
                    decreases fields@.len() - k,
                {
                    assert(fv.skip(k as int).drop_first() =~= fv.skip(k + 1));
                    assert(fv.skip(k as int)[0] == fv[k as int]);
                    assert(fv[k as int] == (fields@[k as int].0@, fields@[k as int].1@));
                    if fields[k].1 == *field_id {
                        return Some(fields[k].0.duplicate());
                    }
                    k = k + 1;
                }
                assert(fv.skip(k as int).len() == 0);
                None
            },
            None => None,
        }
    }

    /// Get ordered field list of a struct definition.
    pub fn get_struct_fields(&self, struct_id: &Ident) -> (r: Option<&Vec<(Typ, Ident)>>)
        requires
            self.wf(),
        ensures
            r is Some <==> self@.structs.contains_key(struct_id@),
            r matches Some(fs) ==> fields_view(fs@) == self@.structs[struct_id@],
    {
        match find_key(&self.structs, struct_id) {
            Some(i) => {
                proof { lemma_key_index(self.structs@, i as int); }
                Some(&self.structs[i].1)
            },
            None => None,
        }
    }

    /// Number of struct definitions: a bound on how deeply structs can nest.
    pub closed spec fn struct_fuel(&self) -> nat {
        self.structs@.len()
    }

    /// Number of struct definitions.
    pub(crate) fn struct_count(&self) -> (r: usize)
        ensures
            r == self.struct_fuel(),
    {
        self.structs.len()
    }

    /// Add a new type definition. Fails when the type does not resolve, resolves to
    /// void or null or an illegal pointer shape, or when the alias is not fresh.
    pub fn add_typedef(&mut self, id: &Ident, typ: &Typ) -> (r: Result<(), String>)
        requires
            old(self).wf(),
        ensures
            final(self).wf(),
            r is Ok <==> (resolve_in(old(self)@, typ@) matches Some(t) && t != TypV::Void
                && t != TypV::Null && pointer_legal(t) && !old(self)@.types.contains_key(id@)),
            r is Ok ==> final(self)@ == (SymbolModel {
                types: old(self)@.types.insert(id@, resolve_in(old(self)@, typ@).unwrap()),
                ..old(self)@
            }),
            r is Err ==> final(self)@ == old(self)@,
    {
        let t = self.resolve(typ)?;
        if t.same(&Typ::Void) || t.same(&Typ::Null) {
            return Err(String::from_str("illegal typedef of void"));
        }
        if !Self::is_pointer_legal(&t) {
            return Err(String::from_str("illegal typedef of unsupported pointer type"));
        }
        if find_key(&self.typ, id).is_some() {
            return Err(String::from_str("typedef with non-unique identifier"));
        }
        let key = id.clone();
        proof { lemma_assoc_push(self.typ@, key, t, |t: Typ| t@); }
        self.typ.push((key, t));
        Ok(())
    }

    /// Resolve and check the parameter list of a function declaration.
    fn check_params(&self, params: &mut [Variable]) -> (r: Result<(), String>)
        requires
            self.wf(),
        ensures
            r is Ok <==> (forall|i: int| 0 <= i < old(params)@.len() ==> param_ok(self@, #[trigger] vars_view(old(params)@)[i]))
                && names_distinct(vars_view(old(params)@)),
            final(params)@.len() == old(params)@.len(),
            r is Ok ==> forall|i: int| 0 <= i < old(params)@.len() ==> (#[trigger] final(params)@[i]).1 == old(params)@[i].1
                && Some(final(params)@[i].0@) == resolve_in(self@, old(params)@[i].0@),
    {
        let ghost orig = vars_view(params@);
        let ghost orig_params = params@;
        let mut names: Vec<Ident> = Vec::new();
        let mut i: usize = 0;
        while i < params.len()
            invariant
                self.wf(),
                i <= params@.len(),
                params@.len() == orig_params.len(),
                orig_params == old(params)@,
                orig == vars_view(orig_params),
                forall|j: int| 0 <= j < i ==> param_ok(self@, #[trigger] orig[j]),
                forall|j: int, k: int| 0 <= j < k < i ==> orig[j].1 != orig[k].1,
                forall|j: int| 0 <= j < i ==> (#[trigger] params@[j]).1 == orig_params[j].1
                    && Some(params@[j].0@) == resolve_in(self@, orig_params[j].0@),
                forall|j: int| i <= j < params@.len() ==> #[trigger] params@[j] == orig_params[j],
                ident_set(names@) == Set::new(|k: Seq<char>| exists|j: int| 0 <= j < i && orig[j].1 == k),
            decreases params@.len() - i,
        {
            assert(orig[i as int] == (orig_params[i as int].0@, orig_params[i as int].1@));
            let t = match self.resolve(&params[i].0) {
                Ok(t) => t,
                Err(e) => {
                    assert(!param_ok(self@, orig[i as int]));
                    return Err(e);
                },
            };
            let bad = t.same(&Typ::Void) || self.is_typedef(&params[i].1) || match t {
                Typ::Struct(_) => true,
                _ => false,
            } || !Self::is_pointer_legal(&t);
            if bad {
                assert(!param_ok(self@, orig[i as int]));
                return Err(String::from_str("illegal parameter"));
            }
            if contains_ident(&names, &params[i].1) {
                proof {
                    let j = choose|j: int| 0 <= j < i && orig[j].1 == params@[i as int].1@;
                    assert(orig[j].1 == orig[i as int].1);
                }
                return Err(String::from_str("identifier used for multiple parameters"));
            }
            let name = params[i].1.clone();
            let ghost prev = ident_set(names@);
            insert_ident(&mut names, name);
            let id = params[i].1.clone();
            params[i] = (t, id);
            proof {
                assert(ident_set(names@) =~= Set::new(|k: Seq<char>| exists|j: int| 0 <= j < i + 1 && orig[j].1 == k)) by {
                    assert forall|k: Seq<char>| ident_set(names@).contains(k) implies exists|j: int| 0 <= j < i + 1 && orig[j].1 == k by {
                        if k != orig[i as int].1 {
                            assert(prev.contains(k));
                        }
                    }
                    assert forall|k: Seq<char>| (exists|j: int| 0 <= j < i + 1 && orig[j].1 == k) implies ident_set(names@).contains(k) by {
                        let j = choose|j: int| 0 <= j < i + 1 && orig[j].1 == k;
                        if j < i {
                            assert(prev.contains(k));
                        }
                    }
                }
                assert forall|j: int, k: int| 0 <= j < k < i + 1 implies orig[j].1 != orig[k].1 by {
                    if k == i {
                        if orig[j].1 == orig[k].1 {
                            assert(prev.contains(orig[j].1));
                        }
                    }
                }
            }
            i = i + 1;
        }
        Ok(())
    }

    /// Add a function declaration. Fails when `main` is declared in the header, the
    /// name is a type alias, the return or a parameter type is illegal, parameter names
    /// repeat, or a redeclaration does not match the earlier declaration. On success the
    /// return type and the parameter types are left resolved.
    pub fn declare_function(
        &mut self,
        id: &Ident,
        typ: &mut Typ,
        params: &mut [Variable],
        is_header: bool,
    ) -> (r: Result<(), String>)
        requires
            old(self).wf(),
        ensures
            final(self).wf(),
            r is Ok <==> declaration_ok(old(self)@, id@, old(typ)@, vars_view(old(params)@), is_header),
            r is Err ==> final(self)@ == old(self)@,
            r is Ok ==> {
                &&& Some(final(typ)@) == resolve_in(old(self)@, old(typ)@)
                &&& final(params)@.len() == old(params)@.len()
                &&& forall|i: int| 0 <= i < old(params)@.len() ==> (#[trigger] final(params)@[i]).1 == old(params)@[i].1
                    && Some(final(params)@[i].0@) == resolve_in(old(self)@, old(params)@[i].0@)
                &&& final(self)@.functions.contains_key(id@)
                &&& final(self)@.functions[id@].params == resolved_types(old(self)@, vars_view(old(params)@))
                &&& final(self)@.functions[id@].vars.dom() == names_of(vars_view(old(params)@))
                &&& final(self)@.types == old(self)@.types.insert(id@, final(typ)@)
                &&& final(self)@.structs == old(self)@.structs
                &&& forall|f: Seq<char>| f != id@ ==> #[trigger] final(self)@.functions.contains_key(f) == old(self)@.functions.contains_key(f)
                    && (final(self)@.functions.contains_key(f) ==> final(self)@.functions[f] == old(self)@.functions[f])
                &&& old(self)@.functions.contains_key(id@) ==> final(self)@.defined == old(self)@.defined
                    && final(self)@.header == old(self)@.header
                    && final(self)@.functions[id@].scopes == old(self)@.functions[id@].scopes
                    && final(self)@.functions[id@].calls == old(self)@.functions[id@].calls
                &&& !old(self)@.functions.contains_key(id@) ==> final(self)@.defined == (if is_header { old(self)@.defined.insert(id@) } else { old(self)@.defined })
                    && final(self)@.header == (if is_header { old(self)@.header.insert(id@) } else { old(self)@.header })
                    && final(self)@.functions[id@].calls == Set::<Seq<char>>::empty()
                    && final(self)@.functions[id@].scopes.stack.len() == 0
            },
    {
        let ghost m = self@;
        let ghost ps = vars_view(params@);
        if is_header && *id == String::from_str("main") {
            return Err(String::from_str("cannot declare main in the header file"));
        }
        if self.is_typedef(id) {
            return Err(String::from_str("function name is a type alias"));
        }
        let t = self.resolve(typ)?;
        let is_struct = match t {
            Typ::Struct(_) => true,
            _ => false,
        };
        if is_struct {
            return Err(String::from_str("function cannot return a struct by value"));
        }
        if !Self::is_pointer_legal(&t) {
            return Err(String::from_str("function returns an illegal type"));
        }
        self.check_params(params)?;
        let ghost rt = resolved_types(m, ps);
        assert forall|i: int| 0 <= i < params@.len() implies (#[trigger] params@[i]).0@ == rt[i] by {
            assert(ps[i] == (old(params)@[i].0@, old(params)@[i].1@));
        }
        match find_key(&self.function_context, id) {
            Some(fi) => {
                proof {
                    lemma_key_index(self.function_context@, fi as int);
                    assert(self@.functions.contains_key(id@));
                    assert(self@.types.contains_key(id@));
                }
                let ti = find_key(&self.typ, id).unwrap();
                proof { lemma_key_index(self.typ@, ti as int); }
                if !self.typ[ti].1.same(&t) {
                    return Err(String::from_str("mismatching return type in redeclaration"));
                }
                let decl = self.function_context[fi].1.get_params();
                let ghost dv = crate::function_context::typ_views(decl@);
                assert(m.functions[id@].params == dv);
                if decl.len() != params.len() {
                    proof {
                        if dv == rt {
                            assert(dv.len() == rt.len());
                        }
                    }
                    return Err(String::from_str("mismatching parameter list in redeclaration"));
                }
                let mut k: usize = 0;
                while k < params.len()
                    invariant
                        decl@.len() == params@.len(),
                        k <= params@.len(),
                        dv == crate::function_context::typ_views(decl@),
                        rt.len() == params@.len(),
                        self.wf(),
                        self@ == m,
                        m.functions.contains_key(id@),
                        m.functions[id@].params == dv,
                        rt == resolved_types(m, ps),
                        ps == vars_view(old(params)@),
                        forall|i: int| 0 <= i < params@.len() ==> (#[trigger] params@[i]).0@ == rt[i],
                        forall|j: int| 0 <= j < k ==> (#[trigger] decl@[j])@ == params@[j].0@,
                    decreases params@.len() - k,
                {
                    if !decl[k].same(&params[k].0) {
                        proof {
                            assert(dv[k as int] == decl@[k as int]@);
                            assert(dv != rt);
                        }
                        return Err(String::from_str("mismatching parameter list in redeclaration"));
                    }
                    k = k + 1;
                }
                assert(dv =~= rt);
                *typ = t;
                let ctx = self.get_mut_function_context(id);
                ctx.reset_params(params);
                proof {
                    assert forall|k: Seq<char>| #[trigger] self@.functions[id@].vars.dom().contains(k) <==> names_of(ps).contains(k) by {
                        if names_of(ps).contains(k) {
                            let j = choose|j: int| 0 <= j < ps.len() && ps[j].1 == k;
                            assert(params@[j].1@ == k);
                        }
                        if self@.functions[id@].vars.dom().contains(k) {
                            let j = choose|j: int| 0 <= j < params@.len() && params@[j].1@ == k;
                            assert(ps[j].1 == k);
                        }
                    }
                    assert(self@.functions[id@].vars.dom() =~= names_of(ps));
                    assert(self@.types =~= m.types.insert(id@, typ@));
                }
                Ok(())
            },
            None => {
                proof {
                    assert forall|i: int| 0 <= i < params@.len() implies (#[trigger] params@[i]).0@ != TypV::Void by {
                        assert(param_ok(m, ps[i]));
                    }
                }
                let ctx = FunctionContext::new(params);
                proof {
                    assert(var_typ_views(params@) =~= rt);
                    assert forall|k: Seq<char>| #[trigger] ctx@.vars.dom().contains(k) <==> names_of(ps).contains(k) by {
                        if names_of(ps).contains(k) {
                            let j = choose|j: int| 0 <= j < ps.len() && ps[j].1 == k;
                            assert(params@[j].1@ == k);
                            assert(ctx@.vars.contains_key(k));
                        }
                        if ctx@.vars.dom().contains(k) {
                            let j = choose|j: int| 0 <= j < params@.len() && params@[j].1@ == k;
                            assert(ps[j].1 == k);
                        }
                    }
                    assert(ctx@.vars.dom() =~= names_of(ps));
                }
                let tkey = id.clone();
                if find_key(&self.typ, id).is_some() {
                    return Err(String::from_str("function name is a type alias"));
                }
                let ret = t.duplicate();
                proof { lemma_assoc_push(self.typ@, tkey, ret, |t: Typ| t@); }
                self.typ.push((tkey, ret));
                assert(self@.types == m.types.insert(id@, t@));
                let fkey = id.clone();
                let ghost cm = ctx@;
                proof { lemma_assoc_push(self.function_context@, fkey, ctx, |f: FunctionContext| f@); }
                self.function_context.push((fkey, ctx));
                assert(self@.functions == m.functions.insert(id@, cm));
                *typ = t;
                if is_header {
                    insert_ident(&mut self.defined_functions, id.clone());
                    insert_ident(&mut self.header_functions, id.clone());
                }
                proof {
                    assert forall|k: Seq<char>| #[trigger] self@.functions.contains_key(k) implies self@.types.contains_key(k) by {
                        if k != id@ {
                            assert(m.functions.contains_key(k));
                        }
                    }
                }
                Ok(())
            },
        }
    }

    /// Add a function definition. Fails when the function is already defined or when
    /// its declaration is not accepted.
    pub fn define_function(&mut self, id: &Ident, typ: &mut Typ, params: &mut [Variable]) -> (r: Result<(), String>)
        requires
            old(self).wf(),
        ensures
            final(self).wf(),
            r is Ok <==> !old(self)@.defined.contains(id@)
                && declaration_ok(old(self)@, id@, old(typ)@, vars_view(old(params)@), false),
            r is Err ==> final(self)@ == old(self)@,
            r is Ok ==> {
                &&& final(self)@.defined == old(self)@.defined.insert(id@)
                &&& final(self)@.header == old(self)@.header
                &&& final(self)@.functions.contains_key(id@)
                &&& final(self)@.functions[id@].params == resolved_types(old(self)@, vars_view(old(params)@))
                &&& final(self)@.functions[id@].vars.dom() == names_of(vars_view(old(params)@))
                &&& final(self)@.types == old(self)@.types.insert(id@, final(typ)@)
                &&& Some(final(typ)@) == resolve_in(old(self)@, old(typ)@)
                &&& final(self)@.structs == old(self)@.structs
                &&& final(params)@.len() == old(params)@.len()
                &&& forall|i: int| 0 <= i < old(params)@.len() ==> (#[trigger] final(params)@[i]).1 == old(params)@[i].1
                    && Some(final(params)@[i].0@) == resolve_in(old(self)@, old(params)@[i].0@)
                &&& forall|f: Seq<char>| f != id@ ==> #[trigger] final(self)@.functions.contains_key(f) == old(self)@.functions.contains_key(f)
                    && (final(self)@.functions.contains_key(f) ==> final(self)@.functions[f] == old(self)@.functions[f])
                &&& old(self)@.functions.contains_key(id@) ==> final(self)@.functions[id@].calls == old(self)@.functions[id@].calls
                &&& !old(self)@.functions.contains_key(id@) ==> final(self)@.functions[id@].calls == Set::<Seq<char>>::empty()
            },
    {
        if self.is_function_defined(id) {
            return Err(String::from_str("function cannot be redefined"));
        }
        self.declare_function(id, typ, params, false)?;
        insert_ident(&mut self.defined_functions, id.clone());
        Ok(())
    }

    /// Add a struct definition. Fails when the struct is already defined, a field type
    /// does not resolve or is void, null, an undefined struct or an illegal pointer
    /// shape, or a field name repeats. On success the field types are left resolved.
    pub fn define_struct(&mut self, id: &String, fields: &mut [(Typ, Ident)]) -> (r: Result<(), String>)
        requires
            old(self).wf(),
        ensures
            final(self).wf(),
            r is Ok <==> struct_ok(old(self)@, id@, vars_view(old(fields)@)),
            r is Err ==> final(self)@ == old(self)@,
            r is Ok ==> {
                &&& final(fields)@.len() == old(fields)@.len()
                &&& forall|i: int| 0 <= i < old(fields)@.len() ==> (#[trigger] final(fields)@[i]).1 == old(fields)@[i].1
                    && Some(final(fields)@[i].0@) == resolve_in(old(self)@, old(fields)@[i].0@)
                &&& final(self)@ == (SymbolModel {
                    structs: old(self)@.structs.insert(id@, vars_view(final(fields)@)),
                    ..old(self)@
                })
            },
    {
        if find_key(&self.structs, id).is_some() {
            return Err(String::from_str("struct was already defined"));
        }
        let ghost orig = vars_view(fields@);
        let ghost orig_fields = fields@;
        let mut names: Vec<Ident> = Vec::new();
        let mut i: usize = 0;
        while i < fields.len()
            invariant
                self.wf(),
                !self@.structs.contains_key(id@),
                i <= fields@.len(),
                fields@.len() == orig_fields.len(),
                orig_fields == old(fields)@,
                orig == vars_view(orig_fields),
                self@ == old(self)@,
                forall|j: int| 0 <= j < i ==> field_ok(self@, #[trigger] orig[j].0),
                forall|j: int, k: int| 0 <= j < k < i ==> orig[j].1 != orig[k].1,
                forall|j: int| 0 <= j < i ==> (#[trigger] fields@[j]).1 == orig_fields[j].1
                    && Some(fields@[j].0@) == resolve_in(self@, orig_fields[j].0@),
                forall|j: int| i <= j < fields@.len() ==> #[trigger] fields@[j] == orig_fields[j],
                ident_set(names@) == Set::new(|k: Seq<char>| exists|j: int| 0 <= j < i && orig[j].1 == k),
            decreases fields@.len() - i,
        {
            assert(orig[i as int] == (orig_fields[i as int].0@, orig_fields[i as int].1@));
            let t = match self.resolve(&fields[i].0) {
                Ok(t) => t,
                Err(e) => {
                    assert(!field_ok(self@, orig[i as int].0));
                    return Err(e);
                },
            };
            let bad = t.same(&Typ::Void) || t.same(&Typ::Null) || !Self::is_pointer_legal(&t) || match &t {
                Typ::Struct(sid) => !self.is_struct_defined(sid),
                _ => false,
            };
            if bad {
                assert(!field_ok(self@, orig[i as int].0));
                return Err(String::from_str("illegal struct field"));
            }
            if contains_ident(&names, &fields[i].1) {
                proof {
                    let j = choose|j: int| 0 <= j < i && orig[j].1 == fields@[i as int].1@;
                    assert(orig[j].1 == orig[i as int].1);
                }
                return Err(String::from_str("field is defined multiple times"));
            }
            let name = fields[i].1.clone();
            let ghost prev = ident_set(names@);
            insert_ident(&mut names, name);
            let fid = fields[i].1.clone();
            fields[i] = (t, fid);
            proof {
                assert(ident_set(names@) =~= Set::new(|k: Seq<char>| exists|j: int| 0 <= j < i + 1 && orig[j].1 == k)) by {
                    assert forall|k: Seq<char>| ident_set(names@).contains(k) implies exists|j: int| 0 <= j < i + 1 && orig[j].1 == k by {
                        if k != orig[i as int].1 {
                            assert(prev.contains(k));
                        }
                    }
                    assert forall|k: Seq<char>| (exists|j: int| 0 <= j < i + 1 && orig[j].1 == k) implies ident_set(names@).contains(k) by {
                        let j = choose|j: int| 0 <= j < i + 1 && orig[j].1 == k;
                        if j < i {
                            assert(prev.contains(k));
                        }
                    }
                }
                assert forall|j: int, k: int| 0 <= j < k < i + 1 implies orig[j].1 != orig[k].1 by {
                    if k == i {
                        if orig[j].1 == orig[k].1 {
                            assert(prev.contains(orig[j].1));
                        }
                    }
                }
            }
            i = i + 1;
        }
        let mut copy: Vec<(Typ, Ident)> = Vec::new();
        let mut k: usize = 0;
        while k < fields.len()
            invariant
                k <= fields@.len(),
                copy@.len() == k,
                forall|j: int| 0 <= j < k ==> (#[trigger] copy@[j]).0@ == fields@[j].0@ && copy@[j].1 == fields@[j].1,
            decreases fields@.len() - k,
        {
            copy.push((fields[k].0.duplicate(), fields[k].1.clone()));
            k = k + 1;
        }
        assert(fields_view(copy@) =~= vars_view(fields@));
        let key = id.clone();
        proof { lemma_assoc_push(self.structs@, key, copy, |fs: Vec<(Typ, Ident)>| fields_view(fs@)); }
        self.structs.push((key, copy));
        Ok(())
    }
}

} // verus!
