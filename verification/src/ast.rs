//! Abstract syntax tree of C0 programs.
use vstd::prelude::*;

verus! {

/// An identifier is a string.
pub type Ident = String;

/// Primitive types and typedefs.
#[derive(Debug)]
pub enum Typ {
    /// Sentinel type of no width
    Void,
    /// Sentinel type for null pointer
    Null,
    /// 32-bit signed integer
    Int,
    /// 8-bit boolean
    Bool,
    /// Ordered set of field variables (identifier)
    Struct(Ident),
    /// Contiguous sized memory block (type, dimensions)
    Array(Box<Typ>, usize),
    /// Memory address (type, dimensions)
    Pointer(Box<Typ>, usize),
    /// Transparent type alias (identifier)
    Typedef(Ident),
}

/// Mathematical model of a type: identifiers are taken by their characters.
pub enum TypV {
    Void,
    Null,
    Int,
    Bool,
    Struct(Seq<char>),
    Array(Box<TypV>, usize),
    Pointer(Box<TypV>, usize),
    Typedef(Seq<char>),
}

impl View for Typ {
    type V = TypV;

    open spec fn view(&self) -> TypV
        decreases self,
    {
        match self {
            Typ::Void => TypV::Void,
            Typ::Null => TypV::Null,
            Typ::Int => TypV::Int,
            Typ::Bool => TypV::Bool,
            Typ::Struct(id) => TypV::Struct(id@),
            Typ::Array(inner, d) => TypV::Array(Box::new((**inner).view()), *d),
            Typ::Pointer(inner, d) => TypV::Pointer(Box::new((**inner).view()), *d),
            Typ::Typedef(id) => TypV::Typedef(id@),
        }
    }
}

impl Clone for Typ {
    fn clone(&self) -> (r: Typ)
        ensures
            r == *self,
    {
        self.duplicate()
    }
}

impl Typ {
    /// A copy of this type.
    pub fn duplicate(&self) -> (r: Typ)
        ensures
            r == *self,
            r@ == self@,
        decreases self,
    {
        match self {
            Typ::Void => Typ::Void,
            Typ::Null => Typ::Null,
            Typ::Int => Typ::Int,
            Typ::Bool => Typ::Bool,
            Typ::Struct(id) => Typ::Struct(id.clone()),
            Typ::Array(inner, d) => Typ::Array(Box::new((**inner).duplicate()), *d),
            Typ::Pointer(inner, d) => Typ::Pointer(Box::new((**inner).duplicate()), *d),
            Typ::Typedef(id) => Typ::Typedef(id.clone()),
        }
    }

    /// Structural equality of two types.
    pub fn same(&self, other: &Typ) -> (r: bool)
        ensures
            r == (self@ == other@),
        decreases self,
    {
        match (self, other) {
            (Typ::Void, Typ::Void) => true,
            (Typ::Null, Typ::Null) => true,
            (Typ::Int, Typ::Int) => true,
            (Typ::Bool, Typ::Bool) => true,
            (Typ::Struct(a), Typ::Struct(b)) => *a == *b,
            (Typ::Typedef(a), Typ::Typedef(b)) => *a == *b,
            (Typ::Array(a, da), Typ::Array(b, db)) => *da == *db && (**a).same(&**b),
            (Typ::Pointer(a, da), Typ::Pointer(b, db)) => *da == *db && (**a).same(&**b),
            _ => false,
        }
    }
}


/// Top-level AST is a list of global declarations.
pub type ProgramAST = Vec<GlobalDeclaration>;

/// A variable is a (type, identifier) tuple.
pub type Variable = (Typ, Ident);

/// Global declaration in the program.
pub enum GlobalDeclaration {
    /// Function declaration (type, identifier, parameters)
    FDecl(Typ, Ident, Vec<Variable>),
    /// Function definition (type, identifier, parameters, body)
    FDefn(Typ, Ident, Vec<Variable>, Stmt),
    /// Struct declaration (identifier)
    SDecl(Ident),
    /// Struct definition (identifier, field variables)
    SDefn(Ident, Vec<Variable>),
    /// Type definition (underlying type, alias)
    TDefn(Typ, Ident),
}

/// Local statement.
pub enum Stmt {
    /// Variable declaration
    Decl(Variable),
    /// Variable definition
    Defn(Variable, Expr),
    /// Variable assignment
    Asgn(Expr, AsnOp, Expr),
    /// Conditional (bool expression, if-branch, else-branch)
    Cond(Expr, Box<Stmt>, Box<Stmt>),
    /// While loop (bool expression, loop body)
    While(Expr, Box<Stmt>),
    /// For loop (init, boolean expr, step, body)
    For(Box<Option<Stmt>>, Expr, Box<Option<Stmt>>, Box<Stmt>),
    /// Block of ordered statements
    Block(Vec<Stmt>),
    /// Return
    Ret(Option<Expr>),
    /// Standalone expression
    Expr(Expr),
    /// Assertion (bool expression)
    Assert(Expr),
    /// No operation/empty statement
    NoOp(),
}

/// Expression tree.
/// For non-immediates, the type is determined during semantic analysis; a parser sets it to `None`.
pub enum Expr {
    /// Numeric immediate
    Number(i64),
    /// Boolean immediate
    Bool(bool),
    /// Null-pointer
    Null,
    /// Variable identifier
    Variable(Ident, Option<Typ>),
    /// Binary operation (lhs, operator, rhs, type)
    Binop(Box<Expr>, BinOp, Box<Expr>, Option<Typ>),
    /// Unary operator (operator, operand, type)
    Unop(UnOp, Box<Expr>, Option<Typ>),
    /// Ternary operator (boolean expr, if-expr, else-expr, type)
    Ternop(Box<Expr>, Box<Expr>, Box<Expr>, Option<Typ>),
    /// Function call (identifier, arguments list, type)
    Call(Ident, Vec<Expr>, Option<Typ>),
    /// Pointer dereference (source, dimension, type)
    Deref(Box<Expr>, usize, Option<Typ>),
    /// Fetch from array at index (source, index, type)
    ArrayIndex(Box<Expr>, Box<Expr>, Option<Typ>),
    /// Dereference field of a struct (source, field id, field type)
    StructDeref(Box<Expr>, Ident, Option<Typ>),
    /// Allocate heap memory for a pointer (data type, pointer type)
    Alloc(Typ, Option<Typ>),
    /// Allocate heap memory for an array (data type, size, array type)
    AllocArray(Typ, Box<Expr>, Option<Typ>),
}

/// Model of an optional type annotation: a missing annotation reads as `void`.
pub open spec fn annotation(t: Option<Typ>) -> TypV {
    match t {
        Some(t) => t@,
        None => TypV::Void,
    }
}

/// The type that an expression produces, as its annotation records it.
pub open spec fn type_of(e: Expr) -> TypV {
    match e {
        Expr::Number(_) => TypV::Int,
        Expr::Bool(_) => TypV::Bool,
        Expr::Null => TypV::Null,
        Expr::Variable(_, t) => annotation(t),
        Expr::Binop(_, _, _, t) => annotation(t),
        Expr::Unop(_, _, t) => annotation(t),
        Expr::Ternop(_, _, _, t) => annotation(t),
        Expr::Call(_, _, t) => annotation(t),
        Expr::Deref(_, _, t) => annotation(t),
        Expr::ArrayIndex(_, _, t) => annotation(t),
        Expr::StructDeref(_, _, t) => annotation(t),
        Expr::Alloc(_, t) => annotation(t),
        Expr::AllocArray(_, _, t) => annotation(t),
    }
}

/// A copy of an optional type annotation.
pub fn duplicate_annotation(t: &Option<Typ>) -> (r: Option<Typ>)
    ensures
        annotation(r) == annotation(*t),
        r is Some <==> t is Some,
{
    match t {
        Some(t) => Some(t.duplicate()),
        None => None,
    }
}

impl Expr {
    /// A copy of this expression.
    pub fn duplicate(&self) -> (r: Expr)
        ensures
            type_of(r) == type_of(*self),
        decreases self,
    {
        match self {
            Expr::Number(n) => Expr::Number(*n),
            Expr::Bool(b) => Expr::Bool(*b),
            Expr::Null => Expr::Null,
            Expr::Variable(v, t) => Expr::Variable(v.clone(), duplicate_annotation(t)),
            Expr::Binop(l, op, r, t) => Expr::Binop(
                Box::new((**l).duplicate()),
                *op,
                Box::new((**r).duplicate()),
                duplicate_annotation(t),
            ),
            Expr::Unop(op, x, t) => Expr::Unop(*op, Box::new((**x).duplicate()), duplicate_annotation(t)),
            Expr::Ternop(c, a, b, t) => Expr::Ternop(
                Box::new((**c).duplicate()),
                Box::new((**a).duplicate()),
                Box::new((**b).duplicate()),
                duplicate_annotation(t),
            ),
            Expr::Call(f, args, t) => {
                let mut copy: Vec<Expr> = Vec::new();
                let mut i: usize = 0;
                while i < args.len()
                    invariant
                        i <= args@.len(),
                        *self == Expr::Call(*f, *args, *t),
                    decreases args@.len() - i,
                {
                    proof {
                        let e = *self;
                        if let Expr::Call(_, a, _) = e {
                            assert(decreases_to!(e => a));
                            assert(decreases_to!(a => a@));
                            assert(decreases_to!(a@ => a@[i as int]));
                        }
                    }
                    copy.push(args[i].duplicate());
                    i = i + 1;
                }
                Expr::Call(f.clone(), copy, duplicate_annotation(t))
            },
            Expr::Deref(p, d, t) => Expr::Deref(Box::new((**p).duplicate()), *d, duplicate_annotation(t)),
            Expr::ArrayIndex(a, i, t) => Expr::ArrayIndex(
                Box::new((**a).duplicate()),
                Box::new((**i).duplicate()),
                duplicate_annotation(t),
            ),
            Expr::StructDeref(x, f, t) => Expr::StructDeref(Box::new((**x).duplicate()), f.clone(), duplicate_annotation(t)),
            Expr::Alloc(t0, t) => Expr::Alloc(t0.duplicate(), duplicate_annotation(t)),
            Expr::AllocArray(t0, n, t) => Expr::AllocArray(t0.duplicate(), Box::new((**n).duplicate()), duplicate_annotation(t)),
        }
    }

    /// Get the type produced as result of computing this expression.
    pub fn get_type(&self) -> (r: Typ)
        ensures
            r@ == type_of(*self),
    {
        match self {
            Expr::Number(_) => Typ::Int,
            Expr::Bool(_) => Typ::Bool,
            Expr::Null => Typ::Null,
            Expr::Variable(_, typ)
            | Expr::Binop(_, _, _, typ)
            | Expr::Unop(_, _, typ)
            | Expr::Ternop(_, _, _, typ)
            | Expr::Call(_, _, typ)
            | Expr::Deref(_, _, typ)
            | Expr::ArrayIndex(_, _, typ)
            | Expr::StructDeref(_, _, typ)
            | Expr::Alloc(_, typ)
            | Expr::AllocArray(_, _, typ) => match typ {
                Some(t) => t.duplicate(),
                None => Typ::Void,
            },
        }
    }
}

/// Unary operators.
#[derive(Copy, Clone, PartialEq, Eq, Structural, Debug)]
pub enum UnOp {
    /// Arithmetic negation
    Neg,
    /// Bitwise NOT
    Not,
    /// Logical NOT
    LNot,
}

/// Binary operators.
#[derive(Copy, Clone, PartialEq, Eq, Structural, Debug)]
pub enum BinOp {
    /// Arithmetic add (+)
    Add,
    /// Arithmetic subtract (-)
    Sub,
    /// Arithmetic multiply (*)
    Mul,
    /// Arithmetic divide (/)
    Div,
    /// Arithmetic remainder/modulo (%)
    Mod,
    /// Bitwise AND (&)
    And,
    /// Bitwise Exclusive OR (^)
    Xor,
    /// Bitwise OR (|)
    Or,
    /// Arithmetic left-shift (<<)
    Sal,
    /// Arithmetic right-shift (>>)
    Sar,
    /// Logical AND (&&)
    LAnd,
    /// Logical OR (||)
    LOr,
    /// Compare equality (==)
    CmpEq,
    /// Compare inequality (!=)
    CmpNeq,
    /// Compare less-than (<)
    Lt,
    /// Compare greater-than (>)
    Gt,
    /// Compare less-than-equal (<=)
    Lte,
    /// Compare greater-than-equal (>=)
    Gte,
}

/// Post-operators.
#[derive(Copy, Clone, PartialEq, Eq, Structural, Debug)]
pub enum PostOp {
    /// Post-increment (++)
    Inc,
    /// Post-decrement (--)
    Dec,
}

impl PostOp {
    /// Transform post-operator to binary operator.
    pub fn to_binop(self) -> (r: BinOp)
        ensures
            r == (match self {
                PostOp::Inc => BinOp::Add,
                PostOp::Dec => BinOp::Sub,
            }),
    {
        match self {
            PostOp::Inc => BinOp::Add,
            PostOp::Dec => BinOp::Sub,
        }
    }
}

/// Assignment operators.
#[derive(Copy, Clone, PartialEq, Eq, Structural, Debug)]
pub enum AsnOp {
    /// =
    Equal,
    /// +=
    Plus,
    /// -=
    Minus,
    /// *=
    Times,
    /// /=
    Div,
    /// %=
    Mod,
    /// &=
    And,
    /// ^=
    Xor,
    /// |=
    Or,
    /// <<=
    Sal,
    /// >>=
    Sar,
}

/// The binary operator that a compound assignment operator applies.
pub open spec fn asnop_binop(op: AsnOp) -> Option<BinOp> {
    match op {
        AsnOp::Equal => None,
        AsnOp::Plus => Some(BinOp::Add),
        AsnOp::Minus => Some(BinOp::Sub),
        AsnOp::Times => Some(BinOp::Mul),
        AsnOp::Div => Some(BinOp::Div),
        AsnOp::Mod => Some(BinOp::Mod),
        AsnOp::And => Some(BinOp::And),
        AsnOp::Xor => Some(BinOp::Xor),
        AsnOp::Or => Some(BinOp::Or),
        AsnOp::Sal => Some(BinOp::Sal),
        AsnOp::Sar => Some(BinOp::Sar),
    }
}

impl AsnOp {
    /// Try transforming assignment operator to binary operator.
    pub fn to_binop(self) -> (r: Option<BinOp>)
        ensures
            r == asnop_binop(self),
    {
        match self {
            AsnOp::Equal => None,
            AsnOp::Plus => Some(BinOp::Add),
            AsnOp::Minus => Some(BinOp::Sub),
            AsnOp::Times => Some(BinOp::Mul),
            AsnOp::Div => Some(BinOp::Div),
            AsnOp::Mod => Some(BinOp::Mod),
            AsnOp::And => Some(BinOp::And),
            AsnOp::Xor => Some(BinOp::Xor),
            AsnOp::Or => Some(BinOp::Or),
            AsnOp::Sal => Some(BinOp::Sal),
            AsnOp::Sar => Some(BinOp::Sar),
        }
    }
}

} // verus!
