use vstd::prelude::*;

verus! {

/// A source position carried by every tree node.
#[derive(Clone, Copy, PartialEq, Eq, Structural, Debug)]
pub struct Span {
    pub low: u32,
    pub high: u32,
}

/// The built-in operations that lowering may introduce. They have no
/// user-visible function identity and never go through symbol lookup.
#[derive(Clone, Copy, PartialEq, Eq, Structural, Debug)]
pub enum IntrinsicOp {
    ArrayPush,
    ArraySize,
    ToString,
    AsRef,
}

/// A concrete storage slot, identified by a handle into the definition pool.
#[derive(Clone, Copy, PartialEq, Eq, Structural, Debug)]
pub enum Value {
    Local(usize),
    Param(usize),
}

/// Names either a resolvable symbol or a concrete storage value.
#[derive(Clone, Copy, PartialEq, Eq, Structural, Debug)]
pub enum Reference {
    Value(Value),
    Symbol(usize),
}

/// A resolved type: either a primitive, a class handle, or a composite.
#[derive(PartialEq, Eq, Debug)]
pub enum TypeId {
    Void,
    Str,
    I32,
    Bool,
    Class(usize),
    ScriptRef(Box<TypeId>),
    Array(Box<TypeId>),
}

impl TypeId {
    /// Structural equality test, usable from verified code.
    pub fn type_eq(&self, other: &TypeId) -> (r: bool)
        ensures
            r == (self == other),
        decreases self,
    {
        match (self, other) {
            (TypeId::Void, TypeId::Void) => true,
            (TypeId::Str, TypeId::Str) => true,
            (TypeId::I32, TypeId::I32) => true,
            (TypeId::Bool, TypeId::Bool) => true,
            (TypeId::Class(a), TypeId::Class(b)) => a == b,
            (TypeId::ScriptRef(a), TypeId::ScriptRef(b)) => a.type_eq(b),
            (TypeId::Array(a), TypeId::Array(b)) => a.type_eq(b),
            _ => false,
        }
    }

    /// A fresh copy equal to `self`.
    pub fn duplicate(&self) -> (r: TypeId)
        ensures
            r == *self,
        decreases self,
    {
        match self {
            TypeId::Void => TypeId::Void,
            TypeId::Str => TypeId::Str,
            TypeId::I32 => TypeId::I32,
            TypeId::Bool => TypeId::Bool,
            TypeId::Class(a) => TypeId::Class(*a),
            TypeId::ScriptRef(a) => TypeId::ScriptRef(Box::new(a.duplicate())),
            TypeId::Array(a) => TypeId::Array(Box::new(a.duplicate())),
        }
    }
}

/// A constant literal.
#[derive(PartialEq, Eq, Debug)]
pub enum Constant {
    Str(String),
    I32(i32),
    Bool(bool),
}

/// What a call goes through: a resolved user function, or a compiler-known
/// intrinsic tagged with its result type.
#[derive(PartialEq, Eq, Debug)]
pub enum Callable {
    Function(usize),
    Intrinsic(IntrinsicOp, TypeId),
}

impl Callable {
    /// A fresh copy equal to `self`.
    pub fn duplicate(&self) -> (r: Callable)
        ensures
            r == *self,
    {
        match self {
            Callable::Function(i) => Callable::Function(*i),
            Callable::Intrinsic(op, t) => Callable::Intrinsic(*op, t.duplicate()),
        }
    }
}

/// One `${expr}tail` piece of an interpolated string literal.
#[derive(PartialEq, Eq, Debug)]
pub struct StrPart {
    pub expr: Expr,
    pub tail: String,
}

/// The typed expression tree this stage consumes and produces. The three
/// sugar kinds (`ArrayLit`, `InterpStr`, `ForIn`) never survive lowering.
#[derive(PartialEq, Eq, Debug)]
pub enum Expr {
    Constant(Constant, Span),
    Ident(Reference, Span),
    Call(Callable, Vec<TypeId>, Vec<Expr>, Span),
    Assign(Box<Expr>, Box<Expr>, Span),
    ArrayElem(Box<Expr>, Box<Expr>, Span),
    While(Box<Expr>, StmtSeq, Span),
    ArrayLit(Vec<Expr>, TypeId, Span),
    InterpStr(String, Vec<StrPart>, Span),
    ForIn(usize, Box<Expr>, StmtSeq, Span),
}

/// A statement sequence.
#[derive(PartialEq, Eq, Debug)]
pub struct StmtSeq {
    pub exprs: Vec<Expr>,
}

/// The mathematical model of one `${expr}tail` piece.
#[verifier::ext_equal]
pub struct SpecPart {
    pub expr: SpecExpr,
    pub tail: String,
}

/// The mathematical model of the expression tree: child lists are `Seq`s, and
/// statement sequences are flattened to the sequence of their statements.
#[verifier::ext_equal]
pub enum SpecExpr {
    Constant(Constant, Span),
    Ident(Reference, Span),
    Call(Callable, Seq<TypeId>, Seq<SpecExpr>, Span),
    Assign(Box<SpecExpr>, Box<SpecExpr>, Span),
    ArrayElem(Box<SpecExpr>, Box<SpecExpr>, Span),
    While(Box<SpecExpr>, Seq<SpecExpr>, Span),
    ArrayLit(Seq<SpecExpr>, TypeId, Span),
    InterpStr(String, Seq<SpecPart>, Span),
    ForIn(usize, Box<SpecExpr>, Seq<SpecExpr>, Span),
}

pub open spec fn view_exprs(v: Seq<Expr>) -> Seq<SpecExpr>
    decreases v, 2nat,
{
    Seq::new(v.len(), |i: int| view_expr_in(v, i))
}

pub open spec fn view_expr_in(v: Seq<Expr>, i: int) -> SpecExpr
    decreases v, 1nat,
    via view_expr_in_decreases
{
    if 0 <= i < v.len() {
        view_expr(v[i])
    } else {
        SpecExpr::Constant(Constant::Bool(false), Span { low: 0, high: 0 })
    }
}

#[via_fn]
proof fn view_expr_in_decreases(v: Seq<Expr>, i: int) {
    broadcast use vstd::seq::axiom_seq_index_decreases;

    if 0 <= i < v.len() {
        assert(decreases_to!(v => v[i]));
    }
}

pub open spec fn view_parts(v: Seq<StrPart>) -> Seq<SpecPart>
    decreases v, 2nat,
{
    Seq::new(v.len(), |i: int| view_part_in(v, i))
}

pub open spec fn view_part_in(v: Seq<StrPart>, i: int) -> SpecPart
    decreases v, 1nat,
    via view_part_in_decreases
{
    if 0 <= i < v.len() {
        SpecPart { expr: view_expr(v[i].expr), tail: v[i].tail }
    } else {
        SpecPart {
            expr: SpecExpr::Constant(Constant::Bool(false), Span { low: 0, high: 0 }),
            tail: v[i].tail,
        }
    }
}

#[via_fn]
proof fn view_part_in_decreases(v: Seq<StrPart>, i: int) {
    broadcast use vstd::seq::axiom_seq_index_decreases;

    if 0 <= i < v.len() {
        assert(decreases_to!(v => v[i]));
        assert(decreases_to!(v[i] => v[i].expr));
    }
}

pub open spec fn view_expr(e: Expr) -> SpecExpr
    decreases e, 3nat,
    via view_expr_decreases
{
    match e {
        Expr::Constant(c, s) => SpecExpr::Constant(c, s),
        Expr::Ident(r, s) => SpecExpr::Ident(r, s),
        Expr::Call(c, ts, args, s) => SpecExpr::Call(c, ts@, view_exprs(args@), s),
        Expr::Assign(l, r, s) => SpecExpr::Assign(
            Box::new(view_expr(*l)),
            Box::new(view_expr(*r)),
            s,
        ),
        Expr::ArrayElem(a, i, s) => SpecExpr::ArrayElem(
            Box::new(view_expr(*a)),
            Box::new(view_expr(*i)),
            s,
        ),
        Expr::While(c, body, s) => SpecExpr::While(
            Box::new(view_expr(*c)),
            view_exprs(body.exprs@),
            s,
        ),
        Expr::ArrayLit(elems, t, s) => SpecExpr::ArrayLit(view_exprs(elems@), t, s),
        Expr::InterpStr(prefix, parts, s) => SpecExpr::InterpStr(prefix, view_parts(parts@), s),
        Expr::ForIn(name, arr, body, s) => SpecExpr::ForIn(
            name,
            Box::new(view_expr(*arr)),
            view_exprs(body.exprs@),
            s,
        ),
    }
}

#[via_fn]
proof fn view_expr_decreases(e: Expr) {
    broadcast use vstd::std_specs::vec::axiom_vec_decreases_to_view;

    match e {
        Expr::Call(c, ts, args, s) => {
            assert(decreases_to!(e => args));
            assert(decreases_to!(args => args@));
        },
        Expr::While(c, body, s) => {
            let v = body.exprs;
            assert(decreases_to!(e => body));
            assert(decreases_to!(body => v));
            assert(decreases_to!(v => v@));
        },
        Expr::ArrayLit(elems, t, s) => {
            assert(decreases_to!(e => elems));
            assert(decreases_to!(elems => elems@));
        },
        Expr::InterpStr(prefix, parts, s) => {
            assert(decreases_to!(e => parts));
            assert(decreases_to!(parts => parts@));
        },
        Expr::ForIn(name, arr, body, s) => {
            let v = body.exprs;
            assert(decreases_to!(e => body));
            assert(decreases_to!(body => v));
            assert(decreases_to!(v => v@));
        },
        _ => {},
    }
}

/// The view of a list member is the member of the list's view.
pub proof fn lemma_view_index(v: Seq<Expr>, i: int)
    requires
        0 <= i < v.len(),
    ensures
        view_exprs(v)[i] == view_expr(v[i]),
{
    assert(view_exprs(v)[i] == view_expr_in(v, i));
    assert(view_expr_in(v, i) == view_expr(v[i]));
}

/// The view of a part-list member is the member of the list's view.
pub proof fn lemma_view_parts_index(v: Seq<StrPart>, i: int)
    requires
        0 <= i < v.len(),
    ensures
        view_parts(v)[i] == (SpecPart { expr: view_expr(v[i].expr), tail: v[i].tail }),
{
    assert(view_parts(v)[i] == view_part_in(v, i));
    assert(view_part_in(v, i) == (SpecPart { expr: view_expr(v[i].expr), tail: v[i].tail }));
}

impl View for Expr {
    type V = SpecExpr;

    open spec fn view(&self) -> SpecExpr {
        view_expr(*self)
    }
}

impl View for StmtSeq {
    type V = Seq<SpecExpr>;

    open spec fn view(&self) -> Seq<SpecExpr> {
        view_exprs(self.exprs@)
    }
}

} // verus!
