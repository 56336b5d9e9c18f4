use vstd::prelude::*;

use crate::ast::{
    Callable, Constant, Expr, IntrinsicOp, Reference, Span, SpecExpr, SpecPart, StmtSeq, StrPart,
    TypeId, Value, lemma_view_index, lemma_view_parts_index, view_expr, view_exprs, view_parts,
};
use crate::pool::{ConstantPool, Definition, PoolName, PoolView, find_type_index};
use crate::scope::{
    Cause, Error, FnName, FunctionSignature, ParamSig, Scope, SpecCause, SpecError,
    SpecFunctionEntry, SpecScope, SpecSig, TypeName, spec_get_function, spec_resolve_type,
};

verus! {

broadcast use vstd::std_specs::vec::axiom_vec_decreases_to_view, vstd::seq::axiom_seq_index_decreases;

// ---------------------------------------------------------------------------
// Sizes, the termination measure of the rewriter.
// ---------------------------------------------------------------------------

pub open spec fn size_expr(e: Expr) -> nat
    decreases e, 0int,
    via size_expr_decreases
{
    match e {
        Expr::Constant(_, _) => 1,
        Expr::Ident(_, _) => 1,
        Expr::Call(_, _, args, _) => 1 + size_list(args@, 0),
        Expr::Assign(l, r, _) => 1 + size_expr(*l) + size_expr(*r),
        Expr::ArrayElem(a, i, _) => 1 + size_expr(*a) + size_expr(*i),
        Expr::While(c, body, _) => 1 + size_expr(*c) + size_list(body.exprs@, 0),
        Expr::ArrayLit(elems, _, _) => 1 + size_list(elems@, 0),
        Expr::InterpStr(_, parts, _) => 1 + size_parts(parts@, 0),
        Expr::ForIn(_, arr, body, _) => 1 + size_expr(*arr) + size_list(body.exprs@, 0),
    }
}

/// Combined size of the expressions of `v` from position `i` on.
pub open spec fn size_list(v: Seq<Expr>, i: int) -> nat
    decreases v, v.len() - i,
{
    if i < 0 || i >= v.len() {
        0
    } else {
        size_expr(v[i]) + size_list(v, i + 1)
    }
}

/// Combined size of the part expressions of `v` from position `i` on.
pub open spec fn size_parts(v: Seq<StrPart>, i: int) -> nat
    decreases v, v.len() - i,
    via size_parts_decreases
{
    if i < 0 || i >= v.len() {
        0
    } else {
        size_expr(v[i].expr) + size_parts(v, i + 1)
    }
}

#[via_fn]
proof fn size_expr_decreases(e: Expr) {
    match e {
        Expr::Call(c, ts, args, s) => {
            assert(decreases_to!(e => args));
            assert(decreases_to!(args => args@));
        },
        Expr::While(c, body, s) => {
            let v = body.exprs;
            assert(decreases_to!(e => body));
            assert(decreases_to!(body => v));
            assert(decreases_to!(v => v@));
        },
        Expr::ArrayLit(elems, t, s) => {
            assert(decreases_to!(e => elems));
            assert(decreases_to!(elems => elems@));
        },
        Expr::InterpStr(prefix, parts, s) => {
            assert(decreases_to!(e => parts));
            assert(decreases_to!(parts => parts@));
        },
        Expr::ForIn(name, arr, body, s) => {
            let v = body.exprs;
            assert(decreases_to!(e => body));
            assert(decreases_to!(body => v));
            assert(decreases_to!(v => v@));
        },
        _ => {},
    }
}

#[via_fn]
proof fn size_parts_decreases(v: Seq<StrPart>, i: int) {
    if 0 <= i < v.len() {
        assert(decreases_to!(v => v[i]));
        assert(decreases_to!(v[i] => v[i].expr));
    }
}

/// Every expression of a list counts into the list's size.
pub proof fn lemma_size_list_elem(v: Seq<Expr>, i: int, j: int)
    requires
        0 <= i <= j < v.len(),
    ensures
        size_expr(v[j]) <= size_list(v, i),
    decreases j - i,
{
    if i < j {
        lemma_size_list_elem(v, i + 1, j);
    }
}

/// Every part's expression counts into the part list's size.
pub proof fn lemma_size_parts_elem(v: Seq<StrPart>, i: int, j: int)
    requires
        0 <= i <= j < v.len(),
    ensures
        size_expr(v[j].expr) <= size_parts(v, i),
    decreases j - i,
{
    if i < j {
        lemma_size_parts_elem(v, i + 1, j);
    }
}

// ---------------------------------------------------------------------------
// The rewriter's state, as contracts speak of it.
// ---------------------------------------------------------------------------

/// The state a lowering step reads and writes: the pending prefix statements,
/// the handles of the locals created so far, and the definition pool.
#[verifier::ext_equal]
pub struct St {
    pub prefix: Seq<SpecExpr>,
    pub locals: Seq<usize>,
    pub pool: PoolView,
}

/// The handle of the function being lowered.
pub open spec fn cur_fun(sc: SpecScope) -> usize {
    match sc.function {
        Some(f) => f,
        None => 0,
    }
}

/// What allocating a fresh local does: interns a synthetic name whose identity
/// is the count of locals created so far, resolves the storage type, adds the
/// definition under the current function, and records the new handle. Fails
/// exactly when the pool cannot resolve the type; the name stays interned.
pub open spec fn spec_fresh_local(st: St, fun: usize, t: TypeId) -> (St, Result<
    Reference,
    SpecCause,
>) {
    let name_idx = st.pool.names.len();
    let names1 = st.pool.names.push(PoolName::Synthetic(st.locals.len() as usize));
    match find_type_index(st.pool.types, t, 0) {
        None => (
            St {
                prefix: st.prefix,
                locals: st.locals,
                pool: PoolView { names: names1, types: st.pool.types, defs: st.pool.defs },
            },
            Err(SpecCause::PoolType(t)),
        ),
        Some(ti) => {
            let handle = st.pool.defs.len();
            let def = Definition { name: name_idx as usize, parent: fun, type_idx: ti as usize };
            (
                St {
                    prefix: st.prefix,
                    locals: st.locals.push(handle as usize),
                    pool: PoolView {
                        names: names1,
                        types: st.pool.types,
                        defs: st.pool.defs.push(def),
                    },
                },
                Ok(Reference::Value(Value::Local(handle as usize))),
            )
        },
    }
}

// ---------------------------------------------------------------------------
// The pure type-of query over an already-typed tree.
// ---------------------------------------------------------------------------

/// First scope entry resolved to the given definition handle.
pub open spec fn find_fn_by_index(fns: Seq<SpecFunctionEntry>, f: usize, i: int) -> Option<
    SpecFunctionEntry,
>
    decreases fns.len() - i,
{
    if i < 0 || i >= fns.len() {
        None
    } else if fns[i].index == f {
        Some(fns[i])
    } else {
        find_fn_by_index(fns, f, i + 1)
    }
}

/// The static type of a typed node. Never recomputes types: it only reads the
/// annotations that the upstream type checker left on the tree.
pub open spec fn spec_type_of(sc: SpecScope, pool: PoolView, e: SpecExpr) -> Result<
    TypeId,
    SpecError,
>
    decreases e,
{
    match e {
        SpecExpr::Constant(Constant::Str(_), _) => Ok(TypeId::Str),
        SpecExpr::Constant(Constant::I32(_), _) => Ok(TypeId::I32),
        SpecExpr::Constant(Constant::Bool(_), _) => Ok(TypeId::Bool),
        SpecExpr::Ident(Reference::Value(v), s) => {
            let h = match v {
                Value::Local(h) => h,
                Value::Param(h) => h,
            };
            if h < pool.defs.len() && pool.defs[h as int].type_idx < pool.types.len() {
                Ok(pool.types[pool.defs[h as int].type_idx as int])
            } else {
                Err(SpecError { cause: SpecCause::UnresolvedDefinition(h), span: s })
            }
        },
        SpecExpr::Ident(Reference::Symbol(n), s) => Err(
            SpecError { cause: SpecCause::UnresolvedDefinition(n), span: s },
        ),
        SpecExpr::Call(Callable::Function(f), _, _, s) => match find_fn_by_index(
            sc.functions,
            f,
            0,
        ) {
            Some(entry) => Ok(entry.ret_type),
            None => Err(SpecError { cause: SpecCause::UnresolvedDefinition(f), span: s }),
        },
        SpecExpr::Call(Callable::Intrinsic(_, t), _, _, _) => Ok(t),
        SpecExpr::Assign(_, _, _) => Ok(TypeId::Void),
        SpecExpr::ArrayElem(a, _, s) => match spec_type_of(sc, pool, *a) {
            Ok(TypeId::Array(inner)) => Ok(*inner),
            Ok(other) => Err(SpecError { cause: SpecCause::ArrayExpected(other), span: s }),
            Err(er) => Err(er),
        },
        SpecExpr::While(_, _, _) => Ok(TypeId::Void),
        SpecExpr::ArrayLit(_, t, _) => Ok(TypeId::Array(Box::new(t))),
        SpecExpr::InterpStr(_, _, _) => Ok(TypeId::Str),
        SpecExpr::ForIn(_, _, _, _) => Ok(TypeId::Void),
    }
}

// ---------------------------------------------------------------------------
// The signatures lowering resolves, and the shapes it builds.
// ---------------------------------------------------------------------------

/// String concatenation: two reference-to-string parameters, string result.
pub open spec fn concat_sig() -> SpecSig {
    SpecSig {
        name: FnName::OpAdd,
        params: seq![
            ParamSig { typ: TypeName::RefStr, by_ref: false },
            ParamSig { typ: TypeName::RefStr, by_ref: false },
        ],
        ret: TypeName::Str,
    }
}

/// Integer compound add-assign: first parameter by reference.
pub open spec fn assign_add_sig() -> SpecSig {
    SpecSig {
        name: FnName::OpAssignAdd,
        params: seq![
            ParamSig { typ: TypeName::Int32, by_ref: true },
            ParamSig { typ: TypeName::Int32, by_ref: false },
        ],
        ret: TypeName::Int32,
    }
}

/// Integer less-than comparison.
pub open spec fn less_than_sig() -> SpecSig {
    SpecSig {
        name: FnName::OpLess,
        params: seq![
            ParamSig { typ: TypeName::Int32, by_ref: false },
            ParamSig { typ: TypeName::Int32, by_ref: false },
        ],
        ret: TypeName::Bool,
    }
}

/// Wraps a string-typed value in the take-reference intrinsic, adapting it to
/// the concatenation function's by-reference calling convention.
pub open spec fn as_ref_wrap(e: SpecExpr, str_type: TypeId, s: Span) -> SpecExpr {
    SpecExpr::Call(
        Callable::Intrinsic(IntrinsicOp::AsRef, TypeId::ScriptRef(Box::new(str_type))),
        Seq::empty(),
        seq![e],
        s,
    )
}

/// Type-directed classification of an interpolation part (its type is already
/// known not to be void): a reference to string is used as is; a plain string
/// is wrapped in take-reference; anything else goes through the to-string
/// intrinsic exactly once, then take-reference.
pub open spec fn classify_part(p: SpecExpr, t: TypeId, str_type: TypeId, s: Span) -> SpecExpr {
    if t == TypeId::ScriptRef(Box::new(TypeId::Str)) {
        p
    } else if t == TypeId::Str {
        as_ref_wrap(p, str_type, s)
    } else {
        as_ref_wrap(
            SpecExpr::Call(
                Callable::Intrinsic(IntrinsicOp::ToString, str_type),
                Seq::empty(),
                seq![p],
                s,
            ),
            str_type,
            s,
        )
    }
}

/// The while-loop a for-in lowers to: condition re-reads the array's size on
/// every evaluation, and the body assigns the loop variable from
/// `array[counter]` before the user statements, then increments the counter.
pub open spec fn forin_while(
    name: usize,
    arr_local: Reference,
    counter_local: Reference,
    counter_t: TypeId,
    assign_add: Callable,
    less_than: Callable,
    body: Seq<SpecExpr>,
    s: Span,
) -> SpecExpr {
    let condition = SpecExpr::Call(
        less_than,
        Seq::empty(),
        seq![
            SpecExpr::Ident(counter_local, s),
            SpecExpr::Call(
                Callable::Intrinsic(IntrinsicOp::ArraySize, counter_t),
                Seq::empty(),
                seq![SpecExpr::Ident(arr_local, s)],
                s,
            ),
        ],
        s,
    );
    let assign_iter = SpecExpr::Assign(
        Box::new(SpecExpr::Ident(Reference::Value(Value::Local(name)), s)),
        Box::new(
            SpecExpr::ArrayElem(
                Box::new(SpecExpr::Ident(arr_local, s)),
                Box::new(SpecExpr::Ident(counter_local, s)),
                s,
            ),
        ),
        s,
    );
    let incr = SpecExpr::Call(
        assign_add,
        Seq::empty(),
        seq![SpecExpr::Ident(counter_local, s), SpecExpr::Constant(Constant::I32(1), s)],
        s,
    );
    SpecExpr::While(Box::new(condition), seq![assign_iter] + body + seq![incr], s)
}

// ---------------------------------------------------------------------------
// The lowering relation itself: a function from state and tree to state and
// lowered tree. This is the specification the executable rewriter meets.
// ---------------------------------------------------------------------------

pub open spec fn lower_expr(sc: SpecScope, st: St, e: SpecExpr) -> (St, Result<SpecExpr, SpecError>)
    decreases e, 0int,
    via lower_expr_decreases
{
    match e {
        SpecExpr::Constant(c, s) => (st, Ok(SpecExpr::Constant(c, s))),
        SpecExpr::Ident(r, s) => (st, Ok(SpecExpr::Ident(r, s))),
        SpecExpr::Call(c, ts, args, s) => {
            let (st1, r) = lower_list(sc, st, args, 0, Seq::empty());
            match r {
                Ok(args2) => (st1, Ok(SpecExpr::Call(c, ts, args2, s))),
                Err(er) => (st1, Err(er)),
            }
        },
        SpecExpr::Assign(l, r, s) => {
            let (st1, rl) = lower_expr(sc, st, *l);
            match rl {
                Err(er) => (st1, Err(er)),
                Ok(l2) => {
                    let (st2, rr) = lower_expr(sc, st1, *r);
                    match rr {
                        Err(er) => (st2, Err(er)),
                        Ok(r2) => (st2, Ok(SpecExpr::Assign(Box::new(l2), Box::new(r2), s))),
                    }
                },
            }
        },
        SpecExpr::ArrayElem(a, i, s) => {
            let (st1, ra) = lower_expr(sc, st, *a);
            match ra {
                Err(er) => (st1, Err(er)),
                Ok(a2) => {
                    let (st2, ri) = lower_expr(sc, st1, *i);
                    match ri {
                        Err(er) => (st2, Err(er)),
                        Ok(i2) => (st2, Ok(SpecExpr::ArrayElem(Box::new(a2), Box::new(i2), s))),
                    }
                },
            }
        },
        SpecExpr::While(c, body, s) => {
            let (st1, rc) = lower_expr(sc, st, *c);
            match rc {
                Err(er) => (st1, Err(er)),
                Ok(c2) => {
                    let (st2, rb) = lower_stmts(sc, st1, body, 0, Seq::empty());
                    match rb {
                        Err(er) => (st2, Err(er)),
                        Ok(b2) => (st2, Ok(SpecExpr::While(Box::new(c2), b2, s))),
                    }
                },
            }
        },
        SpecExpr::ArrayLit(elems, t, s) => lower_array_lit(sc, st, elems, t, s),
        SpecExpr::InterpStr(prefix, parts, s) => lower_interp(sc, st, prefix, parts, s),
        SpecExpr::ForIn(name, array, body, s) => {
            let (st1, rb) = lower_stmts(sc, st, body, 0, Seq::empty());
            match rb {
                Err(er) => (st1, Err(er)),
                Ok(b2) => {
                    let (st2, ra) = lower_expr(sc, st1, *array);
                    match ra {
                        Err(er) => (st2, Err(er)),
                        Ok(a2) => match spec_type_of(sc, st2.pool, a2) {
                            Err(er) => (st2, Err(er)),
                            Ok(arr_t) => lower_for_in_tail(sc, st2, name, a2, arr_t, b2, s),
                        },
                    }
                },
            }
        },
    }
}

/// What lowering an array literal does: allocate a fresh local of array type,
/// then lower each element in source order, enqueueing one push per element;
/// the literal's replacement is a plain reference to the array local.
pub open spec fn lower_array_lit(sc: SpecScope, st: St, elems: Seq<SpecExpr>, t: TypeId, s: Span) -> (
    St,
    Result<SpecExpr, SpecError>,
)
    decreases elems, elems.len() + 1,
{
    let (st1, rl) = spec_fresh_local(st, cur_fun(sc), TypeId::Array(Box::new(t)));
    match rl {
        Err(c) => (st1, Err(SpecError { cause: c, span: s })),
        Ok(local) => {
            let (st2, r) = lower_elems(sc, st1, elems, 0, local, s);
            match r {
                Err(er) => (st2, Err(er)),
                Ok(u) => (st2, Ok(SpecExpr::Ident(local, s))),
            }
        },
    }
}

/// What lowering an interpolated string does: resolve the string type and the
/// concatenation function once, then fold the parts left to right onto an
/// accumulator that starts as the literal prefix.
pub open spec fn lower_interp(sc: SpecScope, st: St, prefix: String, parts: Seq<SpecPart>, s: Span) -> (
    St,
    Result<SpecExpr, SpecError>,
)
    decreases parts, parts.len() + 1,
{
    match spec_resolve_type(sc, TypeName::Str) {
        Err(c) => (st, Err(SpecError { cause: c, span: s })),
        Ok(str_type) => match spec_get_function(sc, concat_sig()) {
            Err(c) => (st, Err(SpecError { cause: c, span: s })),
            Ok(add_str) => lower_parts(
                sc,
                st,
                parts,
                0,
                SpecExpr::Constant(Constant::Str(prefix), s),
                add_str,
                str_type,
                s,
            ),
        },
    }
}

/// The for-in steps after body and array are lowered: allocate the array and
/// counter locals, enqueue their initial assignments as prefix statements,
/// resolve the loop's operations, and build the while-loop.
pub open spec fn lower_for_in_tail(
    sc: SpecScope,
    st: St,
    name: usize,
    a2: SpecExpr,
    arr_t: TypeId,
    b2: Seq<SpecExpr>,
    s: Span,
) -> (St, Result<SpecExpr, SpecError>) {
    let (st3, rloc) = spec_fresh_local(st, cur_fun(sc), arr_t);
    match rloc {
        Err(c) => (st3, Err(SpecError { cause: c, span: s })),
        Ok(arr_local) => match spec_resolve_type(sc, TypeName::Int32) {
            Err(c) => (st3, Err(SpecError { cause: c, span: s })),
            Ok(counter_t) => {
                let (st4, rc) = spec_fresh_local(st3, cur_fun(sc), counter_t);
                match rc {
                    Err(c) => (st4, Err(SpecError { cause: c, span: s })),
                    Ok(counter_local) => {
                        let assign_arr = SpecExpr::Assign(
                            Box::new(SpecExpr::Ident(arr_local, s)),
                            Box::new(a2),
                            s,
                        );
                        let assign_zero = SpecExpr::Assign(
                            Box::new(SpecExpr::Ident(counter_local, s)),
                            Box::new(SpecExpr::Constant(Constant::I32(0), s)),
                            s,
                        );
                        let st5 = St {
                            prefix: st4.prefix.push(assign_arr).push(assign_zero),
                            locals: st4.locals,
                            pool: st4.pool,
                        };
                        match spec_get_function(sc, assign_add_sig()) {
                            Err(c) => (st5, Err(SpecError { cause: c, span: s })),
                            Ok(assign_add) => match spec_get_function(sc, less_than_sig()) {
                                Err(c) => (st5, Err(SpecError { cause: c, span: s })),
                                Ok(less_than) => (
                                    st5,
                                    Ok(
                                        forin_while(
                                            name,
                                            arr_local,
                                            counter_local,
                                            counter_t,
                                            assign_add,
                                            less_than,
                                            b2,
                                            s,
                                        ),
                                    ),
                                ),
                            },
                        }
                    },
                }
            },
        },
    }
}

/// What lowering a for-in loop does, in full: lower the body first, then the
/// array expression, read the array's type, and build the while-loop with its
/// two fresh locals and prefix assignments.
pub open spec fn lower_for_in(
    sc: SpecScope,
    st: St,
    name: usize,
    array: SpecExpr,
    body: Seq<SpecExpr>,
    s: Span,
) -> (St, Result<SpecExpr, SpecError>) {
    let (st1, rb) = lower_stmts(sc, st, body, 0, Seq::empty());
    match rb {
        Err(er) => (st1, Err(er)),
        Ok(b2) => {
            let (st2, ra) = lower_expr(sc, st1, array);
            match ra {
                Err(er) => (st2, Err(er)),
                Ok(a2) => match spec_type_of(sc, st2.pool, a2) {
                    Err(er) => (st2, Err(er)),
                    Ok(arr_t) => lower_for_in_tail(sc, st2, name, a2, arr_t, b2, s),
                },
            }
        },
    }
}

/// Lowers the expressions of `es` from position `i` on, left to right,
/// appending the results to `out`.
pub open spec fn lower_list(sc: SpecScope, st: St, es: Seq<SpecExpr>, i: int, out: Seq<SpecExpr>) -> (
    St,
    Result<Seq<SpecExpr>, SpecError>,
)
    decreases es, es.len() - i,
{
    if i < 0 || i >= es.len() {
        (st, Ok(out))
    } else {
        let (st1, r) = lower_expr(sc, st, es[i]);
        match r {
            Err(er) => (st1, Err(er)),
            Ok(e2) => lower_list(sc, st1, es, i + 1, out.push(e2)),
        }
    }
}

/// Lowers a statement sequence from position `i` on: after each statement, the
/// queued prefix statements move into the output — in enqueue order —
/// immediately before it, and the queue is cleared.
pub open spec fn lower_stmts(sc: SpecScope, st: St, es: Seq<SpecExpr>, i: int, out: Seq<SpecExpr>) -> (
    St,
    Result<Seq<SpecExpr>, SpecError>,
)
    decreases es, es.len() - i,
{
    if i < 0 || i >= es.len() {
        (st, Ok(out))
    } else {
        let (st1, r) = lower_expr(sc, st, es[i]);
        match r {
            Err(er) => (st1, Err(er)),
            Ok(e2) => lower_stmts(
                sc,
                St { prefix: Seq::empty(), locals: st1.locals, pool: st1.pool },
                es,
                i + 1,
                out + st1.prefix + seq![e2],
            ),
        }
    }
}

/// Lowers array-literal elements from position `i` on: each element is lowered
/// in source order, then one push of it onto the array local is enqueued.
pub open spec fn lower_elems(
    sc: SpecScope,
    st: St,
    es: Seq<SpecExpr>,
    i: int,
    local: Reference,
    s: Span,
) -> (St, Result<int, SpecError>)
    decreases es, es.len() - i,
{
    if i < 0 || i >= es.len() {
        (st, Ok(0))
    } else {
        let (st1, r) = lower_expr(sc, st, es[i]);
        match r {
            Err(er) => (st1, Err(er)),
            Ok(e2) => {
                let push_call = SpecExpr::Call(
                    Callable::Intrinsic(IntrinsicOp::ArrayPush, TypeId::Void),
                    Seq::empty(),
                    seq![SpecExpr::Ident(local, s), e2],
                    s,
                );
                lower_elems(
                    sc,
                    St { prefix: st1.prefix.push(push_call), locals: st1.locals, pool: st1.pool },
                    es,
                    i + 1,
                    local,
                    s,
                )
            },
        }
    }
}

/// Lowers interpolation parts from position `i` on, folding the accumulator:
/// a void-typed part fails with the unsupported-operand condition; otherwise
/// the classified part, combined with its literal tail when one is present, is
/// concatenated onto the accumulator.
pub open spec fn lower_parts(
    sc: SpecScope,
    st: St,
    parts: Seq<SpecPart>,
    i: int,
    acc: SpecExpr,
    add_str: Callable,
    str_type: TypeId,
    s: Span,
) -> (St, Result<SpecExpr, SpecError>)
    decreases parts, parts.len() - i,
    via lower_parts_decreases
{
    if i < 0 || i >= parts.len() {
        (st, Ok(acc))
    } else {
        let (st1, r) = lower_expr(sc, st, parts[i].expr);
        match r {
            Err(er) => (st1, Err(er)),
            Ok(p2) => match spec_type_of(sc, st1.pool, p2) {
                Err(er) => (st1, Err(er)),
                Ok(t) => {
                    if t == TypeId::Void {
                        (st1, Err(SpecError { cause: SpecCause::UnsupportedVoid, span: s }))
                    } else {
                        let classified = classify_part(p2, t, str_type, s);
                        let combined = if parts[i].tail@.len() == 0 {
                            classified
                        } else {
                            as_ref_wrap(
                                SpecExpr::Call(
                                    add_str,
                                    Seq::empty(),
                                    seq![
                                        classified,
                                        as_ref_wrap(
                                            SpecExpr::Constant(Constant::Str(parts[i].tail), s),
                                            str_type,
                                            s,
                                        ),
                                    ],
                                    s,
                                ),
                                str_type,
                                s,
                            )
                        };
                        let acc2 = SpecExpr::Call(
                            add_str,
                            Seq::empty(),
                            seq![as_ref_wrap(acc, str_type, s), combined],
                            s,
                        );
                        lower_parts(sc, st1, parts, i + 1, acc2, add_str, str_type, s)
                    }
                },
            },
        }
    }
}

#[via_fn]
proof fn lower_parts_decreases(
    sc: SpecScope,
    st: St,
    parts: Seq<SpecPart>,
    i: int,
    acc: SpecExpr,
    add_str: Callable,
    str_type: TypeId,
    s: Span,
) {
    if 0 <= i < parts.len() {
        assert(decreases_to!(parts => parts[i]));
        assert(decreases_to!(parts[i] => parts[i].expr));
    }
}

#[via_fn]
proof fn lower_expr_decreases(sc: SpecScope, st: St, e: SpecExpr) {
    match e {
        SpecExpr::Call(c, ts, args, s) => {
            assert(decreases_to!(e => args));
        },
        SpecExpr::While(c, body, s) => {
            assert(decreases_to!(e => body));
        },
        SpecExpr::ArrayLit(elems, t, s) => {
            assert(decreases_to!(e => elems));
        },
        SpecExpr::InterpStr(prefix, parts, s) => {
            assert(decreases_to!(e => parts));
        },
        SpecExpr::ForIn(name, array, body, s) => {
            assert(decreases_to!(e => body));
        },
        _ => {},
    }
}

/// Lowering one function body's statement sequence: every statement lowered,
/// each preceded by the prefix statements its lowering produced.
pub open spec fn spec_lower_seq(sc: SpecScope, st: St, stmts: Seq<SpecExpr>) -> (St, Result<
    Seq<SpecExpr>,
    SpecError,
>) {
    lower_stmts(sc, st, stmts, 0, Seq::empty())
}

// ---------------------------------------------------------------------------
// The executable rewriter.
// ---------------------------------------------------------------------------

/// One rewriter instance, bound to one function body: the per-statement prefix
/// queue and the handles of the locals this pass created. The scope and the
/// shared pool are handed to each step, since the pass mutates the pool.
pub struct Desugar {
    pub prefix_exprs: Vec<Expr>,
    pub locals: Vec<usize>,
}

/// The rewriter's state as the lowering relation sees it.
pub open spec fn st_of(d: Desugar, p: ConstantPool) -> St {
    St { prefix: view_exprs(d.prefix_exprs@), locals: d.locals@, pool: p@ }
}

impl Desugar {
    /// A fresh rewriter with an empty prefix queue and no created locals.
    pub fn new() -> (r: Desugar)
        ensures
            r.prefix_exprs@ == Seq::<Expr>::empty(),
            r.locals@ == Seq::<usize>::empty(),
    {
        Desugar { prefix_exprs: Vec::new(), locals: Vec::new() }
    }

    /// Yields the handles of all locals this pass created, for the caller to
    /// merge into the function's declared locals.
    pub fn locals(self) -> (r: Vec<usize>)
        ensures
            r@ == self.locals@,
    {
        self.locals
    }

    /// Enqueues a statement to be emitted immediately before the statement
    /// currently being lowered.
    pub fn add_prefix(&mut self, expr: Expr)
        ensures
            final(self).prefix_exprs@ == old(self).prefix_exprs@.push(expr),
            final(self).locals@ == old(self).locals@,
    {
        self.prefix_exprs.push(expr)
    }

    /// Resolves an operation name plus exact signature through the scope.
    pub fn get_function(&self, scope: &Scope, signature: FunctionSignature) -> (r: Result<
        Callable,
        Cause,
    >)
        ensures
            match r {
                Ok(c) => spec_get_function(scope@, signature@) == Ok::<Callable, SpecCause>(c),
                Err(c) => spec_get_function(scope@, signature@) == Err::<Callable, SpecCause>(c@),
            },
    {
        scope.get_function(signature)
    }

    /// Allocates a fresh, uniquely named local of the given type in the
    /// definition pool, under the function this rewriter is bound to.
    pub fn fresh_local(&mut self, scope: &Scope, pool: &mut ConstantPool, type_: &TypeId, span: Span) -> (r: Result<Reference, Error>)
        requires
            scope@.function is Some,
        ensures
            ({
                let (st2, r2) = spec_fresh_local(
                    st_of(*old(self), *old(pool)),
                    cur_fun(scope@),
                    *type_,
                );
                &&& st_of(*final(self), *final(pool)) == st2
                &&& match r {
                    Ok(re) => r2 == Ok::<Reference, SpecCause>(re),
                    Err(er) => r2 == Err::<Reference, SpecCause>(er@.cause) && er@.span == span,
                }
            }),
    {
        let ghost st0 = st_of(*old(self), *old(pool));
        let fun_idx = scope.function.unwrap();
        let count = self.locals.len();
        let name_idx = pool.add_name(PoolName::Synthetic(count));
        let type_idx = match pool.get_type_index(type_) {
            Ok(i) => i,
            Err(c) => {
                proof {
                    assert(st_of(*self, *pool) =~= spec_fresh_local(st0, cur_fun(scope@), *type_).0);
                }
                return Err(c.with_span(span));
            },
        };
        let def = Definition { name: name_idx, parent: fun_idx, type_idx };
        let idx = pool.add_definition(def);
        self.locals.push(idx);
        proof {
            assert(st_of(*self, *pool) =~= spec_fresh_local(st0, cur_fun(scope@), *type_).0);
        }
        Ok(Reference::Value(Value::Local(idx)))
    }
}

/// The static type of a typed node: the pure query the rewriter uses to pick
/// type-directed operations.
pub fn type_of(e: &Expr, scope: &Scope, pool: &ConstantPool) -> (r: Result<TypeId, Error>)
    ensures
        match r {
            Ok(t) => spec_type_of(scope@, pool@, view_expr(*e)) == Ok::<TypeId, SpecError>(t),
            Err(er) => spec_type_of(scope@, pool@, view_expr(*e)) == Err::<TypeId, SpecError>(er@),
        },
    decreases *e,
{
    match e {
        Expr::Constant(Constant::Str(_), _) => Ok(TypeId::Str),
        Expr::Constant(Constant::I32(_), _) => Ok(TypeId::I32),
        Expr::Constant(Constant::Bool(_), _) => Ok(TypeId::Bool),
        Expr::Ident(Reference::Value(v), s) => {
            let h = match v {
                Value::Local(h) => *h,
                Value::Param(h) => *h,
            };
            if h < pool.definitions.len() {
                let ti = pool.definitions[h].type_idx;
                if ti < pool.types.len() {
                    Ok(pool.types[ti].duplicate())
                } else {
                    Err(Cause::UnresolvedDefinition(h).with_span(*s))
                }
            } else {
                Err(Cause::UnresolvedDefinition(h).with_span(*s))
            }
        },
        Expr::Ident(Reference::Symbol(n), s) => Err(Cause::UnresolvedDefinition(*n).with_span(*s)),
        Expr::Call(c, ts, args, s) => match c {
            Callable::Function(f) => {
                let n = scope.functions.len();
                let mut i: usize = 0;
                while i < n
                    invariant
                        n == scope.functions.len(),
                        i <= n,
                        view_expr(*e) == SpecExpr::Call(
                            Callable::Function(*f),
                            ts@,
                            view_exprs(args@),
                            *s,
                        ),
                        find_fn_by_index(scope@.functions, *f, 0) == find_fn_by_index(
                            scope@.functions,
                            *f,
                            i as int,
                        ),
                    decreases n - i,
                {
                    proof {
                        assert(crate::scope::view_entries(scope.functions@)[i as int]
                            == scope.functions@[i as int]@);
                    }
                    if scope.functions[i].index == *f {
                        proof {
                            assert(scope@.functions[i as int].index == *f);
                            assert(find_fn_by_index(scope@.functions, *f, i as int) == Some(
                                scope@.functions[i as int],
                            ));
                        }
                        return Ok(scope.functions[i].ret_type.duplicate());
                    }
                    i += 1;
                }
                Err(Cause::UnresolvedDefinition(*f).with_span(*s))
            },
            Callable::Intrinsic(_, t) => Ok(t.duplicate()),
        },
        Expr::Assign(_, _, _) => Ok(TypeId::Void),
        Expr::ArrayElem(a, _, s) => {
            match type_of(&*a, scope, pool) {
                Ok(TypeId::Array(inner)) => Ok(*inner),
                Ok(other) => Err(Cause::ArrayExpected(other).with_span(*s)),
                Err(er) => Err(er),
            }
        },
        Expr::While(_, _, _) => Ok(TypeId::Void),
        Expr::ArrayLit(_, t, _) => Ok(TypeId::Array(Box::new(t.duplicate()))),
        Expr::InterpStr(_, _, _) => Ok(TypeId::Str),
        Expr::ForIn(_, _, _, _) => Ok(TypeId::Void),
    }
}

// ---------------------------------------------------------------------------
// Small view lemmas and builders the rewriter's proofs use.
// ---------------------------------------------------------------------------

pub proof fn lemma_view_exprs_push(v: Seq<Expr>, e: Expr)
    ensures
        view_exprs(v.push(e)) == view_exprs(v).push(view_expr(e)),
{
    assert(view_exprs(v.push(e)) =~= view_exprs(v).push(view_expr(e)));
}

pub proof fn lemma_view_exprs_concat(a: Seq<Expr>, b: Seq<Expr>)
    ensures
        view_exprs(a + b) == view_exprs(a) + view_exprs(b),
{
    assert(view_exprs(a + b) =~= view_exprs(a) + view_exprs(b));
}

/// A one-element argument vector.
fn vec1(a: Expr) -> (r: Vec<Expr>)
    ensures
        r@ =~= seq![a],
{
    let mut r: Vec<Expr> = Vec::new();
    r.push(a);
    r
}

/// A two-element argument vector.
fn vec2(a: Expr, b: Expr) -> (r: Vec<Expr>)
    ensures
        r@ =~= seq![a, b],
{
    let mut r: Vec<Expr> = Vec::new();
    r.push(a);
    r.push(b);
    r
}

/// Builds a call expression whose view is pinned by the views of its parts.
fn call1(c: Callable, a: Expr, s: Span) -> (r: Expr)
    ensures
        view_expr(r) == SpecExpr::Call(c, Seq::empty(), seq![view_expr(a)], s),
{
    let ghost cv = c;
    let ghost av = view_expr(a);
    let ts_v: Vec<TypeId> = Vec::new();
    let ghost tvs = ts_v@;
    let args_v = vec1(a);
    let ghost avs = args_v@;
    let r = Expr::Call(c, ts_v, args_v, s);
    proof {
        lemma_view_index(avs, 0);
        assert(view_exprs(avs) =~= seq![av]);
        assert(tvs =~= Seq::<TypeId>::empty());
        assert(view_expr(r) == SpecExpr::Call(cv, Seq::empty(), seq![av], s));
    }
    r
}

/// Builds a two-argument call expression with a pinned view.
fn call2(c: Callable, a: Expr, b: Expr, s: Span) -> (r: Expr)
    ensures
        view_expr(r) == SpecExpr::Call(c, Seq::empty(), seq![view_expr(a), view_expr(b)], s),
{
    let ghost cv = c;
    let ghost av = view_expr(a);
    let ghost bv = view_expr(b);
    let ts_v: Vec<TypeId> = Vec::new();
    let ghost tvs = ts_v@;
    let args_v = vec2(a, b);
    let ghost avs = args_v@;
    let r = Expr::Call(c, ts_v, args_v, s);
    proof {
        lemma_view_index(avs, 0);
        lemma_view_index(avs, 1);
        assert(view_exprs(avs) =~= seq![av, bv]);
        assert(tvs =~= Seq::<TypeId>::empty());
        assert(view_expr(r) == SpecExpr::Call(cv, Seq::empty(), seq![av, bv], s));
    }
    r
}

/// Wraps a string-typed value in the take-reference intrinsic.
fn as_ref_call(e: Expr, str_type: &TypeId, s: Span) -> (r: Expr)
    ensures
        view_expr(r) == as_ref_wrap(view_expr(e), *str_type, s),
{
    call1(
        Callable::Intrinsic(IntrinsicOp::AsRef, TypeId::ScriptRef(Box::new(str_type.duplicate()))),
        e,
        s,
    )
}

/// Type-directed adaptation of one interpolation part whose type `t` is known
/// not to be void.
fn classify_call(p: Expr, t: &TypeId, str_type: &TypeId, s: Span) -> (r: Expr)
    ensures
        view_expr(r) == classify_part(view_expr(p), *t, *str_type, s),
{
    let is_ref_str = match t {
        TypeId::ScriptRef(inner) => match &**inner {
            TypeId::Str => true,
            _ => false,
        },
        _ => false,
    };
    if is_ref_str {
        p
    } else {
        let is_str = match t {
            TypeId::Str => true,
            _ => false,
        };
        if is_str {
            as_ref_call(p, str_type, s)
        } else {
            let wrapped = call1(
                Callable::Intrinsic(IntrinsicOp::ToString, str_type.duplicate()),
                p,
                s,
            );
            as_ref_call(wrapped, str_type, s)
        }
    }
}

impl Desugar {
    /// Processes a statement sequence: each statement is lowered, then any
    /// queued prefix statements move into the output — in enqueue order —
    /// immediately before it, and the queue is cleared.
    #[verifier::loop_isolation(false)]
    pub fn on_seq(&mut self, scope: &Scope, pool: &mut ConstantPool, seq_: StmtSeq) -> (r: Result<
        StmtSeq,
        Error,
    >)
        requires
            scope@.function is Some,
        ensures
            ({
                let (st2, r2) = spec_lower_seq(
                    scope@,
                    st_of(*old(self), *old(pool)),
                    view_exprs(seq_.exprs@),
                );
                &&& st_of(*final(self), *final(pool)) == st2
                &&& match r {
                    Ok(out) => r2 == Ok::<Seq<SpecExpr>, SpecError>(view_exprs(out.exprs@)),
                    Err(er) => r2 == Err::<Seq<SpecExpr>, SpecError>(er@),
                }
            }),
        decreases size_list(seq_.exprs@, 0), 2int,
    {
        let ghost st00 = st_of(*old(self), *old(pool));
        let mut rest = seq_.exprs;
        let ghost orig = rest@;
        let ghost vstmts = view_exprs(orig);
        let mut processed: Vec<Expr> = Vec::new();
        proof {
            assert(view_exprs(processed@) =~= Seq::<SpecExpr>::empty());
            assert(rest@ =~= orig.subrange(0, orig.len() as int));
        }
        while rest.len() > 0
            invariant
                scope@.function is Some,
                rest@.len() <= orig.len(),
                rest@ == orig.subrange(orig.len() - rest@.len(), orig.len() as int),
                lower_stmts(scope@, st00, vstmts, 0, Seq::empty()) == lower_stmts(
                    scope@,
                    st_of(*self, *pool),
                    vstmts,
                    orig.len() - rest@.len(),
                    view_exprs(processed@),
                ),
            decreases rest@.len(),
        {
            let ghost i = orig.len() - rest@.len();
            let e = rest.remove(0);
            proof {
                assert(orig.subrange(i, orig.len() as int)[0] == orig[i]);
                assert(e == orig[i]);
                assert(rest@ =~= orig.subrange(i + 1, orig.len() as int));
                lemma_size_list_elem(orig, 0, i);
                lemma_view_index(orig, i);
                assert(vstmts[i] == view_expr(e));
            }
            let ghost st_before = st_of(*self, *pool);
            let ghost out_before = view_exprs(processed@);
            let done = match self.on_expr(scope, pool, e) {
                Ok(x) => x,
                Err(er) => {
                    proof {
                        assert(lower_stmts(scope@, st_before, vstmts, i, out_before) == (
                            st_of(*self, *pool),
                            Err::<Seq<SpecExpr>, SpecError>(er@),
                        ));
                    }
                    return Err(er);
                },
            };
            let ghost st_mid = st_of(*self, *pool);
            let ghost pre_flush = processed@;
            let mut pref: Vec<Expr> = Vec::new();
            core::mem::swap(&mut pref, &mut self.prefix_exprs);
            let ghost pref_seq = pref@;
            processed.append(&mut pref);
            processed.push(done);
            proof {
                assert(st_mid.prefix == view_exprs(pref_seq));
                lemma_view_exprs_concat(pre_flush, pref_seq);
                lemma_view_exprs_push(pre_flush + pref_seq, done);
                assert(processed@ == (pre_flush + pref_seq).push(done));
                assert(view_exprs(processed@) =~= out_before + st_mid.prefix + seq![
                    view_expr(done),
                ]);
                assert(view_exprs(self.prefix_exprs@) =~= Seq::<SpecExpr>::empty());
                assert(st_of(*self, *pool) =~= St {
                    prefix: Seq::<SpecExpr>::empty(),
                    locals: st_mid.locals,
                    pool: st_mid.pool,
                });
                assert(lower_stmts(scope@, st_before, vstmts, i, out_before) == lower_stmts(
                    scope@,
                    st_of(*self, *pool),
                    vstmts,
                    i + 1,
                    view_exprs(processed@),
                ));
            }
        }
        proof {
            assert(lower_stmts(
                scope@,
                st_of(*self, *pool),
                vstmts,
                orig.len() as int,
                view_exprs(processed@),
            ) == (st_of(*self, *pool), Ok::<Seq<SpecExpr>, SpecError>(view_exprs(processed@))));
        }
        Ok(StmtSeq { exprs: processed })
    }

    /// Recursively lowers one expression: sugar nodes are rewritten to their
    /// primitive equivalents, all other nodes keep their structure while their
    /// children are lowered depth-first, left to right.
    #[verifier::loop_isolation(false)]
    pub fn on_expr(&mut self, scope: &Scope, pool: &mut ConstantPool, expr: Expr) -> (r: Result<
        Expr,
        Error,
    >)
        requires
            scope@.function is Some,
        ensures
            ({
                let (st2, r2) = lower_expr(scope@, st_of(*old(self), *old(pool)), view_expr(expr));
                &&& st_of(*final(self), *final(pool)) == st2
                &&& match r {
                    Ok(e2) => r2 == Ok::<SpecExpr, SpecError>(view_expr(e2)),
                    Err(er) => r2 == Err::<SpecExpr, SpecError>(er@),
                }
            }),
        decreases size_expr(expr), 1int,
    {
        let ghost e0 = expr;
        let ghost st00 = st_of(*old(self), *old(pool));
        match expr {
            Expr::Constant(c, s) => Ok(Expr::Constant(c, s)),
            Expr::Ident(r0, s) => Ok(Expr::Ident(r0, s)),
            Expr::Assign(l, r0, s) => {
                let l2 = match self.on_expr(scope, pool, *l) {
                    Ok(x) => x,
                    Err(er) => {
                        return Err(er);
                    },
                };
                let r2 = match self.on_expr(scope, pool, *r0) {
                    Ok(x) => x,
                    Err(er) => {
                        return Err(er);
                    },
                };
                Ok(Expr::Assign(Box::new(l2), Box::new(r2), s))
            },
            Expr::ArrayElem(a, idx, s) => {
                let a2 = match self.on_expr(scope, pool, *a) {
                    Ok(x) => x,
                    Err(er) => {
                        return Err(er);
                    },
                };
                let i2 = match self.on_expr(scope, pool, *idx) {
                    Ok(x) => x,
                    Err(er) => {
                        return Err(er);
                    },
                };
                Ok(Expr::ArrayElem(Box::new(a2), Box::new(i2), s))
            },
            Expr::While(c, body, s) => {
                let c2 = match self.on_expr(scope, pool, *c) {
                    Ok(x) => x,
                    Err(er) => {
                        return Err(er);
                    },
                };
                let b2 = match self.on_seq(scope, pool, body) {
                    Ok(x) => x,
                    Err(er) => {
                        return Err(er);
                    },
                };
                Ok(Expr::While(Box::new(c2), b2, s))
            },
            Expr::Call(c, ts, args, s) => {
                let mut rest = args;
                let ghost orig = rest@;
                let ghost vargs = view_exprs(orig);
                let mut out: Vec<Expr> = Vec::new();
                proof {
                    assert(view_exprs(out@) =~= Seq::<SpecExpr>::empty());
                    assert(rest@ =~= orig.subrange(0, orig.len() as int));
                }
                while rest.len() > 0
                    invariant
                        scope@.function is Some,
                        rest@.len() <= orig.len(),
                        rest@ == orig.subrange(orig.len() - rest@.len(), orig.len() as int),
                        size_expr(e0) == 1 + size_list(orig, 0),
                        lower_list(scope@, st00, vargs, 0, Seq::empty()) == lower_list(
                            scope@,
                            st_of(*self, *pool),
                            vargs,
                            orig.len() - rest@.len(),
                            view_exprs(out@),
                        ),
                    decreases rest@.len(),
                {
                    let ghost i = orig.len() - rest@.len();
                    let e = rest.remove(0);
                    proof {
                        assert(orig.subrange(i, orig.len() as int)[0] == orig[i]);
                        assert(e == orig[i]);
                        assert(rest@ =~= orig.subrange(i + 1, orig.len() as int));
                        lemma_size_list_elem(orig, 0, i);
                        lemma_view_index(orig, i);
                        assert(vargs[i] == view_expr(e));
                    }
                    let ghost st_before = st_of(*self, *pool);
                    let ghost out_before = view_exprs(out@);
                    let e2 = match self.on_expr(scope, pool, e) {
                        Ok(x) => x,
                        Err(er) => {
                            proof {
                                assert(lower_list(scope@, st_before, vargs, i, out_before) == (
                                    st_of(*self, *pool),
                                    Err::<Seq<SpecExpr>, SpecError>(er@),
                                ));
                            }
                            return Err(er);
                        },
                    };
                    let ghost pre_push = out@;
                    out.push(e2);
                    proof {
                        lemma_view_exprs_push(pre_push, e2);
                        assert(lower_list(scope@, st_before, vargs, i, out_before) == lower_list(
                            scope@,
                            st_of(*self, *pool),
                            vargs,
                            i + 1,
                            view_exprs(out@),
                        ));
                    }
                }
                proof {
                    assert(lower_list(
                        scope@,
                        st_of(*self, *pool),
                        vargs,
                        orig.len() as int,
                        view_exprs(out@),
                    ) == (st_of(*self, *pool), Ok::<Seq<SpecExpr>, SpecError>(view_exprs(out@))));
                }
                Ok(Expr::Call(c, ts, out, s))
            },
            Expr::ArrayLit(elems, t, s) => self.on_array_lit(scope, pool, elems, t, s),
            Expr::InterpStr(prefix, parts, s) => self.on_interpolated_string(
                scope,
                pool,
                prefix,
                parts,
                s,
            ),
            Expr::ForIn(name, arr, body, s) => {
                let r = self.on_for_in(scope, pool, name, *arr, body, s);
                proof {
                    assert(lower_expr(scope@, st00, view_expr(e0)) == lower_for_in(
                        scope@,
                        st00,
                        name,
                        *view_expr(e0)->ForIn_1,
                        view_expr(e0)->ForIn_2,
                        s,
                    ));
                }
                r
            },
        }
    }

    /// Lowers an array literal: builds the array by one push per element, in
    /// source order, hoisted as prefix statements; the expression itself
    /// becomes a reference to the fresh array local.
    #[verifier::loop_isolation(false)]
    pub fn on_array_lit(
        &mut self,
        scope: &Scope,
        pool: &mut ConstantPool,
        exprs: Vec<Expr>,
        type_: TypeId,
        pos: Span,
    ) -> (r: Result<Expr, Error>)
        requires
            scope@.function is Some,
        ensures
            ({
                let (st2, r2) = lower_array_lit(
                    scope@,
                    st_of(*old(self), *old(pool)),
                    view_exprs(exprs@),
                    type_,
                    pos,
                );
                &&& st_of(*final(self), *final(pool)) == st2
                &&& match r {
                    Ok(e2) => r2 == Ok::<SpecExpr, SpecError>(view_expr(e2)),
                    Err(er) => r2 == Err::<SpecExpr, SpecError>(er@),
                }
            }),
        decreases size_list(exprs@, 0), 2int,
    {
        let ghost st00 = st_of(*old(self), *old(pool));
        let ghost velems = view_exprs(exprs@);
        let arr_t = TypeId::Array(Box::new(type_));
        let local = match self.fresh_local(scope, pool, &arr_t, pos) {
            Ok(l) => l,
            Err(er) => {
                return Err(er);
            },
        };
        let ghost st1 = st_of(*self, *pool);
        let mut rest = exprs;
        let ghost orig = rest@;
        proof {
            assert(rest@ =~= orig.subrange(0, orig.len() as int));
        }
        while rest.len() > 0
            invariant
                scope@.function is Some,
                rest@.len() <= orig.len(),
                rest@ == orig.subrange(orig.len() - rest@.len(), orig.len() as int),
                velems == view_exprs(orig),
                lower_elems(scope@, st1, velems, 0, local, pos) == lower_elems(
                    scope@,
                    st_of(*self, *pool),
                    velems,
                    orig.len() - rest@.len(),
                    local,
                    pos,
                ),
            decreases rest@.len(),
        {
            let ghost i = orig.len() - rest@.len();
            let e = rest.remove(0);
            proof {
                assert(orig.subrange(i, orig.len() as int)[0] == orig[i]);
                assert(e == orig[i]);
                assert(rest@ =~= orig.subrange(i + 1, orig.len() as int));
                lemma_size_list_elem(orig, 0, i);
                lemma_view_index(orig, i);
                assert(velems[i] == view_expr(e));
            }
            let ghost st_before = st_of(*self, *pool);
            let e2 = match self.on_expr(scope, pool, e) {
                Ok(x) => x,
                Err(er) => {
                    proof {
                        assert(lower_elems(scope@, st_before, velems, i, local, pos) == (
                            st_of(*self, *pool),
                            Err::<int, SpecError>(er@),
                        ));
                    }
                    return Err(er);
                },
            };
            let ghost st_mid = st_of(*self, *pool);
            let callable = Callable::Intrinsic(IntrinsicOp::ArrayPush, TypeId::Void);
            let push_stmt = call2(callable, Expr::Ident(local, pos), e2, pos);
            let ghost pre_prefix = self.prefix_exprs@;
            self.add_prefix(push_stmt);
            proof {
                lemma_view_exprs_push(pre_prefix, push_stmt);
                assert(st_of(*self, *pool) =~= St {
                    prefix: st_mid.prefix.push(view_expr(push_stmt)),
                    locals: st_mid.locals,
                    pool: st_mid.pool,
                });
                assert(lower_elems(scope@, st_before, velems, i, local, pos) == lower_elems(
                    scope@,
                    st_of(*self, *pool),
                    velems,
                    i + 1,
                    local,
                    pos,
                ));
            }
        }
        proof {
            assert(lower_elems(
                scope@,
                st_of(*self, *pool),
                velems,
                orig.len() as int,
                local,
                pos,
            ) == (st_of(*self, *pool), Ok::<int, SpecError>(0)));
        }
        Ok(Expr::Ident(local, pos))
    }

    /// Lowers an interpolated string to nested calls of the resolved
    /// concatenation function, with each part adapted to string by its type;
    /// a void-typed part fails with the unsupported-operand condition.
    #[verifier::loop_isolation(false)]
    pub fn on_interpolated_string(
        &mut self,
        scope: &Scope,
        pool: &mut ConstantPool,
        prefix: String,
        parts: Vec<StrPart>,
        span: Span,
    ) -> (r: Result<Expr, Error>)
        requires
            scope@.function is Some,
        ensures
            ({
                let (st2, r2) = lower_interp(
                    scope@,
                    st_of(*old(self), *old(pool)),
                    prefix,
                    view_parts(parts@),
                    span,
                );
                &&& st_of(*final(self), *final(pool)) == st2
                &&& match r {
                    Ok(e2) => r2 == Ok::<SpecExpr, SpecError>(view_expr(e2)),
                    Err(er) => r2 == Err::<SpecExpr, SpecError>(er@),
                }
            }),
        decreases size_parts(parts@, 0), 2int,
    {
        let ghost st00 = st_of(*old(self), *old(pool));
        let ghost vparts = view_parts(parts@);
        let str_type = match scope.resolve_type(TypeName::Str) {
            Ok(t) => t,
            Err(c) => {
                return Err(c.with_span(span));
            },
        };
        let add_sig = FunctionSignature::binary(
            FnName::OpAdd,
            ParamSig { typ: TypeName::RefStr, by_ref: false },
            ParamSig { typ: TypeName::RefStr, by_ref: false },
            TypeName::Str,
        );
        proof {
            assert(add_sig@ =~= concat_sig());
        }
        let add_str = match self.get_function(scope, add_sig) {
            Ok(c) => c,
            Err(c) => {
                return Err(c.with_span(span));
            },
        };
        let mut acc = Expr::Constant(Constant::Str(prefix), span);
        let mut rest = parts;
        let ghost orig = rest@;
        proof {
            assert(rest@ =~= orig.subrange(0, orig.len() as int));
        }
        while rest.len() > 0
            invariant
                scope@.function is Some,
                rest@.len() <= orig.len(),
                rest@ == orig.subrange(orig.len() - rest@.len(), orig.len() as int),
                vparts == view_parts(orig),
                lower_parts(
                    scope@,
                    st00,
                    vparts,
                    0,
                    SpecExpr::Constant(Constant::Str(prefix), span),
                    add_str,
                    str_type,
                    span,
                ) == lower_parts(
                    scope@,
                    st_of(*self, *pool),
                    vparts,
                    orig.len() - rest@.len(),
                    view_expr(acc),
                    add_str,
                    str_type,
                    span,
                ),
            decreases rest@.len(),
        {
            let ghost i = orig.len() - rest@.len();
            let part = rest.remove(0);
            proof {
                assert(orig.subrange(i, orig.len() as int)[0] == orig[i]);
                assert(part == orig[i]);
                assert(rest@ =~= orig.subrange(i + 1, orig.len() as int));
                lemma_size_parts_elem(orig, 0, i);
                lemma_view_parts_index(orig, i);
                assert(vparts[i] == (SpecPart { expr: view_expr(part.expr), tail: part.tail }));
            }
            let StrPart { expr: pexpr, tail } = part;
            let ghost st_before = st_of(*self, *pool);
            let ghost acc_before = view_expr(acc);
            let p2 = match self.on_expr(scope, pool, pexpr) {
                Ok(x) => x,
                Err(er) => {
                    proof {
                        assert(lower_parts(
                            scope@,
                            st_before,
                            vparts,
                            i,
                            acc_before,
                            add_str,
                            str_type,
                            span,
                        ) == (st_of(*self, *pool), Err::<SpecExpr, SpecError>(er@)));
                    }
                    return Err(er);
                },
            };
            let t = match type_of(&p2, scope, pool) {
                Ok(t) => t,
                Err(er) => {
                    return Err(er);
                },
            };
            let is_void = match &t {
                TypeId::Void => true,
                _ => false,
            };
            if is_void {
                return Err(Cause::UnsupportedVoid.with_span(span));
            }
            let classified = classify_call(p2, &t, &str_type, span);
            let tail_empty = tail.as_str().is_empty();
            let combined = if tail_empty {
                classified
            } else {
                let lit = as_ref_call(Expr::Constant(Constant::Str(tail), span), &str_type, span);
                let inner = call2(add_str.duplicate(), classified, lit, span);
                as_ref_call(inner, &str_type, span)
            };
            let wrapped_acc = as_ref_call(acc, &str_type, span);
            acc = call2(add_str.duplicate(), wrapped_acc, combined, span);
            proof {
                assert(lower_parts(scope@, st_before, vparts, i, acc_before, add_str, str_type, span)
                    == lower_parts(
                    scope@,
                    st_of(*self, *pool),
                    vparts,
                    i + 1,
                    view_expr(acc),
                    add_str,
                    str_type,
                    span,
                ));
            }
        }
        proof {
            assert(lower_parts(
                scope@,
                st_of(*self, *pool),
                vparts,
                orig.len() as int,
                view_expr(acc),
                add_str,
                str_type,
                span,
            ) == (st_of(*self, *pool), Ok::<SpecExpr, SpecError>(view_expr(acc))));
        }
        Ok(acc)
    }

    /// Lowers a for-in loop to a while-loop over an index counter: the body is
    /// lowered first with the same rewriter state, then the array expression;
    /// two fresh locals hold the array and the counter, initialized by prefix
    /// statements; the loop condition re-reads the array's size on every
    /// iteration, and the body assigns the loop variable before the user
    /// statements and increments the counter after them.
    pub fn on_for_in(
        &mut self,
        scope: &Scope,
        pool: &mut ConstantPool,
        name: usize,
        array: Expr,
        seq_: StmtSeq,
        span: Span,
    ) -> (r: Result<Expr, Error>)
        requires
            scope@.function is Some,
        ensures
            ({
                let (st2, r2) = lower_for_in(
                    scope@,
                    st_of(*old(self), *old(pool)),
                    name,
                    view_expr(array),
                    view_exprs(seq_.exprs@),
                    span,
                );
                &&& st_of(*final(self), *final(pool)) == st2
                &&& match r {
                    Ok(e2) => r2 == Ok::<SpecExpr, SpecError>(view_expr(e2)),
                    Err(er) => r2 == Err::<SpecExpr, SpecError>(er@),
                }
            }),
        decreases size_expr(array) + size_list(seq_.exprs@, 0), 2int,
    {
        let ghost st00 = st_of(*old(self), *old(pool));
        proof {
            assert(size_expr(array) >= 1);
        }
        let b2 = match self.on_seq(scope, pool, seq_) {
            Ok(x) => x,
            Err(er) => {
                return Err(er);
            },
        };
        let a2 = match self.on_expr(scope, pool, array) {
            Ok(x) => x,
            Err(er) => {
                return Err(er);
            },
        };
        let arr_t = match type_of(&a2, scope, pool) {
            Ok(t) => t,
            Err(er) => {
                return Err(er);
            },
        };
        let arr_local = match self.fresh_local(scope, pool, &arr_t, span) {
            Ok(l) => l,
            Err(er) => {
                return Err(er);
            },
        };
        let counter_t = match scope.resolve_type(TypeName::Int32) {
            Ok(t) => t,
            Err(c) => {
                return Err(c.with_span(span));
            },
        };
        let counter_local = match self.fresh_local(scope, pool, &counter_t, span) {
            Ok(l) => l,
            Err(er) => {
                return Err(er);
            },
        };
        let ghost st4 = st_of(*self, *pool);
        let ghost va2 = view_expr(a2);
        let assign_arr = Expr::Assign(Box::new(Expr::Ident(arr_local, span)), Box::new(a2), span);
        let ghost assign_arr_v = view_expr(assign_arr);
        proof {
            assert(view_expr(Expr::Ident(arr_local, span)) == SpecExpr::Ident(arr_local, span));
            assert(assign_arr_v == SpecExpr::Assign(
                Box::new(SpecExpr::Ident(arr_local, span)),
                Box::new(va2),
                span,
            ));
        }
        let ghost pre_prefix1 = self.prefix_exprs@;
        self.add_prefix(assign_arr);
        proof {
            lemma_view_exprs_push(pre_prefix1, assign_arr);
        }
        let assign_zero = Expr::Assign(
            Box::new(Expr::Ident(counter_local, span)),
            Box::new(Expr::Constant(Constant::I32(0), span)),
            span,
        );
        let ghost assign_zero_v = view_expr(assign_zero);
        proof {
            assert(view_expr(Expr::Ident(counter_local, span)) == SpecExpr::Ident(
                counter_local,
                span,
            ));
            assert(view_expr(Expr::Constant(Constant::I32(0), span)) == SpecExpr::Constant(
                Constant::I32(0),
                span,
            ));
            assert(assign_zero_v == SpecExpr::Assign(
                Box::new(SpecExpr::Ident(counter_local, span)),
                Box::new(SpecExpr::Constant(Constant::I32(0), span)),
                span,
            ));
        }
        let ghost pre_prefix2 = self.prefix_exprs@;
        self.add_prefix(assign_zero);
        proof {
            lemma_view_exprs_push(pre_prefix2, assign_zero);
            assert(st_of(*self, *pool) =~= St {
                prefix: st4.prefix.push(assign_arr_v).push(assign_zero_v),
                locals: st4.locals,
                pool: st4.pool,
            });
        }
        let add_sig = FunctionSignature::binary(
            FnName::OpAssignAdd,
            ParamSig { typ: TypeName::Int32, by_ref: true },
            ParamSig { typ: TypeName::Int32, by_ref: false },
            TypeName::Int32,
        );
        proof {
            assert(add_sig@ =~= assign_add_sig());
        }
        let assign_add = match self.get_function(scope, add_sig) {
            Ok(c) => c,
            Err(c) => {
                return Err(c.with_span(span));
            },
        };
        let lt_sig = FunctionSignature::binary(
            FnName::OpLess,
            ParamSig { typ: TypeName::Int32, by_ref: false },
            ParamSig { typ: TypeName::Int32, by_ref: false },
            TypeName::Bool,
        );
        proof {
            assert(lt_sig@ =~= less_than_sig());
        }
        let less_than = match self.get_function(scope, lt_sig) {
            Ok(c) => c,
            Err(c) => {
                return Err(c.with_span(span));
            },
        };
        let ghost counter_t_v = counter_t;
        let ghost assign_add_v = assign_add;
        let ghost less_than_v = less_than;
        let size_call = call1(
            Callable::Intrinsic(IntrinsicOp::ArraySize, counter_t),
            Expr::Ident(arr_local, span),
            span,
        );
        let ghost size_call_v = view_expr(size_call);
        proof {
            assert(view_expr(Expr::Ident(arr_local, span)) == SpecExpr::Ident(arr_local, span));
            assert(size_call_v == SpecExpr::Call(
                Callable::Intrinsic(IntrinsicOp::ArraySize, counter_t_v),
                Seq::empty(),
                seq![SpecExpr::Ident(arr_local, span)],
                span,
            ));
        }
        let condition = call2(
            less_than,
            Expr::Ident(counter_local, span),
            size_call,
            span,
        );
        proof {
            assert(view_expr(Expr::Ident(counter_local, span)) == SpecExpr::Ident(
                counter_local,
                span,
            ));
            assert(view_expr(condition) == SpecExpr::Call(
                less_than_v,
                Seq::empty(),
                seq![SpecExpr::Ident(counter_local, span), size_call_v],
                span,
            ));
        }
        let assign_iter = Expr::Assign(
            Box::new(Expr::Ident(Reference::Value(Value::Local(name)), span)),
            Box::new(
                Expr::ArrayElem(
                    Box::new(Expr::Ident(arr_local, span)),
                    Box::new(Expr::Ident(counter_local, span)),
                    span,
                ),
            ),
            span,
        );
        let incr = call2(
            assign_add,
            Expr::Ident(counter_local, span),
            Expr::Constant(Constant::I32(1), span),
            span,
        );
        let ghost assign_iter_v = view_expr(assign_iter);
        let ghost incr_v = view_expr(incr);
        proof {
            assert(view_expr(Expr::Ident(Reference::Value(Value::Local(name)), span))
                == SpecExpr::Ident(Reference::Value(Value::Local(name)), span));
            assert(view_expr(Expr::Ident(arr_local, span)) == SpecExpr::Ident(arr_local, span));
            assert(view_expr(Expr::Ident(counter_local, span)) == SpecExpr::Ident(
                counter_local,
                span,
            ));
            assert(view_expr(
                Expr::ArrayElem(
                    Box::new(Expr::Ident(arr_local, span)),
                    Box::new(Expr::Ident(counter_local, span)),
                    span,
                ),
            ) == SpecExpr::ArrayElem(
                Box::new(SpecExpr::Ident(arr_local, span)),
                Box::new(SpecExpr::Ident(counter_local, span)),
                span,
            ));
            assert(assign_iter_v == SpecExpr::Assign(
                Box::new(SpecExpr::Ident(Reference::Value(Value::Local(name)), span)),
                Box::new(
                    SpecExpr::ArrayElem(
                        Box::new(SpecExpr::Ident(arr_local, span)),
                        Box::new(SpecExpr::Ident(counter_local, span)),
                        span,
                    ),
                ),
                span,
            ));
            assert(view_expr(Expr::Constant(Constant::I32(1), span)) == SpecExpr::Constant(
                Constant::I32(1),
                span,
            ));
            assert(incr_v == SpecExpr::Call(
                assign_add_v,
                Seq::empty(),
                seq![SpecExpr::Ident(counter_local, span), SpecExpr::Constant(
                    Constant::I32(1),
                    span,
                )],
                span,
            ));
        }
        let ghost b2_v = view_exprs(b2.exprs@);
        let mut body_vec = vec1(assign_iter);
        let ghost body1 = body_vec@;
        let mut rest_b = b2.exprs;
        let ghost rest_b_seq = rest_b@;
        body_vec.append(&mut rest_b);
        let ghost body2 = body_vec@;
        body_vec.push(incr);
        proof {
            lemma_view_exprs_concat(body1, rest_b_seq);
            lemma_view_exprs_push(body2, incr);
            assert(view_exprs(body1) =~= seq![assign_iter_v]);
            assert(view_exprs(body_vec@) =~= seq![assign_iter_v] + b2_v + seq![incr_v]);
        }
        let ghost condition_v = view_expr(condition);
        let ghost body_vec_v = view_exprs(body_vec@);
        let result = Expr::While(Box::new(condition), StmtSeq { exprs: body_vec }, span);
        proof {
            let ghost spec_while = forin_while(
                name,
                arr_local,
                counter_local,
                counter_t_v,
                assign_add_v,
                less_than_v,
                b2_v,
                span,
            );
            assert(body_vec_v == seq![assign_iter_v] + b2_v + seq![incr_v]);
            assert(view_expr(result) == SpecExpr::While(Box::new(condition_v), body_vec_v, span));
            assert(spec_while == SpecExpr::While(
                Box::new(condition_v),
                seq![assign_iter_v] + b2_v + seq![incr_v],
                span,
            ));
        }
        Ok(result)
    }
}

} // verus!
