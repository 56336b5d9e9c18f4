use vstd::prelude::*;

use crate::ast::{Callable, Constant, IntrinsicOp, Reference, Span, SpecExpr, SpecPart, TypeId,
    Value};
use crate::lower::{St, as_ref_wrap, assign_add_sig, classify_part, cur_fun, forin_while,
    less_than_sig, lower_array_lit, lower_elems, lower_expr, lower_for_in_tail, lower_interp,
    lower_list, lower_parts, lower_stmts, spec_fresh_local, spec_lower_seq, spec_type_of};
use crate::pool::{PoolName, PoolView};
use crate::scope::{SpecCause, SpecError, SpecScope, TypeName, spec_get_function,
    spec_resolve_type};

verus! {

// ---------------------------------------------------------------------------
// Fresh-local uniqueness.
// ---------------------------------------------------------------------------

/// The local at position `i` of the pass's list is a definition whose interned
/// name is the synthetic identity `i`.
pub open spec fn local_name_ok_at(locals: Seq<usize>, pool: PoolView, i: int) -> bool {
    &&& locals[i] < pool.defs.len()
    &&& pool.defs[locals[i] as int].name < pool.names.len()
    &&& pool.names[pool.defs[locals[i] as int].name as int] == PoolName::Synthetic(i as usize)
}

pub open spec fn local_name_ok(st: St, i: int) -> bool {
    local_name_ok_at(st.locals, st.pool, i)
}

/// Every local the pass has created carries the synthetic name of its position:
/// the state a rewriter starts from (no locals yet) has it trivially, and
/// lowering preserves it.
pub open spec fn locals_wf_at(locals: Seq<usize>, pool: PoolView) -> bool {
    forall|i: int| 0 <= i < locals.len() ==> #[trigger] local_name_ok_at(locals, pool, i)
}

pub open spec fn locals_wf(st: St) -> bool {
    locals_wf_at(st.locals, st.pool)
}

/// The pool's tables fit a machine word, as they do in every state the
/// executable rewriter reaches, since its tables are vectors.
pub open spec fn pool_bounded(st: St) -> bool {
    &&& st.pool.defs.len() <= usize::MAX
    &&& st.pool.names.len() <= usize::MAX
}

/// The lowering only ever appends to the created-locals list, the name table
/// and the definition table, and never touches the storage-type table.
pub open spec fn st_extends(st2: St, st1: St) -> bool {
    &&& st1.locals.is_prefix_of(st2.locals)
    &&& st1.pool.names.is_prefix_of(st2.pool.names)
    &&& st1.pool.defs.is_prefix_of(st2.pool.defs)
    &&& st2.pool.types == st1.pool.types
}

proof fn lemma_extends_refl(st: St)
    ensures
        st_extends(st, st),
{
    assert(st.locals =~= st.locals.subrange(0, st.locals.len() as int));
    assert(st.pool.names =~= st.pool.names.subrange(0, st.pool.names.len() as int));
    assert(st.pool.defs =~= st.pool.defs.subrange(0, st.pool.defs.len() as int));
}

proof fn lemma_bounded_back(st2: St, st1: St)
    requires
        st_extends(st2, st1),
        pool_bounded(st2),
    ensures
        pool_bounded(st1),
{
}

proof fn lemma_extends_trans(st3: St, st2: St, st1: St)
    requires
        st_extends(st3, st2),
        st_extends(st2, st1),
    ensures
        st_extends(st3, st1),
{
    assert(st1.locals =~= st3.locals.subrange(0, st1.locals.len() as int));
    assert(st1.pool.names =~= st3.pool.names.subrange(0, st1.pool.names.len() as int));
    assert(st1.pool.defs =~= st3.pool.defs.subrange(0, st1.pool.defs.len() as int));
}

/// Allocating a fresh local preserves the synthetic-name discipline: the new
/// local's name is the synthetic identity `st.locals.len()`, and no existing
/// entry moves.
pub proof fn lemma_fresh_wf(st: St, fun: usize, t: TypeId)
    ensures
        ({
            let (st2, r) = spec_fresh_local(st, fun, t);
            &&& st_extends(st2, st)
            &&& locals_wf(st) && pool_bounded(st2) ==> locals_wf(st2)
        }),
{
    let (st2, r) = spec_fresh_local(st, fun, t);
    assert(st.locals =~= st2.locals.subrange(0, st.locals.len() as int));
    assert(st.pool.names =~= st2.pool.names.subrange(0, st.pool.names.len() as int));
    assert(st.pool.defs =~= st2.pool.defs.subrange(0, st.pool.defs.len() as int));
    if locals_wf(st) && pool_bounded(st2) {
        assert forall|i: int| 0 <= i < st2.locals.len() implies #[trigger] local_name_ok_at(
            st2.locals,
            st2.pool,
            i,
        ) by {
            if i < st.locals.len() {
                assert(local_name_ok_at(st.locals, st.pool, i));
                assert(st2.locals[i] == st.locals[i]);
                assert(st2.pool.defs[st.locals[i] as int] == st.pool.defs[st.locals[i] as int]);
                assert(st2.pool.names[st.pool.defs[st.locals[i] as int].name as int]
                    == st.pool.names[st.pool.defs[st.locals[i] as int].name as int]);
            } else {
                assert(i == st.locals.len());
                assert(r is Ok);
                assert(st.pool.defs.len() < usize::MAX);
                assert(st.pool.names.len() < usize::MAX);
                assert(st2.locals[i] == st.pool.defs.len() as usize);
                assert(st2.pool.defs[st2.locals[i] as int].name == st.pool.names.len() as usize);
                assert(st2.pool.names[st.pool.names.len() as int] == PoolName::Synthetic(
                    st.locals.len() as usize,
                ));
            }
        }
    }
}

proof fn wf_lower_list(sc: SpecScope, st: St, es: Seq<SpecExpr>, i: int, out: Seq<SpecExpr>)
    ensures
        ({
            let (st2, r) = lower_list(sc, st, es, i, out);
            &&& st_extends(st2, st)
            &&& locals_wf(st) && pool_bounded(st2) ==> locals_wf(st2)
        }),
    decreases es, es.len() - i,
{
    broadcast use vstd::seq::axiom_seq_index_decreases;

    lemma_extends_refl(st);
    if 0 <= i < es.len() {
        assert(decreases_to!(es => es[i]));
        wf_lower_expr(sc, st, es[i]);
        let (st1, r) = lower_expr(sc, st, es[i]);
        match r {
            Err(_) => {},
            Ok(e2) => {
                wf_lower_list(sc, st1, es, i + 1, out.push(e2));
                let st2 = lower_list(sc, st1, es, i + 1, out.push(e2)).0;
                lemma_extends_trans(st2, st1, st);
                if pool_bounded(st2) {
                    lemma_bounded_back(st2, st1);
                }
            },
        }
    }
}

proof fn wf_lower_stmts(sc: SpecScope, st: St, es: Seq<SpecExpr>, i: int, out: Seq<SpecExpr>)
    ensures
        ({
            let (st2, r) = lower_stmts(sc, st, es, i, out);
            &&& st_extends(st2, st)
            &&& locals_wf(st) && pool_bounded(st2) ==> locals_wf(st2)
        }),
    decreases es, es.len() - i,
{
    broadcast use vstd::seq::axiom_seq_index_decreases;

    lemma_extends_refl(st);
    if 0 <= i < es.len() {
        assert(decreases_to!(es => es[i]));
        wf_lower_expr(sc, st, es[i]);
        let (st1, r) = lower_expr(sc, st, es[i]);
        match r {
            Err(_) => {},
            Ok(e2) => {
                let stc = St { prefix: Seq::empty(), locals: st1.locals, pool: st1.pool };
                wf_lower_stmts(sc, stc, es, i + 1, out + st1.prefix + seq![e2]);
                let st2 = lower_stmts(sc, stc, es, i + 1, out + st1.prefix + seq![e2]).0;
                lemma_extends_trans(st2, stc, st);
                if pool_bounded(st2) {
                    lemma_bounded_back(st2, stc);
                }
            },
        }
    }
}

proof fn wf_lower_elems(sc: SpecScope, st: St, es: Seq<SpecExpr>, i: int, local: Reference, s: Span)
    ensures
        ({
            let (st2, r) = lower_elems(sc, st, es, i, local, s);
            &&& st_extends(st2, st)
            &&& locals_wf(st) && pool_bounded(st2) ==> locals_wf(st2)
        }),
    decreases es, es.len() - i,
{
    broadcast use vstd::seq::axiom_seq_index_decreases;

    lemma_extends_refl(st);
    if 0 <= i < es.len() {
        assert(decreases_to!(es => es[i]));
        wf_lower_expr(sc, st, es[i]);
        let (st1, r) = lower_expr(sc, st, es[i]);
        match r {
            Err(_) => {},
            Ok(e2) => {
                let push_call = SpecExpr::Call(
                    Callable::Intrinsic(IntrinsicOp::ArrayPush, TypeId::Void),
                    Seq::empty(),
                    seq![SpecExpr::Ident(local, s), e2],
                    s,
                );
                let stp = St {
                    prefix: st1.prefix.push(push_call),
                    locals: st1.locals,
                    pool: st1.pool,
                };
                wf_lower_elems(sc, stp, es, i + 1, local, s);
                let st2 = lower_elems(sc, stp, es, i + 1, local, s).0;
                lemma_extends_trans(st2, stp, st);
                if pool_bounded(st2) {
                    lemma_bounded_back(st2, stp);
                }
            },
        }
    }
}

proof fn wf_lower_parts(
    sc: SpecScope,
    st: St,
    parts: Seq<SpecPart>,
    i: int,
    acc: SpecExpr,
    add_str: Callable,
    str_type: TypeId,
    s: Span,
)
    ensures
        ({
            let (st2, r) = lower_parts(sc, st, parts, i, acc, add_str, str_type, s);
            &&& st_extends(st2, st)
            &&& locals_wf(st) && pool_bounded(st2) ==> locals_wf(st2)
        }),
    decreases parts, parts.len() - i,
{
    broadcast use vstd::seq::axiom_seq_index_decreases;

    lemma_extends_refl(st);
    if 0 <= i < parts.len() {
        assert(decreases_to!(parts => parts[i]));
        assert(decreases_to!(parts[i] => parts[i].expr));
        wf_lower_expr(sc, st, parts[i].expr);
        let (st1, r) = lower_expr(sc, st, parts[i].expr);
        match r {
            Err(_) => {},
            Ok(p2) => {
                match spec_type_of(sc, st1.pool, p2) {
                    Err(_) => {},
                    Ok(t) => {
                        if t != TypeId::Void {
                            let classified = classify_part(p2, t, str_type, s);
                            let combined = if parts[i].tail@.len() == 0 {
                                classified
                            } else {
                                as_ref_wrap(
                                    SpecExpr::Call(
                                        add_str,
                                        Seq::empty(),
                                        seq![
                                            classified,
                                            as_ref_wrap(
                                                SpecExpr::Constant(Constant::Str(parts[i].tail), s),
                                                str_type,
                                                s,
                                            ),
                                        ],
                                        s,
                                    ),
                                    str_type,
                                    s,
                                )
                            };
                            let acc2 = SpecExpr::Call(
                                add_str,
                                Seq::empty(),
                                seq![as_ref_wrap(acc, str_type, s), combined],
                                s,
                            );
                            wf_lower_parts(sc, st1, parts, i + 1, acc2, add_str, str_type, s);
                            let st2 = lower_parts(
                                sc,
                                st1,
                                parts,
                                i + 1,
                                acc2,
                                add_str,
                                str_type,
                                s,
                            ).0;
                            lemma_extends_trans(st2, st1, st);
                            if pool_bounded(st2) {
                                lemma_bounded_back(st2, st1);
                            }
                        }
                    },
                }
            },
        }
    }
}

proof fn wf_lower_for_in_tail(
    sc: SpecScope,
    st: St,
    name: usize,
    a2: SpecExpr,
    arr_t: TypeId,
    b2: Seq<SpecExpr>,
    s: Span,
)
    ensures
        ({
            let (st2, r) = lower_for_in_tail(sc, st, name, a2, arr_t, b2, s);
            &&& st_extends(st2, st)
            &&& locals_wf(st) && pool_bounded(st2) ==> locals_wf(st2)
        }),
{
    lemma_extends_refl(st);
    lemma_fresh_wf(st, cur_fun(sc), arr_t);
    let (st3, rloc) = spec_fresh_local(st, cur_fun(sc), arr_t);
    match rloc {
        Err(_) => {},
        Ok(_) => {
            match spec_resolve_type(sc, TypeName::Int32) {
                Err(_) => {},
                Ok(counter_t) => {
                    lemma_fresh_wf(st3, cur_fun(sc), counter_t);
                    let (st4, rc) = spec_fresh_local(st3, cur_fun(sc), counter_t);
                    lemma_extends_trans(st4, st3, st);
                    if pool_bounded(st4) {
                        lemma_bounded_back(st4, st3);
                    }
                },
            }
        },
    }
}

proof fn wf_lower_expr(sc: SpecScope, st: St, e: SpecExpr)
    ensures
        ({
            let (st2, r) = lower_expr(sc, st, e);
            &&& st_extends(st2, st)
            &&& locals_wf(st) && pool_bounded(st2) ==> locals_wf(st2)
        }),
    decreases e, 0int,
{
    lemma_extends_refl(st);
    match e {
        SpecExpr::Constant(_, _) => {},
        SpecExpr::Ident(_, _) => {},
        SpecExpr::Call(c, ts, args, s) => {
            assert(decreases_to!(e => args));
            wf_lower_list(sc, st, args, 0, Seq::empty());
        },
        SpecExpr::Assign(l, r, s) => {
            wf_lower_expr(sc, st, *l);
            let (st1, rl) = lower_expr(sc, st, *l);
            match rl {
                Err(_) => {},
                Ok(_) => {
                    wf_lower_expr(sc, st1, *r);
                    let st2 = lower_expr(sc, st1, *r).0;
                    lemma_extends_trans(st2, st1, st);
                    if pool_bounded(st2) {
                        lemma_bounded_back(st2, st1);
                    }
                },
            }
        },
        SpecExpr::ArrayElem(a, i, s) => {
            wf_lower_expr(sc, st, *a);
            let (st1, ra) = lower_expr(sc, st, *a);
            match ra {
                Err(_) => {},
                Ok(_) => {
                    wf_lower_expr(sc, st1, *i);
                    let st2 = lower_expr(sc, st1, *i).0;
                    lemma_extends_trans(st2, st1, st);
                    if pool_bounded(st2) {
                        lemma_bounded_back(st2, st1);
                    }
                },
            }
        },
        SpecExpr::While(c, body, s) => {
            wf_lower_expr(sc, st, *c);
            let (st1, rc) = lower_expr(sc, st, *c);
            match rc {
                Err(_) => {},
                Ok(_) => {
                    assert(decreases_to!(e => body));
                    wf_lower_stmts(sc, st1, body, 0, Seq::empty());
                    let st2 = lower_stmts(sc, st1, body, 0, Seq::empty()).0;
                    lemma_extends_trans(st2, st1, st);
                    if pool_bounded(st2) {
                        lemma_bounded_back(st2, st1);
                    }
                },
            }
        },
        SpecExpr::ArrayLit(elems, t, s) => {
            assert(lower_expr(sc, st, e) == lower_array_lit(sc, st, elems, t, s));
            lemma_fresh_wf(st, cur_fun(sc), TypeId::Array(Box::new(t)));
            let (st1, rl) = spec_fresh_local(st, cur_fun(sc), TypeId::Array(Box::new(t)));
            match rl {
                Err(_) => {},
                Ok(local) => {
                    assert(decreases_to!(e => elems));
                    wf_lower_elems(sc, st1, elems, 0, local, s);
                    let st2 = lower_elems(sc, st1, elems, 0, local, s).0;
                    lemma_extends_trans(st2, st1, st);
                    if pool_bounded(st2) {
                        lemma_bounded_back(st2, st1);
                    }
                },
            }
        },
        SpecExpr::InterpStr(prefix, parts, s) => {
            assert(lower_expr(sc, st, e) == lower_interp(sc, st, prefix, parts, s));
            match spec_resolve_type(sc, TypeName::Str) {
                Err(_) => {},
                Ok(str_type) => match spec_get_function(sc, crate::lower::concat_sig()) {
                    Err(_) => {},
                    Ok(add_str) => {
                        assert(decreases_to!(e => parts));
                        wf_lower_parts(
                            sc,
                            st,
                            parts,
                            0,
                            SpecExpr::Constant(Constant::Str(prefix), s),
                            add_str,
                            str_type,
                            s,
                        );
                    },
                },
            }
        },
        SpecExpr::ForIn(name, array, body, s) => {
            assert(decreases_to!(e => body));
            wf_lower_stmts(sc, st, body, 0, Seq::empty());
            let (st1, rb) = lower_stmts(sc, st, body, 0, Seq::empty());
            match rb {
                Err(_) => {},
                Ok(b2) => {
                    wf_lower_expr(sc, st1, *array);
                    let (st2, ra) = lower_expr(sc, st1, *array);
                    lemma_extends_trans(st2, st1, st);
                    if pool_bounded(st2) {
                        lemma_bounded_back(st2, st1);
                    }
                    match ra {
                        Err(_) => {},
                        Ok(a2) => match spec_type_of(sc, st2.pool, a2) {
                            Err(_) => {},
                            Ok(arr_t) => {
                                wf_lower_for_in_tail(sc, st2, name, a2, arr_t, b2, s);
                                let st3 = lower_for_in_tail(sc, st2, name, a2, arr_t, b2, s).0;
                                lemma_extends_trans(st3, st2, st);
                                if pool_bounded(st3) {
                                    lemma_bounded_back(st3, st2);
                                    lemma_bounded_back(st3, st1);
                                }
                            },
                        },
                    }
                },
            }
        },
    }
}

/// A state with no created locals — where every rewriter starts — satisfies
/// the synthetic-name discipline trivially.
pub proof fn lemma_empty_locals_wf(st: St)
    requires
        st.locals.len() == 0,
    ensures
        locals_wf(st),
{
}

/// Fresh-local uniqueness, preserved by a whole pass: lowering a statement
/// sequence from a state whose created locals all carry the synthetic name of
/// their position leaves a state with the same discipline, and the state only
/// grows. A rewriter starts with no created locals, so its initial state
/// satisfies the discipline trivially.
pub proof fn lemma_lowering_preserves_uniqueness(sc: SpecScope, st: St, stmts: Seq<SpecExpr>)
    ensures
        ({
            let (st2, r) = spec_lower_seq(sc, st, stmts);
            &&& st_extends(st2, st)
            &&& locals_wf(st) && pool_bounded(st2) ==> locals_wf(st2)
        }),
{
    wf_lower_stmts(sc, st, stmts, 0, Seq::empty());
}

/// Fresh-local uniqueness: two distinct locals created by one pass never share
/// a synthetic name, whatever mix of sugar forms produced them, and their
/// definition handles differ too.
pub proof fn lemma_fresh_locals_distinct(st: St, i: int, j: int)
    requires
        locals_wf(st),
        0 <= i < j < st.locals.len(),
        st.locals.len() <= usize::MAX,
        pool_bounded(st),
    ensures
        st.pool.names[st.pool.defs[st.locals[i] as int].name as int] != st.pool.names[st.pool.defs[st.locals[j] as int].name as int],
        st.locals[i] != st.locals[j],
{
    assert(local_name_ok(st, i));
    assert(local_name_ok(st, j));
    assert(i as usize != j as usize);
    assert(PoolName::Synthetic(i as usize) != PoolName::Synthetic(j as usize));
}

// ---------------------------------------------------------------------------
// Interpolation is type-directed.
// ---------------------------------------------------------------------------

/// Interpolating a value of plain string type wraps it in take-reference once
/// and never invokes the to-string intrinsic.
pub proof fn lemma_interp_plain_string_no_to_string(p: SpecExpr, str_type: TypeId, s: Span)
    ensures
        classify_part(p, TypeId::Str, str_type, s) == as_ref_wrap(p, str_type, s),
        as_ref_wrap(p, str_type, s) matches SpecExpr::Call(
            Callable::Intrinsic(IntrinsicOp::AsRef, _),
            _,
            args,
            _,
        ) && args == seq![p],
{
}

/// Interpolating a value that is already a reference to string uses it as is:
/// no double wrap, no to-string.
pub proof fn lemma_interp_ref_string_not_rewrapped(p: SpecExpr, str_type: TypeId, s: Span)
    ensures
        classify_part(p, TypeId::ScriptRef(Box::new(TypeId::Str)), str_type, s) == p,
{
}

/// Interpolating a non-string, non-void value applies the to-string intrinsic
/// exactly once, then take-reference.
pub proof fn lemma_interp_other_to_string_once(p: SpecExpr, t: TypeId, str_type: TypeId, s: Span)
    requires
        t != TypeId::Str,
        t != TypeId::ScriptRef(Box::new(TypeId::Str)),
    ensures
        classify_part(p, t, str_type, s) == as_ref_wrap(
            SpecExpr::Call(
                Callable::Intrinsic(IntrinsicOp::ToString, str_type),
                Seq::empty(),
                seq![p],
                s,
            ),
            str_type,
            s,
        ),
{
}

/// A part of void type fails with the unsupported-operand condition: when the
/// part expression at position `i` lowers successfully but its type is void,
/// the whole interpolation stops with that error, at the literal's position —
/// never silently producing an empty fragment.
pub proof fn lemma_interp_void_fails(
    sc: SpecScope,
    st: St,
    parts: Seq<SpecPart>,
    i: int,
    acc: SpecExpr,
    add_str: Callable,
    str_type: TypeId,
    s: Span,
)
    requires
        0 <= i < parts.len(),
        lower_expr(sc, st, parts[i].expr).1 is Ok,
        spec_type_of(sc, lower_expr(sc, st, parts[i].expr).0.pool, lower_expr(
            sc,
            st,
            parts[i].expr,
        ).1->Ok_0) == Ok::<TypeId, SpecError>(TypeId::Void),
    ensures
        lower_parts(sc, st, parts, i, acc, add_str, str_type, s).1 == Err::<SpecExpr, SpecError>(
            SpecError { cause: SpecCause::UnsupportedVoid, span: s },
        ),
{
}

// ---------------------------------------------------------------------------
// The for-in loop's shape.
// ---------------------------------------------------------------------------

/// A successful for-in lowering yields a while-loop whose condition applies
/// the array-size intrinsic to the array local inside the comparison — so the
/// length is re-read on every iteration, never cached — and whose body assigns
/// the loop variable from `array[counter]` before the user statements and
/// increments the counter after them.
pub proof fn lemma_for_in_loop_shape(
    name: usize,
    arr_local: Reference,
    counter_local: Reference,
    counter_t: TypeId,
    assign_add: Callable,
    less_than: Callable,
    body: Seq<SpecExpr>,
    s: Span,
)
    ensures
        ({
            let w = forin_while(name, arr_local, counter_local, counter_t, assign_add, less_than,
                body, s);
            &&& w matches SpecExpr::While(cond, wbody, sp)
            &&& *cond == SpecExpr::Call(
                less_than,
                Seq::empty(),
                seq![
                    SpecExpr::Ident(counter_local, s),
                    SpecExpr::Call(
                        Callable::Intrinsic(IntrinsicOp::ArraySize, counter_t),
                        Seq::empty(),
                        seq![SpecExpr::Ident(arr_local, s)],
                        s,
                    ),
                ],
                s,
            )
            &&& wbody.len() == body.len() + 2
            &&& wbody[0] == SpecExpr::Assign(
                Box::new(SpecExpr::Ident(Reference::Value(Value::Local(name)), s)),
                Box::new(
                    SpecExpr::ArrayElem(
                        Box::new(SpecExpr::Ident(arr_local, s)),
                        Box::new(SpecExpr::Ident(counter_local, s)),
                        s,
                    ),
                ),
                s,
            )
            &&& wbody.subrange(1, 1 + body.len() as int) == body
            &&& wbody[wbody.len() - 1] == SpecExpr::Call(
                assign_add,
                Seq::empty(),
                seq![SpecExpr::Ident(counter_local, s), SpecExpr::Constant(Constant::I32(1), s)],
                s,
            )
        }),
{
    let w = forin_while(name, arr_local, counter_local, counter_t, assign_add, less_than, body, s);
    let wbody = seq![
        SpecExpr::Assign(
            Box::new(SpecExpr::Ident(Reference::Value(Value::Local(name)), s)),
            Box::new(
                SpecExpr::ArrayElem(
                    Box::new(SpecExpr::Ident(arr_local, s)),
                    Box::new(SpecExpr::Ident(counter_local, s)),
                    s,
                ),
            ),
            s,
        ),
    ] + body + seq![
        SpecExpr::Call(
            assign_add,
            Seq::empty(),
            seq![SpecExpr::Ident(counter_local, s), SpecExpr::Constant(Constant::I32(1), s)],
            s,
        ),
    ];
    assert(wbody.subrange(1, 1 + body.len() as int) =~= body);
}

// ---------------------------------------------------------------------------
// Evaluation-order preservation for array literals.
// ---------------------------------------------------------------------------

/// An expression already in primitive form: none of the three sugar kinds
/// anywhere inside it, and no loop (a nested loop's statement sequence would
/// interact with the prefix queue).
pub open spec fn plain(e: SpecExpr) -> bool
    decreases e, 0int,
    via plain_decreases
{
    match e {
        SpecExpr::Constant(_, _) => true,
        SpecExpr::Ident(_, _) => true,
        SpecExpr::Call(_, _, args, _) => plain_list(args, 0),
        SpecExpr::Assign(l, r, _) => plain(*l) && plain(*r),
        SpecExpr::ArrayElem(a, i, _) => plain(*a) && plain(*i),
        SpecExpr::While(_, _, _) => false,
        SpecExpr::ArrayLit(_, _, _) => false,
        SpecExpr::InterpStr(_, _, _) => false,
        SpecExpr::ForIn(_, _, _, _) => false,
    }
}

/// All expressions of `es` from position `i` on are in primitive form.
pub open spec fn plain_list(es: Seq<SpecExpr>, i: int) -> bool
    decreases es, es.len() - i,
    via plain_list_decreases
{
    if i < 0 || i >= es.len() {
        true
    } else {
        plain(es[i]) && plain_list(es, i + 1)
    }
}

#[via_fn]
proof fn plain_decreases(e: SpecExpr) {
    match e {
        SpecExpr::Call(c, ts, args, s) => {
            assert(decreases_to!(e => args));
        },
        _ => {},
    }
}

#[via_fn]
proof fn plain_list_decreases(es: Seq<SpecExpr>, i: int) {
    broadcast use vstd::seq::axiom_seq_index_decreases;

    if 0 <= i < es.len() {
        assert(decreases_to!(es => es[i]));
    }
}

/// An expression already in primitive form lowers to itself, with the state —
/// the prefix queue in particular — untouched.
pub proof fn lemma_plain_identity(sc: SpecScope, st: St, e: SpecExpr)
    requires
        plain(e),
    ensures
        lower_expr(sc, st, e) == (st, Ok::<SpecExpr, SpecError>(e)),
    decreases e, 0int,
{
    match e {
        SpecExpr::Constant(_, _) => {},
        SpecExpr::Ident(_, _) => {},
        SpecExpr::Call(c, ts, args, s) => {
            assert(decreases_to!(e => args));
            lemma_plain_list_identity(sc, st, args, 0, Seq::empty());
            assert(Seq::<SpecExpr>::empty() + args.subrange(0, args.len() as int) =~= args);
        },
        SpecExpr::Assign(l, r, s) => {
            lemma_plain_identity(sc, st, *l);
            lemma_plain_identity(sc, st, *r);
            assert(SpecExpr::Assign(Box::new(*l), Box::new(*r), s) == e);
        },
        SpecExpr::ArrayElem(a, i, s) => {
            lemma_plain_identity(sc, st, *a);
            lemma_plain_identity(sc, st, *i);
            assert(SpecExpr::ArrayElem(Box::new(*a), Box::new(*i), s) == e);
        },
        SpecExpr::While(_, _, _) => {},
        SpecExpr::ArrayLit(_, _, _) => {},
        SpecExpr::InterpStr(_, _, _) => {},
        SpecExpr::ForIn(_, _, _, _) => {},
    }
}

proof fn lemma_plain_list_identity(
    sc: SpecScope,
    st: St,
    es: Seq<SpecExpr>,
    i: int,
    out: Seq<SpecExpr>,
)
    requires
        plain_list(es, i),
        0 <= i <= es.len(),
    ensures
        lower_list(sc, st, es, i, out) == (
            st,
            Ok::<Seq<SpecExpr>, SpecError>(out + es.subrange(i, es.len() as int)),
        ),
    decreases es, es.len() - i,
{
    broadcast use vstd::seq::axiom_seq_index_decreases;

    if i == es.len() {
        assert(out + es.subrange(i, i) =~= out);
    } else {
        assert(decreases_to!(es => es[i]));
        lemma_plain_identity(sc, st, es[i]);
        lemma_plain_list_identity(sc, st, es, i + 1, out.push(es[i]));
        assert(out.push(es[i]) + es.subrange(i + 1, es.len() as int) =~= out + es.subrange(
            i,
            es.len() as int,
        ));
    }
}

/// The push statement array-literal lowering enqueues for one element.
pub open spec fn push_stmt_of(local: Reference, e: SpecExpr, s: Span) -> SpecExpr {
    SpecExpr::Call(
        Callable::Intrinsic(IntrinsicOp::ArrayPush, TypeId::Void),
        Seq::empty(),
        seq![SpecExpr::Ident(local, s), e],
        s,
    )
}

/// One push per element, in source order.
pub open spec fn push_stmts_of(local: Reference, elems: Seq<SpecExpr>, s: Span) -> Seq<SpecExpr> {
    Seq::new(elems.len(), |i: int| push_stmt_of(local, elems[i], s))
}

proof fn lemma_plain_elems_order(
    sc: SpecScope,
    st: St,
    elems: Seq<SpecExpr>,
    i: int,
    local: Reference,
    s: Span,
)
    requires
        plain_list(elems, i),
        0 <= i <= elems.len(),
    ensures
        lower_elems(sc, st, elems, i, local, s) == (
            St {
                prefix: st.prefix + push_stmts_of(local, elems.subrange(i, elems.len() as int), s),
                locals: st.locals,
                pool: st.pool,
            },
            Ok::<int, SpecError>(0),
        ),
    decreases elems.len() - i,
{
    broadcast use vstd::seq::axiom_seq_index_decreases;

    if i == elems.len() {
        assert(st.prefix + push_stmts_of(local, elems.subrange(i, i), s) =~= st.prefix);
        assert(St {
            prefix: st.prefix + push_stmts_of(local, elems.subrange(i, i), s),
            locals: st.locals,
            pool: st.pool,
        } =~= st);
    } else {
        lemma_plain_identity(sc, st, elems[i]);
        let stp = St {
            prefix: st.prefix.push(push_stmt_of(local, elems[i], s)),
            locals: st.locals,
            pool: st.pool,
        };
        lemma_plain_elems_order(sc, stp, elems, i + 1, local, s);
        assert(stp.prefix + push_stmts_of(local, elems.subrange(i + 1, elems.len() as int), s)
            =~= st.prefix + push_stmts_of(local, elems.subrange(i, elems.len() as int), s));
        assert(St {
            prefix: stp.prefix + push_stmts_of(local, elems.subrange(i + 1, elems.len() as int), s),
            locals: stp.locals,
            pool: stp.pool,
        } =~= St {
            prefix: st.prefix + push_stmts_of(local, elems.subrange(i, elems.len() as int), s),
            locals: st.locals,
            pool: st.pool,
        });
    }
}

/// Evaluation-order preservation: lowering an array literal whose elements are
/// already primitive enqueues exactly one push per element, in source order,
/// after whatever was queued before, and replaces the literal by a plain
/// reference to the fresh array local. All pushes stand in the queue that the
/// statement rewriter splices in before the statement using the array, so each
/// element's effect runs once, in order, before the array's first use.
pub proof fn lemma_array_literal_order(sc: SpecScope, st: St, elems: Seq<SpecExpr>, t: TypeId, s: Span)
    requires
        plain_list(elems, 0),
        spec_fresh_local(st, cur_fun(sc), TypeId::Array(Box::new(t))).1 is Ok,
    ensures
        ({
            let (st1, rl) = spec_fresh_local(st, cur_fun(sc), TypeId::Array(Box::new(t)));
            let local = rl->Ok_0;
            lower_array_lit(sc, st, elems, t, s) == (
                St {
                    prefix: st.prefix + push_stmts_of(local, elems, s),
                    locals: st1.locals,
                    pool: st1.pool,
                },
                Ok::<SpecExpr, SpecError>(SpecExpr::Ident(local, s)),
            )
        }),
{
    let (st1, rl) = spec_fresh_local(st, cur_fun(sc), TypeId::Array(Box::new(t)));
    let local = rl->Ok_0;
    lemma_plain_elems_order(sc, st1, elems, 0, local, s);
    assert(elems.subrange(0, elems.len() as int) =~= elems);
    assert(st1.prefix == st.prefix);
    assert(St {
        prefix: st1.prefix + push_stmts_of(local, elems, s),
        locals: st1.locals,
        pool: st1.pool,
    } =~= St {
        prefix: st.prefix + push_stmts_of(local, elems, s),
        locals: st1.locals,
        pool: st1.pool,
    });
}

// ---------------------------------------------------------------------------
// No sugar node survives lowering.
// ---------------------------------------------------------------------------

/// An expression the code emitter understands: none of the three sugar kinds
/// remains anywhere in it.
pub open spec fn no_sugar(e: SpecExpr) -> bool
    decreases e, 0int,
    via no_sugar_decreases
{
    match e {
        SpecExpr::Constant(_, _) => true,
        SpecExpr::Ident(_, _) => true,
        SpecExpr::Call(_, _, args, _) => no_sugar_list(args, 0),
        SpecExpr::Assign(l, r, _) => no_sugar(*l) && no_sugar(*r),
        SpecExpr::ArrayElem(a, i, _) => no_sugar(*a) && no_sugar(*i),
        SpecExpr::While(c, body, _) => no_sugar(*c) && no_sugar_list(body, 0),
        SpecExpr::ArrayLit(_, _, _) => false,
        SpecExpr::InterpStr(_, _, _) => false,
        SpecExpr::ForIn(_, _, _, _) => false,
    }
}

/// All expressions of `es` from position `i` on are free of sugar.
pub open spec fn no_sugar_list(es: Seq<SpecExpr>, i: int) -> bool
    decreases es, es.len() - i,
    via no_sugar_list_decreases
{
    if i < 0 || i >= es.len() {
        true
    } else {
        no_sugar(es[i]) && no_sugar_list(es, i + 1)
    }
}

#[via_fn]
proof fn no_sugar_decreases(e: SpecExpr) {
    match e {
        SpecExpr::Call(c, ts, args, s) => {
            assert(decreases_to!(e => args));
        },
        SpecExpr::While(c, body, s) => {
            assert(decreases_to!(e => body));
        },
        _ => {},
    }
}

#[via_fn]
proof fn no_sugar_list_decreases(es: Seq<SpecExpr>, i: int) {
    broadcast use vstd::seq::axiom_seq_index_decreases;

    if 0 <= i < es.len() {
        assert(decreases_to!(es => es[i]));
    }
}

/// The recursive sugar-freedom of a list is the pointwise one.
pub proof fn lemma_no_sugar_list_iff(es: Seq<SpecExpr>, i: int)
    requires
        0 <= i <= es.len(),
    ensures
        no_sugar_list(es, i) <==> (forall|j: int| i <= j < es.len() ==> no_sugar(#[trigger] es[j])),
    decreases es.len() - i,
{
    if i < es.len() {
        lemma_no_sugar_list_iff(es, i + 1);
    }
}

proof fn ns_lower_list(sc: SpecScope, st: St, es: Seq<SpecExpr>, i: int, out: Seq<SpecExpr>)
    ensures
        ({
            let (st2, r) = lower_list(sc, st, es, i, out);
            no_sugar_list(st.prefix, 0) && no_sugar_list(out, 0) ==> {
                &&& no_sugar_list(st2.prefix, 0)
                &&& (r matches Ok(out2) ==> no_sugar_list(out2, 0))
            }
        }),
    decreases es, es.len() - i,
{
    broadcast use vstd::seq::axiom_seq_index_decreases;

    if 0 <= i < es.len() {
        assert(decreases_to!(es => es[i]));
        ns_lower_expr(sc, st, es[i]);
        let (st1, r) = lower_expr(sc, st, es[i]);
        match r {
            Err(_) => {},
            Ok(e2) => {
                if no_sugar_list(st.prefix, 0) && no_sugar_list(out, 0) {
                    lemma_no_sugar_list_iff(out, 0);
                    lemma_no_sugar_list_iff(out.push(e2), 0);
                }
                ns_lower_list(sc, st1, es, i + 1, out.push(e2));
            },
        }
    }
}

proof fn ns_lower_stmts(sc: SpecScope, st: St, es: Seq<SpecExpr>, i: int, out: Seq<SpecExpr>)
    ensures
        ({
            let (st2, r) = lower_stmts(sc, st, es, i, out);
            no_sugar_list(st.prefix, 0) && no_sugar_list(out, 0) ==> {
                &&& no_sugar_list(st2.prefix, 0)
                &&& (r matches Ok(out2) ==> no_sugar_list(out2, 0))
            }
        }),
    decreases es, es.len() - i,
{
    broadcast use vstd::seq::axiom_seq_index_decreases;

    if 0 <= i < es.len() {
        assert(decreases_to!(es => es[i]));
        ns_lower_expr(sc, st, es[i]);
        let (st1, r) = lower_expr(sc, st, es[i]);
        match r {
            Err(_) => {},
            Ok(e2) => {
                let stc = St { prefix: Seq::empty(), locals: st1.locals, pool: st1.pool };
                let out2 = out + st1.prefix + seq![e2];
                if no_sugar_list(st.prefix, 0) && no_sugar_list(out, 0) {
                    lemma_no_sugar_list_iff(out, 0);
                    lemma_no_sugar_list_iff(st1.prefix, 0);
                    lemma_no_sugar_list_iff(out2, 0);
                    assert(no_sugar_list(stc.prefix, 0));
                }
                ns_lower_stmts(sc, stc, es, i + 1, out2);
            },
        }
    }
}

proof fn ns_lower_elems(sc: SpecScope, st: St, es: Seq<SpecExpr>, i: int, local: Reference, s: Span)
    ensures
        ({
            let (st2, r) = lower_elems(sc, st, es, i, local, s);
            no_sugar_list(st.prefix, 0) ==> no_sugar_list(st2.prefix, 0)
        }),
    decreases es, es.len() - i,
{
    broadcast use vstd::seq::axiom_seq_index_decreases;

    if 0 <= i < es.len() {
        assert(decreases_to!(es => es[i]));
        ns_lower_expr(sc, st, es[i]);
        let (st1, r) = lower_expr(sc, st, es[i]);
        match r {
            Err(_) => {},
            Ok(e2) => {
                let push_call = SpecExpr::Call(
                    Callable::Intrinsic(IntrinsicOp::ArrayPush, TypeId::Void),
                    Seq::empty(),
                    seq![SpecExpr::Ident(local, s), e2],
                    s,
                );
                let stp = St {
                    prefix: st1.prefix.push(push_call),
                    locals: st1.locals,
                    pool: st1.pool,
                };
                if no_sugar_list(st.prefix, 0) {
                    lemma_no_sugar_list_iff(seq![SpecExpr::Ident(local, s), e2], 0);
                    assert(no_sugar(push_call));
                    lemma_no_sugar_list_iff(st1.prefix, 0);
                    lemma_no_sugar_list_iff(stp.prefix, 0);
                }
                ns_lower_elems(sc, stp, es, i + 1, local, s);
            },
        }
    }
}

proof fn ns_lower_parts(
    sc: SpecScope,
    st: St,
    parts: Seq<SpecPart>,
    i: int,
    acc: SpecExpr,
    add_str: Callable,
    str_type: TypeId,
    s: Span,
)
    ensures
        ({
            let (st2, r) = lower_parts(sc, st, parts, i, acc, add_str, str_type, s);
            no_sugar_list(st.prefix, 0) && no_sugar(acc) ==> {
                &&& no_sugar_list(st2.prefix, 0)
                &&& (r matches Ok(e2) ==> no_sugar(e2))
            }
        }),
    decreases parts, parts.len() - i,
{
    broadcast use vstd::seq::axiom_seq_index_decreases;

    if 0 <= i < parts.len() {
        assert(decreases_to!(parts => parts[i]));
        assert(decreases_to!(parts[i] => parts[i].expr));
        ns_lower_expr(sc, st, parts[i].expr);
        let (st1, r) = lower_expr(sc, st, parts[i].expr);
        match r {
            Err(_) => {},
            Ok(p2) => match spec_type_of(sc, st1.pool, p2) {
                Err(_) => {},
                Ok(t) => {
                    if t != TypeId::Void {
                        let classified = classify_part(p2, t, str_type, s);
                        let combined = if parts[i].tail@.len() == 0 {
                            classified
                        } else {
                            as_ref_wrap(
                                SpecExpr::Call(
                                    add_str,
                                    Seq::empty(),
                                    seq![
                                        classified,
                                        as_ref_wrap(
                                            SpecExpr::Constant(Constant::Str(parts[i].tail), s),
                                            str_type,
                                            s,
                                        ),
                                    ],
                                    s,
                                ),
                                str_type,
                                s,
                            )
                        };
                        let acc2 = SpecExpr::Call(
                            add_str,
                            Seq::empty(),
                            seq![as_ref_wrap(acc, str_type, s), combined],
                            s,
                        );
                        if no_sugar_list(st.prefix, 0) && no_sugar(acc) && no_sugar(p2) {
                            ns_classify(p2, t, str_type, s);
                            ns_wrap(acc, str_type, s);
                            if parts[i].tail@.len() != 0 {
                                ns_wrap(
                                    SpecExpr::Constant(Constant::Str(parts[i].tail), s),
                                    str_type,
                                    s,
                                );
                                lemma_no_sugar_list_iff(
                                    seq![
                                        classified,
                                        as_ref_wrap(
                                            SpecExpr::Constant(Constant::Str(parts[i].tail), s),
                                            str_type,
                                            s,
                                        ),
                                    ],
                                    0,
                                );
                                ns_wrap(
                                    SpecExpr::Call(
                                        add_str,
                                        Seq::empty(),
                                        seq![
                                            classified,
                                            as_ref_wrap(
                                                SpecExpr::Constant(Constant::Str(parts[i].tail), s),
                                                str_type,
                                                s,
                                            ),
                                        ],
                                        s,
                                    ),
                                    str_type,
                                    s,
                                );
                            }
                            lemma_no_sugar_list_iff(
                                seq![as_ref_wrap(acc, str_type, s), combined],
                                0,
                            );
                            assert(no_sugar(acc2));
                        }
                        ns_lower_parts(sc, st1, parts, i + 1, acc2, add_str, str_type, s);
                    }
                },
            },
        }
    }
}

/// The take-reference wrapper preserves sugar-freedom.
proof fn ns_wrap(e: SpecExpr, str_type: TypeId, s: Span)
    ensures
        no_sugar(e) ==> no_sugar(as_ref_wrap(e, str_type, s)),
{
    if no_sugar(e) {
        lemma_no_sugar_list_iff(seq![e], 0);
    }
}

/// The type-directed classification preserves sugar-freedom.
proof fn ns_classify(p: SpecExpr, t: TypeId, str_type: TypeId, s: Span)
    ensures
        no_sugar(p) ==> no_sugar(classify_part(p, t, str_type, s)),
{
    if no_sugar(p) {
        ns_wrap(p, str_type, s);
        lemma_no_sugar_list_iff(seq![p], 0);
        ns_wrap(
            SpecExpr::Call(
                Callable::Intrinsic(IntrinsicOp::ToString, str_type),
                Seq::empty(),
                seq![p],
                s,
            ),
            str_type,
            s,
        );
    }
}

proof fn ns_lower_for_in_tail(
    sc: SpecScope,
    st: St,
    name: usize,
    a2: SpecExpr,
    arr_t: TypeId,
    b2: Seq<SpecExpr>,
    s: Span,
)
    ensures
        ({
            let (st2, r) = lower_for_in_tail(sc, st, name, a2, arr_t, b2, s);
            no_sugar_list(st.prefix, 0) && no_sugar(a2) && no_sugar_list(b2, 0) ==> {
                &&& no_sugar_list(st2.prefix, 0)
                &&& (r matches Ok(e2) ==> no_sugar(e2))
            }
        }),
{
    let (st3, rloc) = spec_fresh_local(st, cur_fun(sc), arr_t);
    match rloc {
        Err(_) => {},
        Ok(arr_local) => match spec_resolve_type(sc, TypeName::Int32) {
            Err(_) => {},
            Ok(counter_t) => {
                let (st4, rc) = spec_fresh_local(st3, cur_fun(sc), counter_t);
                match rc {
                    Err(_) => {},
                    Ok(counter_local) => {
                        if no_sugar_list(st.prefix, 0) && no_sugar(a2) && no_sugar_list(b2, 0) {
                            let assign_arr = SpecExpr::Assign(
                                Box::new(SpecExpr::Ident(arr_local, s)),
                                Box::new(a2),
                                s,
                            );
                            let assign_zero = SpecExpr::Assign(
                                Box::new(SpecExpr::Ident(counter_local, s)),
                                Box::new(SpecExpr::Constant(Constant::I32(0), s)),
                                s,
                            );
                            assert(no_sugar(SpecExpr::Ident(arr_local, s)));
                            assert(no_sugar(assign_arr));
                            assert(no_sugar(SpecExpr::Ident(counter_local, s)));
                            assert(no_sugar(SpecExpr::Constant(Constant::I32(0), s)));
                            assert(no_sugar(assign_zero));
                            assert(st4.prefix == st.prefix);
                            lemma_no_sugar_list_iff(st4.prefix, 0);
                            lemma_no_sugar_list_iff(
                                st4.prefix.push(assign_arr).push(assign_zero),
                                0,
                            );
                            let w = forin_while(name, arr_local, counter_local, counter_t,
                                spec_get_function(sc, assign_add_sig())->Ok_0,
                                spec_get_function(sc, less_than_sig())->Ok_0, b2, s);
                            ns_forin_while(name, arr_local, counter_local, counter_t,
                                spec_get_function(sc, assign_add_sig())->Ok_0,
                                spec_get_function(sc, less_than_sig())->Ok_0, b2, s);
                        }
                    },
                }
            },
        },
    }
}

/// The while-loop a for-in lowers to is sugar-free whenever the lowered body
/// is.
proof fn ns_forin_while(
    name: usize,
    arr_local: Reference,
    counter_local: Reference,
    counter_t: TypeId,
    assign_add: Callable,
    less_than: Callable,
    body: Seq<SpecExpr>,
    s: Span,
)
    ensures
        no_sugar_list(body, 0) ==> no_sugar(
            forin_while(name, arr_local, counter_local, counter_t, assign_add, less_than, body, s),
        ),
{
    if no_sugar_list(body, 0) {
        let size_call = SpecExpr::Call(
            Callable::Intrinsic(IntrinsicOp::ArraySize, counter_t),
            Seq::empty(),
            seq![SpecExpr::Ident(arr_local, s)],
            s,
        );
        lemma_no_sugar_list_iff(seq![SpecExpr::Ident(arr_local, s)], 0);
        let condition = SpecExpr::Call(
            less_than,
            Seq::empty(),
            seq![SpecExpr::Ident(counter_local, s), size_call],
            s,
        );
        lemma_no_sugar_list_iff(seq![SpecExpr::Ident(counter_local, s), size_call], 0);
        assert(no_sugar(condition));
        let assign_iter = SpecExpr::Assign(
            Box::new(SpecExpr::Ident(Reference::Value(Value::Local(name)), s)),
            Box::new(
                SpecExpr::ArrayElem(
                    Box::new(SpecExpr::Ident(arr_local, s)),
                    Box::new(SpecExpr::Ident(counter_local, s)),
                    s,
                ),
            ),
            s,
        );
        let incr = SpecExpr::Call(
            assign_add,
            Seq::empty(),
            seq![SpecExpr::Ident(counter_local, s), SpecExpr::Constant(Constant::I32(1), s)],
            s,
        );
        lemma_no_sugar_list_iff(
            seq![SpecExpr::Ident(counter_local, s), SpecExpr::Constant(Constant::I32(1), s)],
            0,
        );
        assert(no_sugar(incr));
        assert(no_sugar(SpecExpr::Ident(arr_local, s)));
        assert(no_sugar(SpecExpr::Ident(counter_local, s)));
        assert(no_sugar(
            SpecExpr::ArrayElem(
                Box::new(SpecExpr::Ident(arr_local, s)),
                Box::new(SpecExpr::Ident(counter_local, s)),
                s,
            ),
        ));
        assert(no_sugar(SpecExpr::Ident(Reference::Value(Value::Local(name)), s)));
        assert(no_sugar(assign_iter));
        let wbody = seq![assign_iter] + body + seq![incr];
        lemma_no_sugar_list_iff(body, 0);
        lemma_no_sugar_list_iff(wbody, 0);
        assert forall|j: int| 0 <= j < wbody.len() implies no_sugar(#[trigger] wbody[j]) by {
            if j == 0 {
                assert(wbody[j] == assign_iter);
            } else if j < 1 + body.len() {
                assert(wbody[j] == body[j - 1]);
            } else {
                assert(wbody[j] == incr);
            }
        }
        assert(forin_while(name, arr_local, counter_local, counter_t, assign_add, less_than, body,
            s) == SpecExpr::While(Box::new(condition), wbody, s));
    }
}

proof fn ns_lower_expr(sc: SpecScope, st: St, e: SpecExpr)
    ensures
        ({
            let (st2, r) = lower_expr(sc, st, e);
            no_sugar_list(st.prefix, 0) ==> {
                &&& no_sugar_list(st2.prefix, 0)
                &&& (r matches Ok(e2) ==> no_sugar(e2))
            }
        }),
    decreases e, 0int,
{
    match e {
        SpecExpr::Constant(_, _) => {},
        SpecExpr::Ident(_, _) => {},
        SpecExpr::Call(c, ts, args, s) => {
            assert(decreases_to!(e => args));
            ns_lower_list(sc, st, args, 0, Seq::empty());
        },
        SpecExpr::Assign(l, r, s) => {
            ns_lower_expr(sc, st, *l);
            let (st1, rl) = lower_expr(sc, st, *l);
            match rl {
                Err(_) => {},
                Ok(_) => {
                    ns_lower_expr(sc, st1, *r);
                },
            }
        },
        SpecExpr::ArrayElem(a, i, s) => {
            ns_lower_expr(sc, st, *a);
            let (st1, ra) = lower_expr(sc, st, *a);
            match ra {
                Err(_) => {},
                Ok(_) => {
                    ns_lower_expr(sc, st1, *i);
                },
            }
        },
        SpecExpr::While(c, body, s) => {
            ns_lower_expr(sc, st, *c);
            let (st1, rc) = lower_expr(sc, st, *c);
            match rc {
                Err(_) => {},
                Ok(_) => {
                    assert(decreases_to!(e => body));
                    ns_lower_stmts(sc, st1, body, 0, Seq::empty());
                },
            }
        },
        SpecExpr::ArrayLit(elems, t, s) => {
            assert(lower_expr(sc, st, e) == lower_array_lit(sc, st, elems, t, s));
            let (st1, rl) = spec_fresh_local(st, cur_fun(sc), TypeId::Array(Box::new(t)));
            match rl {
                Err(_) => {},
                Ok(local) => {
                    assert(decreases_to!(e => elems));
                    ns_lower_elems(sc, st1, elems, 0, local, s);
                },
            }
        },
        SpecExpr::InterpStr(prefix, parts, s) => {
            assert(lower_expr(sc, st, e) == lower_interp(sc, st, prefix, parts, s));
            match spec_resolve_type(sc, TypeName::Str) {
                Err(_) => {},
                Ok(str_type) => match spec_get_function(sc, crate::lower::concat_sig()) {
                    Err(_) => {},
                    Ok(add_str) => {
                        assert(decreases_to!(e => parts));
                        ns_lower_parts(
                            sc,
                            st,
                            parts,
                            0,
                            SpecExpr::Constant(Constant::Str(prefix), s),
                            add_str,
                            str_type,
                            s,
                        );
                    },
                },
            }
        },
        SpecExpr::ForIn(name, array, body, s) => {
            assert(decreases_to!(e => body));
            ns_lower_stmts(sc, st, body, 0, Seq::empty());
            let (st1, rb) = lower_stmts(sc, st, body, 0, Seq::empty());
            match rb {
                Err(_) => {},
                Ok(b2) => {
                    ns_lower_expr(sc, st1, *array);
                    let (st2, ra) = lower_expr(sc, st1, *array);
                    match ra {
                        Err(_) => {},
                        Ok(a2) => match spec_type_of(sc, st2.pool, a2) {
                            Err(_) => {},
                            Ok(arr_t) => {
                                ns_lower_for_in_tail(sc, st2, name, a2, arr_t, b2, s);
                            },
                        },
                    }
                },
            }
        },
    }
}

/// No sugar node survives lowering: a successfully lowered statement sequence,
/// produced from a state with a sugar-free prefix queue — a fresh rewriter's
/// queue is empty — consists only of node kinds the code emitter understands.
pub proof fn lemma_no_sugar_remains(sc: SpecScope, st: St, stmts: Seq<SpecExpr>)
    requires
        no_sugar_list(st.prefix, 0),
    ensures
        ({
            let (st2, r) = spec_lower_seq(sc, st, stmts);
            r matches Ok(out) ==> no_sugar_list(out, 0)
        }),
{
    ns_lower_stmts(sc, st, stmts, 0, Seq::empty());
}

} // verus!
