use desugar::ast::{Callable, Constant, Expr, IntrinsicOp, Reference, Span, StmtSeq, StrPart,
    TypeId, Value};
use desugar::lower::{type_of, Desugar};
use desugar::pool::{ConstantPool, Definition, PoolName};
use desugar::scope::{Cause, FnName, FunctionEntry, FunctionSignature, ParamSig, Scope, TypeAlias,
    TypeName};

fn sp() -> Span {
    Span { low: 3, high: 9 }
}

fn local(h: usize) -> Reference {
    Reference::Value(Value::Local(h))
}

fn ident(h: usize) -> Expr {
    Expr::Ident(local(h), sp())
}

fn param_sig(typ: TypeName, by_ref: bool) -> ParamSig {
    ParamSig { typ, by_ref }
}

fn concat_entry(index: usize) -> FunctionEntry {
    FunctionEntry {
        sig: FunctionSignature::binary(
            FnName::OpAdd,
            param_sig(TypeName::RefStr, false),
            param_sig(TypeName::RefStr, false),
            TypeName::Str,
        ),
        index,
        ret_type: TypeId::Str,
    }
}

fn assign_add_entry(index: usize) -> FunctionEntry {
    FunctionEntry {
        sig: FunctionSignature::binary(
            FnName::OpAssignAdd,
            param_sig(TypeName::Int32, true),
            param_sig(TypeName::Int32, false),
            TypeName::Int32,
        ),
        index,
        ret_type: TypeId::I32,
    }
}

fn less_than_entry(index: usize) -> FunctionEntry {
    FunctionEntry {
        sig: FunctionSignature::binary(
            FnName::OpLess,
            param_sig(TypeName::Int32, false),
            param_sig(TypeName::Int32, false),
            TypeName::Bool,
        ),
        index,
        ret_type: TypeId::Bool,
    }
}

/// A scope bound to function 0 with the usual aliases and operators.
fn full_scope() -> Scope {
    Scope {
        functions: vec![concat_entry(7), assign_add_entry(20), less_than_entry(21)],
        types: vec![
            TypeAlias { name: TypeName::Str, typ: TypeId::Str },
            TypeAlias { name: TypeName::Int32, typ: TypeId::I32 },
        ],
        function: Some(0),
    }
}

/// A pool holding one integer local `n` (handle 0) and the storage types the
/// tests allocate fresh locals of.
fn base_pool() -> ConstantPool {
    ConstantPool {
        names: vec![PoolName::User(String::from("n"))],
        types: vec![
            TypeId::I32,
            TypeId::Array(Box::new(TypeId::I32)),
            TypeId::Str,
            TypeId::Void,
            TypeId::ScriptRef(Box::new(TypeId::Str)),
        ],
        definitions: vec![Definition { name: 0, parent: 0, type_idx: 0 }],
    }
}

fn as_ref(e: Expr) -> Expr {
    Expr::Call(
        Callable::Intrinsic(IntrinsicOp::AsRef, TypeId::ScriptRef(Box::new(TypeId::Str))),
        Vec::new(),
        vec![e],
        sp(),
    )
}

fn to_string_call(e: Expr) -> Expr {
    Expr::Call(
        Callable::Intrinsic(IntrinsicOp::ToString, TypeId::Str),
        Vec::new(),
        vec![e],
        sp(),
    )
}

fn push_call(arr: usize, e: Expr) -> Expr {
    Expr::Call(
        Callable::Intrinsic(IntrinsicOp::ArrayPush, TypeId::Void),
        Vec::new(),
        vec![ident(arr), e],
        sp(),
    )
}

fn str_const(s: &str) -> Expr {
    Expr::Constant(Constant::Str(String::from(s)), sp())
}

fn i32_const(n: i32) -> Expr {
    Expr::Constant(Constant::I32(n), sp())
}

#[test]
fn array_literal_round_trip_order() {
    // `arr = [f(), g()]` becomes: push f(); push g(); arr = temp — in that order.
    let scope = full_scope();
    let mut pool = base_pool();
    // arr: a user local of array type, handle 1.
    pool.definitions.push(Definition { name: 0, parent: 0, type_idx: 1 });
    let f_call = || Expr::Call(Callable::Function(40), Vec::new(), Vec::new(), sp());
    let g_call = || Expr::Call(Callable::Function(41), Vec::new(), Vec::new(), sp());
    let stmt = Expr::Assign(
        Box::new(ident(1)),
        Box::new(Expr::ArrayLit(vec![f_call(), g_call()], TypeId::I32, sp())),
        sp(),
    );
    let mut d = Desugar::new();
    let out = d.on_seq(&scope, &mut pool, StmtSeq { exprs: vec![stmt] }).unwrap();
    // The fresh array local got the next definition handle, 2.
    let expected = vec![
        push_call(2, f_call()),
        push_call(2, g_call()),
        Expr::Assign(Box::new(ident(1)), Box::new(ident(2)), sp()),
    ];
    assert_eq!(out.exprs, expected);
    assert_eq!(d.locals(), vec![2]);
}

#[test]
fn interpolation_integer_part_uses_to_string() {
    // `"x = ${n}"` with n of integer type lowers to
    // concat(ref("x = "), ref(to_string(n))), not concat("x = ", n).
    let scope = full_scope();
    let mut pool = base_pool();
    let interp = Expr::InterpStr(
        String::from("x = "),
        vec![StrPart { expr: ident(0), tail: String::new() }],
        sp(),
    );
    let mut d = Desugar::new();
    let out = d.on_expr(&scope, &mut pool, interp).unwrap();
    let expected = Expr::Call(
        Callable::Function(7),
        Vec::new(),
        vec![as_ref(str_const("x = ")), as_ref(to_string_call(ident(0)))],
        sp(),
    );
    assert_eq!(out, expected);
    // No prefix statements and no fresh locals: interpolation is pure expression rewriting.
    assert!(d.prefix_exprs.is_empty());
    assert_eq!(d.locals(), Vec::<usize>::new());
}

#[test]
fn interpolation_plain_string_part_not_converted() {
    // A part that is already a string is wrapped in take-reference only:
    // no to-string call appears.
    let scope = full_scope();
    let mut pool = base_pool();
    // A local of plain string type, handle 1.
    pool.definitions.push(Definition { name: 0, parent: 0, type_idx: 2 });
    let interp = Expr::InterpStr(
        String::from("v:"),
        vec![StrPart { expr: ident(1), tail: String::new() }],
        sp(),
    );
    let mut d = Desugar::new();
    let out = d.on_expr(&scope, &mut pool, interp).unwrap();
    let expected = Expr::Call(
        Callable::Function(7),
        Vec::new(),
        vec![as_ref(str_const("v:")), as_ref(ident(1))],
        sp(),
    );
    assert_eq!(out, expected);
}

#[test]
fn interpolation_ref_string_part_not_rewrapped() {
    // A part that is already a reference to string is used as is.
    let scope = full_scope();
    let mut pool = base_pool();
    // A local of reference-to-string type, handle 1.
    pool.definitions.push(Definition { name: 0, parent: 0, type_idx: 4 });
    let interp = Expr::InterpStr(
        String::from("v:"),
        vec![StrPart { expr: ident(1), tail: String::new() }],
        sp(),
    );
    let mut d = Desugar::new();
    let out = d.on_expr(&scope, &mut pool, interp).unwrap();
    let expected = Expr::Call(
        Callable::Function(7),
        Vec::new(),
        vec![as_ref(str_const("v:")), ident(1)],
        sp(),
    );
    assert_eq!(out, expected);
}

#[test]
fn interpolation_nonempty_tail_concatenated() {
    // `"a${n}b"`: the tail fragment is concatenated onto the classified part.
    let scope = full_scope();
    let mut pool = base_pool();
    let interp = Expr::InterpStr(
        String::from("a"),
        vec![StrPart { expr: ident(0), tail: String::from("b") }],
        sp(),
    );
    let mut d = Desugar::new();
    let out = d.on_expr(&scope, &mut pool, interp).unwrap();
    let combined = as_ref(Expr::Call(
        Callable::Function(7),
        Vec::new(),
        vec![as_ref(to_string_call(ident(0))), as_ref(str_const("b"))],
        sp(),
    ));
    let expected = Expr::Call(
        Callable::Function(7),
        Vec::new(),
        vec![as_ref(str_const("a")), combined],
        sp(),
    );
    assert_eq!(out, expected);
}

#[test]
fn interpolation_void_part_is_unsupported() {
    // A void-typed part fails with the unsupported condition, it never
    // silently becomes an empty fragment.
    let scope = full_scope();
    let mut pool = base_pool();
    // A local of void type, handle 1.
    pool.definitions.push(Definition { name: 0, parent: 0, type_idx: 3 });
    let interp = Expr::InterpStr(
        String::from("x"),
        vec![StrPart { expr: ident(1), tail: String::new() }],
        sp(),
    );
    let mut d = Desugar::new();
    let err = d.on_expr(&scope, &mut pool, interp).unwrap_err();
    assert_eq!(err.cause, Cause::UnsupportedVoid);
    assert_eq!(err.span, sp());
}

#[test]
fn interpolation_missing_concat_is_function_not_found() {
    // Overloads of the operator exist but none matches the exact signature.
    let mut scope = full_scope();
    scope.functions[0] = FunctionEntry {
        sig: FunctionSignature::binary(
            FnName::OpAdd,
            param_sig(TypeName::Int32, false),
            param_sig(TypeName::Int32, false),
            TypeName::Int32,
        ),
        index: 7,
        ret_type: TypeId::I32,
    };
    let mut pool = base_pool();
    let interp = Expr::InterpStr(
        String::from("x"),
        vec![StrPart { expr: ident(0), tail: String::new() }],
        sp(),
    );
    let mut d = Desugar::new();
    let err = d.on_expr(&scope, &mut pool, interp).unwrap_err();
    match err.cause {
        Cause::FunctionNotFound(sig) => assert_eq!(sig.name, FnName::OpAdd),
        other => panic!("unexpected cause: {:?}", other),
    }
}

#[test]
fn interpolation_no_add_operator_is_unresolved() {
    // No function under the operator's name at all.
    let mut scope = full_scope();
    scope.functions.remove(0);
    let mut pool = base_pool();
    let interp = Expr::InterpStr(
        String::from("x"),
        vec![StrPart { expr: ident(0), tail: String::new() }],
        sp(),
    );
    let mut d = Desugar::new();
    let err = d.on_expr(&scope, &mut pool, interp).unwrap_err();
    assert_eq!(err.cause, Cause::UnresolvedFunction(FnName::OpAdd));
}

#[test]
fn for_in_lowers_to_while_with_live_length() {
    // `for v in xs { use(v) }` becomes a while-loop: the array and a zero
    // counter are assigned up front; the condition re-reads the array size on
    // every iteration; the body assigns v before the user statement and
    // increments the counter after it.
    let scope = full_scope();
    let mut pool = base_pool();
    // xs: a user local of array type, handle 1.
    pool.definitions.push(Definition { name: 0, parent: 0, type_idx: 1 });
    let use_v = || Expr::Call(Callable::Function(30), Vec::new(), vec![ident(0)], sp());
    let for_in = Expr::ForIn(0, Box::new(ident(1)), StmtSeq { exprs: vec![use_v()] }, sp());
    let mut d = Desugar::new();
    let out = d.on_expr(&scope, &mut pool, for_in).unwrap();
    // Fresh locals: the array temp (handle 2) and the counter (handle 3).
    assert_eq!(
        d.prefix_exprs,
        vec![
            Expr::Assign(Box::new(ident(2)), Box::new(ident(1)), sp()),
            Expr::Assign(Box::new(ident(3)), Box::new(i32_const(0)), sp()),
        ],
    );
    let condition = Expr::Call(
        Callable::Function(21),
        Vec::new(),
        vec![
            ident(3),
            Expr::Call(
                Callable::Intrinsic(IntrinsicOp::ArraySize, TypeId::I32),
                Vec::new(),
                vec![ident(2)],
                sp(),
            ),
        ],
        sp(),
    );
    let body = vec![
        Expr::Assign(
            Box::new(ident(0)),
            Box::new(Expr::ArrayElem(Box::new(ident(2)), Box::new(ident(3)), sp())),
            sp(),
        ),
        use_v(),
        Expr::Call(Callable::Function(20), Vec::new(), vec![ident(3), i32_const(1)], sp()),
    ];
    let expected = Expr::While(Box::new(condition), StmtSeq { exprs: body }, sp());
    assert_eq!(out, expected);
    assert_eq!(d.locals(), vec![2, 3]);
}

#[test]
fn for_in_missing_counter_type_is_unresolved() {
    let mut scope = full_scope();
    scope.types.remove(1);
    let mut pool = base_pool();
    pool.definitions.push(Definition { name: 0, parent: 0, type_idx: 1 });
    let for_in = Expr::ForIn(0, Box::new(ident(1)), StmtSeq { exprs: Vec::new() }, sp());
    let mut d = Desugar::new();
    let err = d.on_expr(&scope, &mut pool, for_in).unwrap_err();
    assert_eq!(err.cause, Cause::UnresolvedType(TypeName::Int32));
    assert_eq!(err.span, sp());
}

#[test]
fn array_literal_of_unknown_storage_type_fails() {
    // The pool cannot resolve Array(Str) to a storage type.
    let scope = full_scope();
    let mut pool = base_pool();
    let lit = Expr::ArrayLit(Vec::new(), TypeId::Str, sp());
    let mut d = Desugar::new();
    let err = d.on_expr(&scope, &mut pool, lit).unwrap_err();
    assert_eq!(err.cause, Cause::PoolType(TypeId::Array(Box::new(TypeId::Str))));
}

#[test]
fn fresh_locals_never_reuse_names() {
    // Two sugar forms in one statement sequence: every synthetic local gets a
    // distinct structural identity, counted per rewriter instance.
    let scope = full_scope();
    let mut pool = base_pool();
    pool.definitions.push(Definition { name: 0, parent: 0, type_idx: 1 });
    let stmt1 = Expr::Assign(
        Box::new(ident(1)),
        Box::new(Expr::ArrayLit(vec![i32_const(4)], TypeId::I32, sp())),
        sp(),
    );
    let stmt2 = Expr::ForIn(0, Box::new(ident(1)), StmtSeq { exprs: Vec::new() }, sp());
    let mut d = Desugar::new();
    d.on_seq(&scope, &mut pool, StmtSeq { exprs: vec![stmt1, stmt2] }).unwrap();
    let locals = d.locals();
    assert_eq!(locals, vec![2, 3, 4]);
    let mut names = Vec::new();
    for h in locals {
        let def = pool.definitions[h];
        names.push(&pool.names[def.name]);
    }
    assert_eq!(
        names,
        vec![&PoolName::Synthetic(0), &PoolName::Synthetic(1), &PoolName::Synthetic(2)],
    );
}

#[test]
fn type_of_reads_annotations() {
    let scope = full_scope();
    let pool = base_pool();
    assert_eq!(type_of(&ident(0), &scope, &pool).unwrap(), TypeId::I32);
    assert_eq!(type_of(&str_const("s"), &scope, &pool).unwrap(), TypeId::Str);
    assert_eq!(
        type_of(&Expr::ArrayLit(Vec::new(), TypeId::I32, sp()), &scope, &pool).unwrap(),
        TypeId::Array(Box::new(TypeId::I32)),
    );
    let elem = Expr::ArrayElem(
        Box::new(Expr::ArrayLit(Vec::new(), TypeId::I32, sp())),
        Box::new(i32_const(0)),
        sp(),
    );
    assert_eq!(type_of(&elem, &scope, &pool).unwrap(), TypeId::I32);
    let unknown = type_of(&ident(9), &scope, &pool).unwrap_err();
    assert_eq!(unknown.cause, Cause::UnresolvedDefinition(9));
}

#[test]
fn non_sugar_nodes_keep_structure() {
    let scope = full_scope();
    let mut pool = base_pool();
    let stmt = || Expr::Assign(Box::new(ident(0)), Box::new(i32_const(5)), sp());
    let mut d = Desugar::new();
    let out = d.on_seq(&scope, &mut pool, StmtSeq { exprs: vec![stmt()] }).unwrap();
    assert_eq!(out.exprs, vec![stmt()]);
    assert_eq!(d.locals(), Vec::<usize>::new());
}

#[test]
fn nested_array_literal_pushes_inner_first() {
    // `[[7]]`: the inner literal's push is enqueued while the inner element is
    // lowered, so it precedes the outer push that uses the inner temp.
    let scope = full_scope();
    let mut pool = base_pool();
    // The outer literal needs Array(Array(I32)) as a storage type.
    pool.types.push(TypeId::Array(Box::new(TypeId::Array(Box::new(TypeId::I32)))));
    let inner = Expr::ArrayLit(vec![i32_const(7)], TypeId::I32, sp());
    let outer = Expr::ArrayLit(vec![inner], TypeId::Array(Box::new(TypeId::I32)), sp());
    let mut d = Desugar::new();
    let out = d.on_expr(&scope, &mut pool, outer).unwrap();
    // Outer temp: handle 1; inner temp: handle 2 (the outer local is allocated first).
    assert_eq!(out, ident(1));
    assert_eq!(
        d.prefix_exprs,
        vec![push_call(2, i32_const(7)), push_call(1, ident(2))],
    );
    assert_eq!(d.locals(), vec![1, 2]);
}

#[test]
fn while_body_statements_flush_their_own_prefixes() {
    // A statement inside a while-loop body gets its prefix statements spliced
    // in before it, inside the body.
    let scope = full_scope();
    let mut pool = base_pool();
    pool.definitions.push(Definition { name: 0, parent: 0, type_idx: 1 });
    let body_stmt = Expr::Assign(
        Box::new(ident(1)),
        Box::new(Expr::ArrayLit(vec![i32_const(1)], TypeId::I32, sp())),
        sp(),
    );
    let w = Expr::While(
        Box::new(Expr::Constant(Constant::Bool(true), sp())),
        StmtSeq { exprs: vec![body_stmt] },
        sp(),
    );
    let mut d = Desugar::new();
    let out = d.on_expr(&scope, &mut pool, w).unwrap();
    let expected_body = vec![
        push_call(2, i32_const(1)),
        Expr::Assign(Box::new(ident(1)), Box::new(ident(2)), sp()),
    ];
    let expected = Expr::While(
        Box::new(Expr::Constant(Constant::Bool(true), sp())),
        StmtSeq { exprs: expected_body },
        sp(),
    );
    assert_eq!(out, expected);
    // Nothing leaks out of the loop body.
    assert!(d.prefix_exprs.is_empty());
}

#[test]
fn interpolation_folds_parts_left_to_right() {
    // `"a${n}m${n}"`: the accumulator nests leftward.
    let scope = full_scope();
    let mut pool = base_pool();
    let interp = Expr::InterpStr(
        String::from("a"),
        vec![
            StrPart { expr: ident(0), tail: String::from("m") },
            StrPart { expr: ident(0), tail: String::new() },
        ],
        sp(),
    );
    let mut d = Desugar::new();
    let out = d.on_expr(&scope, &mut pool, interp).unwrap();
    let first = Expr::Call(
        Callable::Function(7),
        Vec::new(),
        vec![
            as_ref(str_const("a")),
            as_ref(Expr::Call(
                Callable::Function(7),
                Vec::new(),
                vec![as_ref(to_string_call(ident(0))), as_ref(str_const("m"))],
                sp(),
            )),
        ],
        sp(),
    );
    let expected = Expr::Call(
        Callable::Function(7),
        Vec::new(),
        vec![as_ref(first), as_ref(to_string_call(ident(0)))],
        sp(),
    );
    assert_eq!(out, expected);
}

#[test]
fn element_access_on_non_array_is_rejected() {
    let scope = full_scope();
    let pool = base_pool();
    let elem = Expr::ArrayElem(Box::new(ident(0)), Box::new(i32_const(0)), sp());
    let err = type_of(&elem, &scope, &pool).unwrap_err();
    assert_eq!(err.cause, Cause::ArrayExpected(TypeId::I32));
    assert_eq!(err.span, sp());
}

#[test]
fn fresh_local_registers_definition() {
    let scope = full_scope();
    let mut pool = base_pool();
    let mut d = Desugar::new();
    let r = d.fresh_local(&scope, &mut pool, &TypeId::I32, sp()).unwrap();
    assert_eq!(r, Reference::Value(Value::Local(1)));
    assert_eq!(pool.definitions.len(), 2);
    let def = pool.definitions[1];
    assert_eq!(pool.names[def.name], PoolName::Synthetic(0));
    assert_eq!(def.parent, 0);
    assert_eq!(pool.types[def.type_idx], TypeId::I32);
    assert_eq!(d.locals(), vec![1]);
}
