use vstd::prelude::*;

use crate::ast::{Callable, Span, TypeId};

verus! {

/// A source-level type name, as it appears in a function signature.
#[derive(Clone, Copy, PartialEq, Eq, Structural, Debug)]
pub enum TypeName {
    Str,
    Int32,
    Bool,
    RefStr,
    Other(usize),
}

/// An operation name that signatures are looked up under.
#[derive(Clone, Copy, PartialEq, Eq, Structural, Debug)]
pub enum FnName {
    OpAdd,
    OpAssignAdd,
    OpLess,
    Other(usize),
}

/// One parameter of a signature: its type name and whether it is passed by
/// reference.
#[derive(Clone, Copy, PartialEq, Eq, Structural, Debug)]
pub struct ParamSig {
    pub typ: TypeName,
    pub by_ref: bool,
}

/// A full signature: an operation name, ordered parameters, and return type.
/// Function resolution matches it exactly.
#[derive(PartialEq, Eq, Debug)]
pub struct FunctionSignature {
    pub name: FnName,
    pub params: Vec<ParamSig>,
    pub ret: TypeName,
}

/// The mathematical model of a signature.
#[verifier::ext_equal]
pub struct SpecSig {
    pub name: FnName,
    pub params: Seq<ParamSig>,
    pub ret: TypeName,
}

impl View for FunctionSignature {
    type V = SpecSig;

    open spec fn view(&self) -> SpecSig {
        SpecSig { name: self.name, params: self.params@, ret: self.ret }
    }
}

impl FunctionSignature {
    /// Builds a two-parameter signature.
    pub fn binary(name: FnName, p0: ParamSig, p1: ParamSig, ret: TypeName) -> (r:
        FunctionSignature)
        ensures
            r@ == (SpecSig { name, params: seq![p0, p1], ret }),
    {
        let mut params: Vec<ParamSig> = Vec::new();
        params.push(p0);
        params.push(p1);
        proof {
            assert(params@ =~= seq![p0, p1]);
        }
        FunctionSignature { name, params, ret }
    }

    /// Exact signature equality, usable from verified code.
    pub fn sig_eq(&self, other: &FunctionSignature) -> (r: bool)
        ensures
            r == (self@ == other@),
    {
        if self.name != other.name || self.ret != other.ret
            || self.params.len() != other.params.len() {
            proof {
                if self@.params =~= other@.params && self@.name == other@.name && self@.ret
                    == other@.ret {
                    assert(self@ =~= other@);
                }
            }
            false
        } else {
            let n = self.params.len();
            let mut i: usize = 0;
            while i < n
                invariant
                    n == self.params.len() == other.params.len(),
                    i <= n,
                    forall|j: int| 0 <= j < i ==> self.params@[j] == other.params@[j],
                decreases n - i,
            {
                if self.params[i] != other.params[i] {
                    proof {
                        assert(self@.params[i as int] != other@.params[i as int]);
                    }
                    return false;
                }
                i += 1;
            }
            proof {
                assert(self@.params =~= other@.params);
                assert(self@ =~= other@);
            }
            true
        }
    }
}

/// The conditions on which this stage fails.
#[derive(PartialEq, Eq, Debug)]
pub enum Cause {
    /// No function of the requested name is in scope.
    UnresolvedFunction(FnName),
    /// Functions of the name exist, but none matches the signature exactly.
    FunctionNotFound(FunctionSignature),
    /// A type name has no resolution in scope.
    UnresolvedType(TypeName),
    /// A handle does not name a definition the pool knows.
    UnresolvedDefinition(usize),
    /// An element access on a value whose type is not an array type.
    ArrayExpected(TypeId),
    /// A type that the definition pool cannot resolve to a storage type.
    PoolType(TypeId),
    /// A value of void type where a formattable value is required.
    UnsupportedVoid,
}

/// The mathematical model of a failure cause.
#[verifier::ext_equal]
pub enum SpecCause {
    UnresolvedFunction(FnName),
    FunctionNotFound(SpecSig),
    UnresolvedType(TypeName),
    UnresolvedDefinition(usize),
    ArrayExpected(TypeId),
    PoolType(TypeId),
    UnsupportedVoid,
}

impl View for Cause {
    type V = SpecCause;

    open spec fn view(&self) -> SpecCause {
        match self {
            Cause::UnresolvedFunction(n) => SpecCause::UnresolvedFunction(*n),
            Cause::FunctionNotFound(s) => SpecCause::FunctionNotFound(s@),
            Cause::UnresolvedType(n) => SpecCause::UnresolvedType(*n),
            Cause::UnresolvedDefinition(h) => SpecCause::UnresolvedDefinition(*h),
            Cause::ArrayExpected(t) => SpecCause::ArrayExpected(*t),
            Cause::PoolType(t) => SpecCause::PoolType(*t),
            Cause::UnsupportedVoid => SpecCause::UnsupportedVoid,
        }
    }
}

/// A failure, reported with the source position of the offending construct.
#[derive(PartialEq, Eq, Debug)]
pub struct Error {
    pub cause: Cause,
    pub span: Span,
}

/// The mathematical model of a failure.
#[verifier::ext_equal]
pub struct SpecError {
    pub cause: SpecCause,
    pub span: Span,
}

impl View for Error {
    type V = SpecError;

    open spec fn view(&self) -> SpecError {
        SpecError { cause: self.cause@, span: self.span }
    }
}

impl Cause {
    /// Annotates the cause with a source position.
    pub fn with_span(self, span: Span) -> (r: Error)
        ensures
            r@ == (SpecError { cause: self@, span }),
    {
        Error { cause: self, span }
    }
}

/// One resolvable type name.
#[derive(PartialEq, Eq, Debug)]
pub struct TypeAlias {
    pub name: TypeName,
    pub typ: TypeId,
}

/// One resolved function the scope knows: its exact signature, its definition
/// handle, and its resolved return type.
#[derive(PartialEq, Eq, Debug)]
pub struct FunctionEntry {
    pub sig: FunctionSignature,
    pub index: usize,
    pub ret_type: TypeId,
}

/// The mathematical model of a function entry.
#[verifier::ext_equal]
pub struct SpecFunctionEntry {
    pub sig: SpecSig,
    pub index: usize,
    pub ret_type: TypeId,
}

impl View for FunctionEntry {
    type V = SpecFunctionEntry;

    open spec fn view(&self) -> SpecFunctionEntry {
        SpecFunctionEntry { sig: self.sig@, index: self.index, ret_type: self.ret_type }
    }
}

/// The read-only symbol scope this stage consults, plus the handle of the
/// function whose body is being lowered.
#[derive(PartialEq, Eq, Debug)]
pub struct Scope {
    pub functions: Vec<FunctionEntry>,
    pub types: Vec<TypeAlias>,
    pub function: Option<usize>,
}

/// The mathematical model of a scope.
#[verifier::ext_equal]
pub struct SpecScope {
    pub functions: Seq<SpecFunctionEntry>,
    pub types: Seq<TypeAlias>,
    pub function: Option<usize>,
}

pub open spec fn view_entry_in(v: Seq<FunctionEntry>, i: int) -> SpecFunctionEntry {
    if 0 <= i < v.len() {
        v[i]@
    } else {
        SpecFunctionEntry {
            sig: SpecSig { name: FnName::Other(0), params: Seq::empty(), ret: TypeName::Other(0) },
            index: 0,
            ret_type: TypeId::Void,
        }
    }
}

pub open spec fn view_entries(v: Seq<FunctionEntry>) -> Seq<SpecFunctionEntry> {
    Seq::new(v.len(), |i: int| view_entry_in(v, i))
}

impl View for Scope {
    type V = SpecScope;

    open spec fn view(&self) -> SpecScope {
        SpecScope {
            functions: view_entries(self.functions@),
            types: self.types@,
            function: self.function,
        }
    }
}

/// First type alias of the given name, scanning from position `i`.
pub open spec fn find_alias(types: Seq<TypeAlias>, name: TypeName, i: int) -> Result<
    TypeId,
    SpecCause,
>
    decreases types.len() - i,
{
    if i < 0 || i >= types.len() {
        Err(SpecCause::UnresolvedType(name))
    } else if types[i].name == name {
        Ok(types[i].typ)
    } else {
        find_alias(types, name, i + 1)
    }
}

/// What `resolve_type` returns: the first resolution of the name in scope.
pub open spec fn spec_resolve_type(sc: SpecScope, name: TypeName) -> Result<TypeId, SpecCause> {
    find_alias(sc.types, name, 0)
}

/// Whether some function of the given name is in scope.
pub open spec fn name_exists(fns: Seq<SpecFunctionEntry>, name: FnName) -> bool {
    exists|i: int| 0 <= i < fns.len() && fns[i].sig.name == name
}

/// First entry whose signature matches exactly, scanning from position `i`.
pub open spec fn find_overload(fns: Seq<SpecFunctionEntry>, sig: SpecSig, i: int) -> Option<
    SpecFunctionEntry,
>
    decreases fns.len() - i,
{
    if i < 0 || i >= fns.len() {
        None
    } else if fns[i].sig == sig {
        Some(fns[i])
    } else {
        find_overload(fns, sig, i + 1)
    }
}

/// What resolving an operation signature returns: a reference to the first
/// exactly-matching function; `UnresolvedFunction` when no function has the
/// name, `FunctionNotFound` when overloads exist but none matches exactly.
pub open spec fn spec_get_function(sc: SpecScope, sig: SpecSig) -> Result<Callable, SpecCause> {
    if !name_exists(sc.functions, sig.name) {
        Err(SpecCause::UnresolvedFunction(sig.name))
    } else {
        match find_overload(sc.functions, sig, 0) {
            Some(e) => Ok(Callable::Function(e.index)),
            None => Err(SpecCause::FunctionNotFound(sig)),
        }
    }
}

impl Scope {
    /// Looks up the first resolution of a type name; fails with
    /// `UnresolvedType` when the scope does not know the name.
    pub fn resolve_type(&self, name: TypeName) -> (r: Result<TypeId, Cause>)
        ensures
            match r {
                Ok(t) => spec_resolve_type(self@, name) == Ok::<TypeId, SpecCause>(t),
                Err(c) => spec_resolve_type(self@, name) == Err::<TypeId, SpecCause>(c@),
            },
    {
        let n = self.types.len();
        let mut i: usize = 0;
        while i < n
            invariant
                n == self.types.len(),
                i <= n,
                find_alias(self@.types, name, 0) == find_alias(self@.types, name, i as int),
            decreases n - i,
        {
            if self.types[i].name == name {
                return Ok(self.types[i].typ.duplicate());
            }
            i += 1;
        }
        Err(Cause::UnresolvedType(name))
    }

    /// Resolves an operation name plus exact signature to a function in scope.
    pub fn get_function(&self, signature: FunctionSignature) -> (r: Result<Callable, Cause>)
        ensures
            match r {
                Ok(c) => spec_get_function(self@, signature@) == Ok::<Callable, SpecCause>(c),
                Err(c) => spec_get_function(self@, signature@) == Err::<Callable, SpecCause>(c@),
            },
    {
        let n = self.functions.len();
        let mut i: usize = 0;
        let mut name_found: bool = false;
        while i < n
            invariant
                n == self.functions.len(),
                i <= n,
                find_overload(self@.functions, signature@, 0) == find_overload(
                    self@.functions,
                    signature@,
                    i as int,
                ),
                name_found == exists|j: int|
                    0 <= j < i && view_entries(self.functions@)[j].sig.name == signature@.name,
            decreases n - i,
        {
            proof {
                assert(view_entries(self.functions@)[i as int] == self.functions@[i as int]@);
            }
            if self.functions[i].sig.sig_eq(&signature) {
                proof {
                    assert(name_exists(self@.functions, signature@.name));
                }
                return Ok(Callable::Function(self.functions[i].index));
            }
            if self.functions[i].sig.name == signature.name {
                name_found = true;
            }
            i += 1;
        }
        if name_found {
            Err(Cause::FunctionNotFound(signature))
        } else {
            proof {
                assert(forall|j: int|
                    0 <= j < self@.functions.len() ==> self@.functions[j].sig.name
                        != signature@.name);
            }
            Err(Cause::UnresolvedFunction(signature.name))
        }
    }
}

} // verus!
