use vstd::prelude::*;

use crate::ast::TypeId;
use crate::scope::{Cause, SpecCause};

verus! {

/// An interned name. Synthetic names carry a purely structural identity — a
/// counter scoped to one lowering pass — which no user-facing name can ever
/// collide with.
#[derive(PartialEq, Eq, Debug)]
pub enum PoolName {
    User(String),
    Synthetic(usize),
}

/// A local definition: an interned name, the owning function's handle, and a
/// handle into the pool's storage-type table.
#[derive(Clone, Copy, PartialEq, Eq, Structural, Debug)]
pub struct Definition {
    pub name: usize,
    pub parent: usize,
    pub type_idx: usize,
}

/// The shared definition store: interned names, resolvable storage types, and
/// the definitions of all locals.
#[derive(PartialEq, Eq, Debug)]
pub struct ConstantPool {
    pub names: Vec<PoolName>,
    pub types: Vec<TypeId>,
    pub definitions: Vec<Definition>,
}

/// The mathematical model of the pool.
#[verifier::ext_equal]
pub struct PoolView {
    pub names: Seq<PoolName>,
    pub types: Seq<TypeId>,
    pub defs: Seq<Definition>,
}

impl View for ConstantPool {
    type V = PoolView;

    open spec fn view(&self) -> PoolView {
        PoolView { names: self.names@, types: self.types@, defs: self.definitions@ }
    }
}

/// First position of the type in the storage-type table, scanning from `i`.
pub open spec fn find_type_index(types: Seq<TypeId>, t: TypeId, i: int) -> Option<int>
    decreases types.len() - i,
{
    if i < 0 || i >= types.len() {
        None
    } else if types[i] == t {
        Some(i)
    } else {
        find_type_index(types, t, i + 1)
    }
}

impl ConstantPool {
    /// An empty pool.
    pub fn new() -> (r: ConstantPool)
        ensures
            r@ == (PoolView {
                names: Seq::<PoolName>::empty(),
                types: Seq::<TypeId>::empty(),
                defs: Seq::<Definition>::empty(),
            }),
    {
        let r = ConstantPool { names: Vec::new(), types: Vec::new(), definitions: Vec::new() };
        proof {
            assert(r@ =~= (PoolView {
                names: Seq::<PoolName>::empty(),
                types: Seq::<TypeId>::empty(),
                defs: Seq::<Definition>::empty(),
            }));
        }
        r
    }

    /// Interns a name; the handle is the name's position in the table.
    pub fn add_name(&mut self, name: PoolName) -> (idx: usize)
        ensures
            final(self)@.names == old(self)@.names.push(name),
            final(self)@.types == old(self)@.types,
            final(self)@.defs == old(self)@.defs,
            idx == old(self)@.names.len(),
    {
        let idx = self.names.len();
        self.names.push(name);
        idx
    }

    /// Registers a storage type; the handle is the type's position.
    pub fn add_type(&mut self, t: TypeId) -> (idx: usize)
        ensures
            final(self)@.types == old(self)@.types.push(t),
            final(self)@.names == old(self)@.names,
            final(self)@.defs == old(self)@.defs,
            idx == old(self)@.types.len(),
    {
        let idx = self.types.len();
        self.types.push(t);
        idx
    }

    /// Adds a definition; the handle is the definition's position.
    pub fn add_definition(&mut self, def: Definition) -> (idx: usize)
        ensures
            final(self)@.defs == old(self)@.defs.push(def),
            final(self)@.names == old(self)@.names,
            final(self)@.types == old(self)@.types,
            idx == old(self)@.defs.len(),
    {
        let idx = self.definitions.len();
        self.definitions.push(def);
        idx
    }

    /// Resolves a type to its storage-type handle; fails exactly when the
    /// pool's table does not hold the type.
    pub fn get_type_index(&self, t: &TypeId) -> (r: Result<usize, Cause>)
        ensures
            match r {
                Ok(k) => find_type_index(self@.types, *t, 0) == Some(k as int),
                Err(c) => find_type_index(self@.types, *t, 0) == None::<int> && c@
                    == SpecCause::PoolType(*t),
            },
    {
        let n = self.types.len();
        let mut i: usize = 0;
        while i < n
            invariant
                n == self.types.len(),
                i <= n,
                find_type_index(self@.types, *t, 0) == find_type_index(self@.types, *t, i as int),
            decreases n - i,
        {
            if self.types[i].type_eq(t) {
                return Ok(i);
            }
            i += 1;
        }
        Err(Cause::PoolType(t.duplicate()))
    }
}

} // verus!
