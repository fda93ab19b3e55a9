use vstd::prelude::*;

verus! {

/// Canonical identity of a requested or provided type: a base type identity,
/// optionally told apart from other providers of that base by a qualifier.
#[derive(Clone, Copy, Debug, PartialEq, Eq, Structural, Hash)]
pub struct TypeKey {
    pub base: u64,
    pub qualifier: Option<u64>,
}

impl TypeKey {
    /// The key of an unqualified type.
    pub fn of(base: u64) -> (r: TypeKey)
        ensures
            r == (TypeKey { base, qualifier: None }),
    {
        TypeKey { base, qualifier: None }
    }

    /// The key of a type told apart by `qualifier`.
    pub fn qualified(base: u64, qualifier: u64) -> (r: TypeKey)
        ensures
            r == (TypeKey { base, qualifier: Some(qualifier) }),
    {
        TypeKey { base, qualifier: Some(qualifier) }
    }
}

/// Who constructed an instance: the process-wide seeding, or the module with
/// the given identity.
#[derive(Clone, Copy, Debug, PartialEq, Eq, Structural)]
pub enum Owner {
    Global,
    Module(usize),
}

/// A resolved instance, identified by its owner and the key it was built for.
#[derive(Clone, Copy, Debug, PartialEq, Eq, Structural)]
pub struct Instance {
    pub owner: Owner,
    pub key: TypeKey,
}

impl Instance {
    /// An instance seeded into the global provider graph.
    pub fn global(key: TypeKey) -> (r: Instance)
        ensures
            r == (Instance { owner: Owner::Global, key }),
    {
        Instance { owner: Owner::Global, key }
    }
}

} // verus!
