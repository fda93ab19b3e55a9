use vstd::prelude::*;
use crate::key::{Instance, Owner, TypeKey};
use crate::lookup::{lookup_spec, LookupError};
use crate::module::{InjectableView, ModuleView, Scope};

verus! {

/// Everything that can stop a build. Each names the module at fault and the
/// chain of imports from the root that reached it.
#[derive(Debug)]
pub enum BuildError {
    /// An import names a module identity that the catalog does not declare.
    UnknownModule { module: usize, path: Vec<usize> },
    /// Following imports from the root comes back to `module`.
    CyclicImport { module: usize, path: Vec<usize> },
    /// Two providers of `module` register the same key.
    DuplicateKey { module: usize, key: TypeKey, path: Vec<usize> },
    /// No graph of the search chain holds `dependency`, which `injectable`
    /// asks for (a global-scoped injectable asks for its own key).
    UnresolvedDependency {
        module: usize,
        injectable: TypeKey,
        dependency: TypeKey,
        name: String,
        path: Vec<usize>,
    },
    /// `dependency` names no qualifier and several qualified providers of its
    /// base are on offer.
    AmbiguousQualifier {
        module: usize,
        injectable: TypeKey,
        dependency: TypeKey,
        name: String,
        path: Vec<usize>,
    },
    /// `module` exports a key that none of its providers registers.
    UnknownExport { module: usize, key: TypeKey, path: Vec<usize> },
}

/// What one provider or client was resolved to: its own instance and the
/// instances handed to it, in parameter order.
pub struct ResolutionView {
    pub instance: Instance,
    pub dependencies: Seq<Instance>,
}

/// A frozen module: its identity, its graph, its exported view, the arena
/// positions of its direct imports, and what its providers and clients were
/// resolved to.
pub struct ResolvedModuleView {
    pub id: usize,
    pub graph: Map<TypeKey, Instance>,
    pub exported: Map<TypeKey, Instance>,
    pub imports: Seq<usize>,
    pub providers: Seq<ResolutionView>,
    pub clients: Seq<ResolutionView>,
}

/// The instance that injectable `p` of module `m` stands for.
pub open spec fn provided_instance(m: usize, p: InjectableView, global: Map<TypeKey, Instance>) -> Instance {
    match p.scope {
        Scope::Module => Instance { owner: Owner::Module(m), key: p.key },
        Scope::Global => global[p.key],
    }
}

/// The graph of module `m` once its first `j` providers are in.
pub open spec fn local_graph(d: ModuleView, m: usize, global: Map<TypeKey, Instance>, j: int) -> Map<TypeKey, Instance>
    decreases j,
{
    if j <= 0 {
        Map::empty()
    } else {
        local_graph(d, m, global, j - 1).insert(
            d.providers[j - 1].key,
            provided_instance(m, d.providers[j - 1], global),
        )
    }
}

/// The graph of module `m` once all its providers are in.
pub open spec fn module_graph(d: ModuleView, m: usize, global: Map<TypeKey, Instance>) -> Map<TypeKey, Instance> {
    local_graph(d, m, global, d.providers.len() as int)
}

/// What module `m` shows to its importers.
pub open spec fn exported_graph(cat: Seq<ModuleView>, global: Map<TypeKey, Instance>, m: usize) -> Map<TypeKey, Instance> {
    module_graph(cat[m as int], m, global).restrict(cat[m as int].exports.to_set())
}

/// The search chain of module `m`: its own graph `local`, then the exported
/// view of each direct import in declaration order, then the global graph.
pub open spec fn search_chain(
    cat: Seq<ModuleView>,
    global: Map<TypeKey, Instance>,
    m: usize,
    local: Map<TypeKey, Instance>,
) -> Seq<Map<TypeKey, Instance>> {
    seq![local] + cat[m as int].imports.map_values(|i: usize| exported_graph(cat, global, i)) + seq![global]
}

/// The chain that the `j`-th provider of `m` is resolved against: only the
/// providers declared before it are local.
pub open spec fn provider_chain(cat: Seq<ModuleView>, global: Map<TypeKey, Instance>, m: usize, j: int) -> Seq<Map<TypeKey, Instance>> {
    search_chain(cat, global, m, local_graph(cat[m as int], m, global, j))
}

/// The chain that the clients of `m` are resolved against: every provider is
/// local, no client is.
pub open spec fn client_chain(cat: Seq<ModuleView>, global: Map<TypeKey, Instance>, m: usize) -> Seq<Map<TypeKey, Instance>> {
    search_chain(cat, global, m, module_graph(cat[m as int], m, global))
}

/// Every key of `deps` can be looked up along `chain`.
pub open spec fn deps_resolve(chain: Seq<Map<TypeKey, Instance>>, deps: Seq<TypeKey>) -> bool {
    forall|t: int| 0 <= t < deps.len() ==> (#[trigger] lookup_spec(chain, deps[t])) is Ok
}

/// The instance that looking `t` up along `chain` gives.
pub open spec fn resolved(chain: Seq<Map<TypeKey, Instance>>, t: TypeKey) -> Instance {
    match lookup_spec(chain, t) {
        Ok(v) => v,
        Err(_) => Instance { owner: Owner::Global, key: t },
    }
}

/// Injectable `p` can be had: from the global graph, or by resolving each of
/// its dependencies along `chain`.
pub open spec fn injectable_ok(p: InjectableView, chain: Seq<Map<TypeKey, Instance>>, global: Map<TypeKey, Instance>) -> bool {
    match p.scope {
        Scope::Global => global.contains_key(p.key),
        Scope::Module => deps_resolve(chain, p.deps),
    }
}

/// What injectable `p` of module `m` resolves to along `chain`.
pub open spec fn resolution(m: usize, p: InjectableView, chain: Seq<Map<TypeKey, Instance>>, global: Map<TypeKey, Instance>) -> ResolutionView {
    ResolutionView {
        instance: provided_instance(m, p, global),
        dependencies: match p.scope {
            Scope::Global => Seq::empty(),
            Scope::Module => p.deps.map_values(|t: TypeKey| resolved(chain, t)),
        },
    }
}

/// The `j`-th provider of `m` resolves, and its key is new to the module.
pub open spec fn provider_ok(cat: Seq<ModuleView>, global: Map<TypeKey, Instance>, m: usize, j: int) -> bool {
    let p = cat[m as int].providers[j];
    &&& !local_graph(cat[m as int], m, global, j).contains_key(p.key)
    &&& injectable_ok(p, provider_chain(cat, global, m, j), global)
}

/// The `c`-th client of `m` resolves.
pub open spec fn client_ok(cat: Seq<ModuleView>, global: Map<TypeKey, Instance>, m: usize, c: int) -> bool {
    injectable_ok(cat[m as int].clients[c], client_chain(cat, global, m), global)
}

/// Module `m` is declared, imports only declared modules, and every provider,
/// client and export of it checks out.
pub open spec fn module_ok(cat: Seq<ModuleView>, global: Map<TypeKey, Instance>, m: usize) -> bool {
    let d = cat[m as int];
    &&& (m as int) < cat.len()
    &&& forall|k: int| 0 <= k < d.imports.len() ==> (#[trigger] d.imports[k] as int) < cat.len()
    &&& forall|j: int| 0 <= j < d.providers.len() ==> #[trigger] provider_ok(cat, global, m, j)
    &&& forall|c: int| 0 <= c < d.clients.len() ==> #[trigger] client_ok(cat, global, m, c)
    &&& forall|e: int| 0 <= e < d.exports.len() ==> module_graph(d, m, global).contains_key(#[trigger] d.exports[e])
}

/// Module `a` is declared and imports module `b`.
pub open spec fn imports_edge(cat: Seq<ModuleView>, a: usize, b: usize) -> bool {
    (a as int) < cat.len() && cat[a as int].imports.contains(b)
}

/// `p` is a non-empty walk along imports.
pub open spec fn is_import_path(cat: Seq<ModuleView>, p: Seq<usize>) -> bool {
    &&& p.len() >= 1
    &&& forall|i: int| 0 <= i < p.len() - 1 ==> #[trigger] imports_edge(cat, p[i], p[i + 1])
}

/// Module `m` is reached from `root` by following imports.
pub open spec fn reachable(cat: Seq<ModuleView>, root: usize, m: usize) -> bool {
    exists|p: Seq<usize>| #[trigger] is_import_path(cat, p) && p[0] == root && p.last() == m
}

/// `p` is a walk along imports from `root` to `m`.
pub open spec fn path_to(cat: Seq<ModuleView>, root: usize, p: Seq<usize>, m: usize) -> bool {
    is_import_path(cat, p) && p[0] == root && p.last() == m
}

/// No walk along imports from `root` visits a module twice.
pub open spec fn acyclic_from(cat: Seq<ModuleView>, root: usize) -> bool {
    forall|p: Seq<usize>| #[trigger] is_import_path(cat, p) && p[0] == root ==> p.no_duplicates()
}

/// The declaration tree under `root` can be built: its imports form no cycle
/// and every module reached from it checks out.
pub open spec fn sound(cat: Seq<ModuleView>, global: Map<TypeKey, Instance>, root: usize) -> bool {
    &&& acyclic_from(cat, root)
    &&& forall|m: usize| #[trigger] reachable(cat, root, m) ==> module_ok(cat, global, m)
}

/// Injectable `p` fails for want of `dependency` along `chain`.
pub open spec fn unresolved_in(
    p: InjectableView,
    chain: Seq<Map<TypeKey, Instance>>,
    global: Map<TypeKey, Instance>,
    dependency: TypeKey,
) -> bool {
    match p.scope {
        Scope::Global => dependency == p.key && !global.contains_key(p.key),
        Scope::Module => p.deps.contains(dependency) && lookup_spec(chain, dependency) == Err::<Instance, LookupError>(LookupError::Unresolved),
    }
}

/// Injectable `p` asks for `dependency`, which is ambiguous along `chain`.
pub open spec fn ambiguous_in(p: InjectableView, chain: Seq<Map<TypeKey, Instance>>, dependency: TypeKey) -> bool {
    &&& p.scope == Scope::Module
    &&& p.deps.contains(dependency)
    &&& lookup_spec(chain, dependency) == Err::<Instance, LookupError>(LookupError::Ambiguous)
}

/// The fault that `e` reports is present in the tree under `root`, and the
/// chain of imports it carries leads from `root` to the module at fault.
pub open spec fn witnesses(cat: Seq<ModuleView>, global: Map<TypeKey, Instance>, root: usize, e: BuildError) -> bool {
    match e {
        BuildError::UnknownModule { module, path } => path_to(cat, root, path@, module) && module >= cat.len(),
        BuildError::CyclicImport { module, path } => path_to(cat, root, path@, module)
            && exists|i: int| 0 <= i < path@.len() - 1 && path@[i] == module,
        BuildError::DuplicateKey { module, key, path } => {
            &&& path_to(cat, root, path@, module)
            &&& (module as int) < cat.len()
            &&& exists|j: int| 0 <= j < cat[module as int].providers.len()
                && cat[module as int].providers[j].key == key
                && #[trigger] local_graph(cat[module as int], module, global, j).contains_key(key)
        },
        BuildError::UnresolvedDependency { module, injectable, dependency, name, path } => {
            &&& path_to(cat, root, path@, module)
            &&& (module as int) < cat.len()
            &&& {
                ||| exists|j: int| 0 <= j < cat[module as int].providers.len()
                    && cat[module as int].providers[j].key == injectable
                    && #[trigger] unresolved_in(cat[module as int].providers[j], provider_chain(cat, global, module, j), global, dependency)
                ||| exists|c: int| 0 <= c < cat[module as int].clients.len()
                    && cat[module as int].clients[c].key == injectable
                    && #[trigger] unresolved_in(cat[module as int].clients[c], client_chain(cat, global, module), global, dependency)
            }
        },
        BuildError::AmbiguousQualifier { module, injectable, dependency, name, path } => {
            &&& path_to(cat, root, path@, module)
            &&& (module as int) < cat.len()
            &&& {
                ||| exists|j: int| 0 <= j < cat[module as int].providers.len()
                    && cat[module as int].providers[j].key == injectable
                    && #[trigger] ambiguous_in(cat[module as int].providers[j], provider_chain(cat, global, module, j), dependency)
                ||| exists|c: int| 0 <= c < cat[module as int].clients.len()
                    && cat[module as int].clients[c].key == injectable
                    && #[trigger] ambiguous_in(cat[module as int].clients[c], client_chain(cat, global, module), dependency)
            }
        },
        BuildError::UnknownExport { module, key, path } => {
            &&& path_to(cat, root, path@, module)
            &&& (module as int) < cat.len()
            &&& cat[module as int].exports.contains(key)
            &&& !module_graph(cat[module as int], module, global).contains_key(key)
        },
    }
}

/// A reported fault rules the tree out.
pub proof fn lemma_witness_unsound(cat: Seq<ModuleView>, global: Map<TypeKey, Instance>, root: usize, e: BuildError)
    requires
        witnesses(cat, global, root, e),
    ensures
        !sound(cat, global, root),
{
    match e {
        BuildError::UnknownModule { module, path } => {
            assert(is_import_path(cat, path@));
            assert(reachable(cat, root, module));
            assert(!module_ok(cat, global, module));
        },
        BuildError::CyclicImport { module, path } => {
            let p = path@;
            assert(is_import_path(cat, p));
            let i = choose|i: int| 0 <= i < p.len() - 1 && p[i] == module;
            assert(p[i] == p[p.len() - 1]);
            assert(!p.no_duplicates());
        },
        BuildError::DuplicateKey { module, key, path } => {
            assert(is_import_path(cat, path@));
            assert(reachable(cat, root, module));
            let j = choose|j: int| 0 <= j < cat[module as int].providers.len()
                && cat[module as int].providers[j].key == key
                && #[trigger] local_graph(cat[module as int], module, global, j).contains_key(key);
            assert(!provider_ok(cat, global, module, j));
        },
        BuildError::UnresolvedDependency { module, injectable, dependency, name, path } => {
            assert(is_import_path(cat, path@));
            assert(reachable(cat, root, module));
            if exists|j: int| 0 <= j < cat[module as int].providers.len()
                && cat[module as int].providers[j].key == injectable
                && #[trigger] unresolved_in(cat[module as int].providers[j], provider_chain(cat, global, module, j), global, dependency) {
                let j = choose|j: int| 0 <= j < cat[module as int].providers.len()
                    && cat[module as int].providers[j].key == injectable
                    && #[trigger] unresolved_in(cat[module as int].providers[j], provider_chain(cat, global, module, j), global, dependency);
                let p = cat[module as int].providers[j];
                if p.scope == Scope::Module {
                    let t = choose|t: int| 0 <= t < p.deps.len() && p.deps[t] == dependency;
                    assert(!(lookup_spec(provider_chain(cat, global, module, j), p.deps[t]) is Ok));
                }
                assert(!provider_ok(cat, global, module, j));
            } else {
                let c = choose|c: int| 0 <= c < cat[module as int].clients.len()
                    && cat[module as int].clients[c].key == injectable
                    && #[trigger] unresolved_in(cat[module as int].clients[c], client_chain(cat, global, module), global, dependency);
                let p = cat[module as int].clients[c];
                if p.scope == Scope::Module {
                    let t = choose|t: int| 0 <= t < p.deps.len() && p.deps[t] == dependency;
                    assert(!(lookup_spec(client_chain(cat, global, module), p.deps[t]) is Ok));
                }
                assert(!client_ok(cat, global, module, c));
            }
        },
        BuildError::AmbiguousQualifier { module, injectable, dependency, name, path } => {
            assert(is_import_path(cat, path@));
            assert(reachable(cat, root, module));
            if exists|j: int| 0 <= j < cat[module as int].providers.len()
                && cat[module as int].providers[j].key == injectable
                && #[trigger] ambiguous_in(cat[module as int].providers[j], provider_chain(cat, global, module, j), dependency) {
                let j = choose|j: int| 0 <= j < cat[module as int].providers.len()
                    && cat[module as int].providers[j].key == injectable
                    && #[trigger] ambiguous_in(cat[module as int].providers[j], provider_chain(cat, global, module, j), dependency);
                let p = cat[module as int].providers[j];
                let t = choose|t: int| 0 <= t < p.deps.len() && p.deps[t] == dependency;
                assert(!(lookup_spec(provider_chain(cat, global, module, j), p.deps[t]) is Ok));
                assert(!provider_ok(cat, global, module, j));
            } else {
                let c = choose|c: int| 0 <= c < cat[module as int].clients.len()
                    && cat[module as int].clients[c].key == injectable
                    && #[trigger] ambiguous_in(cat[module as int].clients[c], client_chain(cat, global, module), dependency);
                let p = cat[module as int].clients[c];
                let t = choose|t: int| 0 <= t < p.deps.len() && p.deps[t] == dependency;
                assert(!(lookup_spec(client_chain(cat, global, module), p.deps[t]) is Ok));
                assert(!client_ok(cat, global, module, c));
            }
        },
        BuildError::UnknownExport { module, key, path } => {
            assert(is_import_path(cat, path@));
            assert(reachable(cat, root, module));
            let d = cat[module as int];
            let e = choose|e: int| 0 <= e < d.exports.len() && d.exports[e] == key;
            assert(!module_ok(cat, global, module));
        },
    }
}

} // verus!
