use vstd::prelude::*;
use crate::graph::Graph;
use crate::key::{Instance, Owner, TypeKey};
use crate::lookup::{chain_view, chain_wf, lookup, lookup_spec, LookupError};
use crate::model::{
    client_chain, client_ok, exported_graph, imports_edge, is_import_path, module_graph, module_ok,
    provider_chain, provider_ok, reachable, resolution, search_chain, sound, witnesses, local_graph, path_to,
    injectable_ok, unresolved_in, ambiguous_in, lemma_witness_unsound, resolved, BuildError,
    ResolutionView, ResolvedModuleView,
};
use crate::module::{catalog_view, Injectable, Module, ModuleView, Scope};

verus! {

/// What one provider or client was resolved to.
pub struct Resolution {
    instance: Instance,
    dependencies: Vec<Instance>,
}

impl View for Resolution {
    type V = ResolutionView;

    closed spec fn view(&self) -> ResolutionView {
        ResolutionView { instance: self.instance, dependencies: self.dependencies@ }
    }
}

impl Resolution {
    /// The instance that was built or taken.
    pub fn instance(&self) -> (r: Instance)
        ensures
            r == self@.instance,
    {
        self.instance
    }

    /// The instances handed to it, in parameter order.
    pub fn dependencies(&self) -> (r: &Vec<Instance>)
        ensures
            r@ == self@.dependencies,
    {
        &self.dependencies
    }
}

/// The build state of one declared module.
#[derive(Clone, Copy, Debug, PartialEq, Eq, Structural)]
pub enum Mark {
    Unvisited,
    Building,
    /// Built, and frozen at this arena position.
    Built(usize),
}

/// The frozen output of building one module.
pub struct ResolvedModule {
    id: usize,
    graph: Graph,
    exported: Graph,
    imports: Vec<usize>,
    providers: Vec<Resolution>,
    clients: Vec<Resolution>,
}

impl View for ResolvedModule {
    type V = ResolvedModuleView;

    closed spec fn view(&self) -> ResolvedModuleView {
        ResolvedModuleView {
            id: self.id,
            graph: self.graph@,
            exported: self.exported@,
            imports: self.imports@,
            providers: self.providers@.map_values(|r: Resolution| r@),
            clients: self.clients@.map_values(|r: Resolution| r@),
        }
    }
}

impl ResolvedModule {
    pub closed spec fn wf(&self) -> bool {
        self.graph.wf() && self.exported.wf()
    }

    /// The identity of the declaration this module was built from.
    pub fn id(&self) -> (r: usize)
        ensures
            r == self@.id,
    {
        self.id
    }

    /// The module's own graph.
    pub fn graph(&self) -> (r: &Graph)
        ensures
            r@ == self@.graph,
            self.wf() ==> r.wf(),
    {
        &self.graph
    }

    /// The read-only subset of the graph that importers see. It was computed
    /// once, when the module was frozen.
    pub fn exported_view(&self) -> (r: &Graph)
        ensures
            r@ == self@.exported,
            self.wf() ==> r.wf(),
    {
        &self.exported
    }

    /// The arena positions of the direct imports, in declaration order.
    pub fn imports(&self) -> (r: &Vec<usize>)
        ensures
            r@ == self@.imports,
    {
        &self.imports
    }

    /// What each provider was resolved to, in declaration order.
    pub fn providers(&self) -> (r: &Vec<Resolution>)
        ensures
            r@.map_values(|x: Resolution| x@) == self@.providers,
    {
        &self.providers
    }

    /// What each client was resolved to, in declaration order.
    pub fn clients(&self) -> (r: &Vec<Resolution>)
        ensures
            r@.map_values(|x: Resolution| x@) == self@.clients,
    {
        &self.clients
    }
}

/// The frozen module that declaration `m` gives, with its imports at the
/// arena positions `imports`.
pub open spec fn resolved_spec(
    cat: Seq<ModuleView>,
    global: Map<TypeKey, Instance>,
    m: usize,
    imports: Seq<usize>,
) -> ResolvedModuleView {
    let d = cat[m as int];
    ResolvedModuleView {
        id: m,
        graph: module_graph(d, m, global),
        exported: exported_graph(cat, global, m),
        imports,
        providers: Seq::new(
            d.providers.len(),
            |j: int| resolution(m, d.providers[j], provider_chain(cat, global, m, j), global),
        ),
        clients: Seq::new(
            d.clients.len(),
            |c: int| resolution(m, d.clients[c], client_chain(cat, global, m), global),
        ),
    }
}

/// The global graph, the build state of each declared module, and the arena
/// of frozen modules in the order they were built.
pub struct ContextView {
    pub global: Map<TypeKey, Instance>,
    pub marks: Seq<Mark>,
    pub modules: Seq<ResolvedModuleView>,
}

/// Module `m` is frozen at arena position `idx`, as its declaration says, and
/// each of its imports is frozen at an earlier position.
pub open spec fn built_ok(cat: Seq<ModuleView>, v: ContextView, m: usize, idx: usize) -> bool {
    let r = v.modules[idx as int];
    let d = cat[m as int];
    &&& (idx as int) < v.modules.len()
    &&& module_ok(cat, v.global, m)
    &&& r == resolved_spec(cat, v.global, m, r.imports)
    &&& r.imports.len() == d.imports.len()
    &&& forall|k: int| 0 <= k < d.imports.len() ==> v.marks[d.imports[k] as int] == Mark::Built(#[trigger] r.imports[k])
        && r.imports[k] < idx
}

/// Every built mark points at a faithful frozen module, and every frozen
/// module is the one its mark points at: no declaration is built twice.
pub open spec fn context_ok(cat: Seq<ModuleView>, v: ContextView) -> bool {
    &&& v.marks.len() == cat.len()
    &&& forall|m: usize| (m as int) < cat.len() && #[trigger] v.marks[m as int] is Built ==> built_ok(cat, v, m, v.marks[m as int]->Built_0)
    &&& forall|i: int| 0 <= i < v.modules.len() ==> (#[trigger] v.modules[i].id as int) < cat.len()
        && v.marks[v.modules[i].id as int] == Mark::Built(i as usize)
}

/// `stack` is the walk from `root` to the modules being built, and exactly
/// those modules are marked as building.
pub open spec fn stack_ok(cat: Seq<ModuleView>, marks: Seq<Mark>, root: usize, stack: Seq<usize>) -> bool {
    &&& stack.no_duplicates()
    &&& forall|i: int| 0 <= i < stack.len() ==> (#[trigger] stack[i] as int) < cat.len()
        && marks[stack[i] as int] == Mark::Building
    &&& forall|x: usize| (x as int) < marks.len() && #[trigger] marks[x as int] == Mark::Building ==> stack.contains(x)
    &&& stack.len() > 0 ==> is_import_path(cat, stack) && stack[0] == root
}

/// `b` is `a` with more modules built and nothing else changed.
pub open spec fn extends(a: ContextView, b: ContextView) -> bool {
    &&& b.global == a.global
    &&& b.marks.len() == a.marks.len()
    &&& a.modules.is_prefix_of(b.modules)
    &&& forall|x: int| 0 <= x < a.marks.len() ==> (#[trigger] a.marks[x] == Mark::Building
        <==> b.marks[x] == Mark::Building)
    &&& forall|x: int| 0 <= x < a.marks.len() && #[trigger] a.marks[x] is Built ==> b.marks[x] == a.marks[x]
}

/// The process-wide state of one build pass: the global provider graph,
/// seeded once and only read afterwards, the build state of each declared
/// module, and the frozen modules.
pub struct ApplicationContext {
    global: Graph,
    marks: Vec<Mark>,
    modules: Vec<ResolvedModule>,
}

impl View for ApplicationContext {
    type V = ContextView;

    closed spec fn view(&self) -> ContextView {
        ContextView {
            global: self.global@,
            marks: self.marks@,
            modules: self.modules@.map_values(|r: ResolvedModule| r@),
        }
    }
}

impl ApplicationContext {
    pub closed spec fn wf(&self) -> bool {
        &&& self.global.wf()
        &&& forall|i: int| 0 <= i < self.modules@.len() ==> (#[trigger] self.modules@[i]).wf()
    }
}

proof fn lemma_distinct_bounded(s: Seq<usize>, n: int)
    requires
        0 <= n,
        s.no_duplicates(),
        forall|i: int| 0 <= i < s.len() ==> (#[trigger] s[i] as int) < n,
    ensures
        s.len() <= n,
{
    let t = s.map_values(|x: usize| x as int);
    assert forall|i: int, j: int| 0 <= i < t.len() && 0 <= j < t.len() && i != j implies t[i] != t[j] by {
        assert(s[i] != s[j]);
    }
    t.unique_seq_to_set();
    vstd::set_lib::lemma_int_range(0, n);
    assert forall|x: int| t.to_set().contains(x) implies vstd::set_lib::set_int_range(0, n).contains(x) by {
        let i = choose|i: int| 0 <= i < t.len() && t[i] == x;
        assert(s[i] as int == x);
    }
    vstd::set_lib::lemma_len_subset(t.to_set(), vstd::set_lib::set_int_range(0, n));
}

/// The search chain: `local`, the exported view of each import, the global graph.
fn make_chain<'a>(
    local: &'a Graph,
    imports: &Vec<usize>,
    modules: &'a Vec<ResolvedModule>,
    global: &'a Graph,
) -> (r: Vec<&'a Graph>)
    requires
        local.wf(),
        global.wf(),
        forall|k: int| 0 <= k < imports@.len() ==> (#[trigger] imports@[k] as int) < modules@.len(),
        forall|i: int| 0 <= i < modules@.len() ==> (#[trigger] modules@[i]).wf(),
    ensures
        chain_wf(r@),
        chain_view(r@) == seq![local@] + imports@.map_values(|i: usize| modules@[i as int]@.exported)
            + seq![global@],
{
    let mut chain: Vec<&'a Graph> = Vec::new();
    chain.push(local);
    let mut k: usize = 0;
    while k < imports.len()
        invariant
            0 <= k <= imports@.len(),
            local.wf(),
            forall|q: int| 0 <= q < imports@.len() ==> (#[trigger] imports@[q] as int) < modules@.len(),
            forall|i: int| 0 <= i < modules@.len() ==> (#[trigger] modules@[i]).wf(),
            chain_wf(chain@),
            chain_view(chain@) == seq![local@] + imports@.take(k as int).map_values(
                |i: usize| modules@[i as int]@.exported,
            ),
        decreases imports@.len() - k,
    {
        let g: &'a Graph = &modules[imports[k]].exported;
        let ghost before = chain@;
        chain.push(g);
        proof {
            assert(chain_view(chain@) =~= chain_view(before).push(g@));
            assert(imports@.take(k + 1).map_values(|i: usize| modules@[i as int]@.exported)
                =~= imports@.take(k as int).map_values(|i: usize| modules@[i as int]@.exported).push(g@));
        }
        k = k + 1;
    }
    let ghost before = chain@;
    chain.push(global);
    proof {
        assert(chain_view(chain@) =~= chain_view(before).push(global@));
        assert(imports@.take(k as int) =~= imports@);
    }
    chain
}

/// A copy of an import path.
fn copy_path(p: &Vec<usize>) -> (r: Vec<usize>)
    ensures
        r@ == p@,
{
    let mut r: Vec<usize> = Vec::new();
    let mut i: usize = 0;
    while i < p.len()
        invariant
            0 <= i <= p@.len(),
            r@ == p@.take(i as int),
        decreases p@.len() - i,
    {
        r.push(p[i]);
        assert(p@.take(i + 1) =~= p@.take(i as int).push(p@[i as int]));
        i = i + 1;
    }
    assert(p@.take(i as int) =~= p@);
    r
}

/// An import path followed by one more module.
fn extend_path(p: &Vec<usize>, m: usize) -> (r: Vec<usize>)
    ensures
        r@ == p@.push(m),
{
    let mut r = copy_path(p);
    r.push(m);
    r
}

/// Builds or takes the instance of `p`, a provider or client of module `m`,
/// resolving its dependencies along `chain`.
fn resolve_injectable(
    m: usize,
    p: &Injectable,
    chain: &Vec<&Graph>,
    global: &Graph,
    path: &Vec<usize>,
) -> (r: Result<Resolution, BuildError>)
    requires
        chain_wf(chain@),
        global.wf(),
    ensures
        r matches Ok(res) ==> injectable_ok(p@, chain_view(chain@), global@)
            && res@ == resolution(m, p@, chain_view(chain@), global@),
        r matches Err(e) ==> match e {
            BuildError::UnresolvedDependency { module, injectable, dependency, name, path: at } => module == m
                && injectable == p.key && unresolved_in(p@, chain_view(chain@), global@, dependency)
                && at@ == path@,
            BuildError::AmbiguousQualifier { module, injectable, dependency, name, path: at } => module == m
                && injectable == p.key && ambiguous_in(p@, chain_view(chain@), dependency) && at@ == path@,
            _ => false,
        },
{
    let ghost cv = chain_view(chain@);
    match p.scope {
        Scope::Global => {
            match global.get(p.key) {
                Some(inst) => {
                    let res = Resolution { instance: inst, dependencies: Vec::new() };
                    assert(res@.dependencies =~= Seq::<Instance>::empty());
                    Ok(res)
                },
                None => Err(
                    BuildError::UnresolvedDependency {
                        module: m,
                        injectable: p.key,
                        dependency: p.key,
                        name: String::new(),
                        path: copy_path(path),
                    },
                ),
            }
        },
        Scope::Module => {
            let mut deps: Vec<Instance> = Vec::new();
            let mut t: usize = 0;
            while t < p.dependencies.len()
                invariant
                    0 <= t <= p.dependencies@.len(),
                    cv == chain_view(chain@),
                    chain_wf(chain@),
                    p.scope == Scope::Module,
                    deps@ == p@.deps.take(t as int).map_values(|k: TypeKey| resolved(cv, k)),
                    forall|q: int| 0 <= q < t ==> (#[trigger] lookup_spec(cv, p@.deps[q])) is Ok,
                decreases p.dependencies@.len() - t,
            {
                let d = &p.dependencies[t];
                assert(p@.deps[t as int] == d.key);
                match lookup(chain, d.key) {
                    Ok(v) => {
                        deps.push(v);
                        assert(p@.deps.take(t + 1).map_values(|k: TypeKey| resolved(cv, k))
                            =~= p@.deps.take(t as int).map_values(|k: TypeKey| resolved(cv, k)).push(v));
                    },
                    Err(LookupError::Unresolved) => {
                        assert(p@.deps.contains(d.key));
                        return Err(
                            BuildError::UnresolvedDependency {
                                module: m,
                                injectable: p.key,
                                dependency: d.key,
                                name: d.name.clone(),
                                path: copy_path(path),
                            },
                        );
                    },
                    Err(LookupError::Ambiguous) => {
                        assert(p@.deps.contains(d.key));
                        return Err(
                            BuildError::AmbiguousQualifier {
                                module: m,
                                injectable: p.key,
                                dependency: d.key,
                                name: d.name.clone(),
                                path: copy_path(path),
                            },
                        );
                    },
                }
                t = t + 1;
            }
            assert(p@.deps.take(t as int) =~= p@.deps);
            Ok(Resolution { instance: Instance { owner: Owner::Module(m), key: p.key }, dependencies: deps })
        },
    }
}

/// The exec search chain over the arena is the declared one.
proof fn lemma_chain(
    cat: Seq<ModuleView>,
    v: ContextView,
    m: usize,
    imported: Seq<usize>,
    local: Map<TypeKey, Instance>,
)
    requires
        context_ok(cat, v),
        (m as int) < cat.len(),
        imported.len() == cat[m as int].imports.len(),
        forall|q: int| 0 <= q < imported.len() ==> (#[trigger] cat[m as int].imports[q] as int) < cat.len()
            && v.marks[cat[m as int].imports[q] as int] == Mark::Built(imported[q]),
    ensures
        seq![local] + imported.map_values(|i: usize| v.modules[i as int].exported) + seq![v.global]
            == search_chain(cat, v.global, m, local),
{
    let a = imported.map_values(|i: usize| v.modules[i as int].exported);
    let b = cat[m as int].imports.map_values(|i: usize| exported_graph(cat, v.global, i));
    assert forall|q: int| 0 <= q < a.len() implies a[q] == b[q] by {
        let x = cat[m as int].imports[q];
        assert(v.marks[x as int] is Built);
        assert(built_ok(cat, v, x, imported[q]));
    }
    assert(a =~= b);
}

/// An error from resolving the `j`-th provider of a reachable module is a
/// fault of the tree.
proof fn lemma_provider_error(
    cat: Seq<ModuleView>,
    global: Map<TypeKey, Instance>,
    root: usize,
    m: usize,
    j: int,
    e: BuildError,
)
    requires
        (m as int) < cat.len(),
        0 <= j < cat[m as int].providers.len(),
        match e {
            BuildError::UnresolvedDependency { module, injectable, dependency, name, path } => module == m
                && path_to(cat, root, path@, m)
                && injectable == cat[m as int].providers[j].key
                && unresolved_in(cat[m as int].providers[j], provider_chain(cat, global, m, j), global, dependency),
            BuildError::AmbiguousQualifier { module, injectable, dependency, name, path } => module == m
                && path_to(cat, root, path@, m)
                && injectable == cat[m as int].providers[j].key
                && ambiguous_in(cat[m as int].providers[j], provider_chain(cat, global, m, j), dependency),
            _ => false,
        },
    ensures
        witnesses(cat, global, root, e),
{
}

/// An error from resolving the `c`-th client of a reachable module is a
/// fault of the tree.
proof fn lemma_client_error(
    cat: Seq<ModuleView>,
    global: Map<TypeKey, Instance>,
    root: usize,
    m: usize,
    c: int,
    e: BuildError,
)
    requires
        (m as int) < cat.len(),
        0 <= c < cat[m as int].clients.len(),
        match e {
            BuildError::UnresolvedDependency { module, injectable, dependency, name, path } => module == m
                && path_to(cat, root, path@, m)
                && injectable == cat[m as int].clients[c].key
                && unresolved_in(cat[m as int].clients[c], client_chain(cat, global, m), global, dependency),
            BuildError::AmbiguousQualifier { module, injectable, dependency, name, path } => module == m
                && path_to(cat, root, path@, m)
                && injectable == cat[m as int].clients[c].key
                && ambiguous_in(cat[m as int].clients[c], client_chain(cat, global, m), dependency),
            _ => false,
        },
    ensures
        witnesses(cat, global, root, e),
{
}

/// Builds declaration `m`, and before it every import not built yet.
fn build_module(
    cat: &Vec<Module>,
    ctx: &mut ApplicationContext,
    m: usize,
    Ghost(root): Ghost<usize>,
    trail: &Vec<usize>,
) -> (r: Result<usize, BuildError>)
    requires
        old(ctx).wf(),
        context_ok(catalog_view(cat@), old(ctx)@),
        (m as int) < cat@.len(),
        old(ctx)@.marks[m as int] == Mark::Unvisited,
        stack_ok(catalog_view(cat@), old(ctx)@.marks, root, trail@),
        if trail@.len() == 0 {
            m == root
        } else {
            imports_edge(catalog_view(cat@), trail@.last(), m)
        },
    ensures
        r matches Err(e) ==> witnesses(catalog_view(cat@), old(ctx)@.global, root, e),
        r matches Ok(idx) ==> {
            &&& final(ctx).wf()
            &&& context_ok(catalog_view(cat@), final(ctx)@)
            &&& extends(old(ctx)@, final(ctx)@)
            &&& final(ctx)@.marks[m as int] == Mark::Built(idx)
        },
    decreases cat@.len() - trail@.len(),
{
    let ghost cv = catalog_view(cat@);
    let ghost g = ctx@.global;
    let ghost v0 = ctx@;
    let here = extend_path(trail, m);
    let ghost path = here@;
    let ghost stack = trail@;
    proof {
        assert(!stack.contains(m)) by {
            if stack.contains(m) {
                let i = choose|i: int| 0 <= i < stack.len() && stack[i] == m;
                assert(v0.marks[stack[i] as int] == Mark::Building);
            }
        }
        assert(path.no_duplicates()) by {
            assert forall|i: int, j: int| 0 <= i < path.len() && 0 <= j < path.len() && i != j
                implies path[i] != path[j] by {
                if i < stack.len() && j < stack.len() {
                    assert(stack[i] != stack[j]);
                } else if i < stack.len() {
                    assert(stack.contains(stack[i]));
                } else if j < stack.len() {
                    assert(stack.contains(stack[j]));
                }
            }
        }
        assert forall|i: int| 0 <= i < path.len() implies (#[trigger] path[i] as int) < cv.len() by {
            if i < stack.len() {
                assert(path[i] == stack[i]);
            }
        }
        lemma_distinct_bounded(path, cv.len() as int);
        assert(is_import_path(cv, path)) by {
            assert forall|i: int| 0 <= i < path.len() - 1 implies #[trigger] imports_edge(cv, path[i], path[i + 1]) by {
                if i < stack.len() - 1 {
                    assert(path[i] == stack[i] && path[i + 1] == stack[i + 1]);
                    assert(imports_edge(cv, stack[i], stack[i + 1]));
                } else {
                    assert(path[i] == stack.last() && path[i + 1] == m);
                }
            }
        }
    }
    ctx.marks.set(m, Mark::Building);
    let d: &Module = &cat[m];
    assert(cv[m as int] == d@);
    proof {
        assert(stack_ok(cv, ctx@.marks, root, path)) by {
            assert forall|i: int| 0 <= i < path.len() implies (#[trigger] path[i] as int) < cv.len()
                && ctx@.marks[path[i] as int] == Mark::Building by {
                if i < stack.len() {
                    assert(path[i] == stack[i]);
                }
            }
            assert forall|x: usize| (x as int) < ctx@.marks.len() && #[trigger] ctx@.marks[x as int] == Mark::Building
                implies path.contains(x) by {
                if x != m {
                    assert(v0.marks[x as int] == Mark::Building);
                    let i = choose|i: int| 0 <= i < stack.len() && stack[i] == x;
                    assert(path[i] == stack[i]);
                } else {
                    assert(path[path.len() - 1] == m);
                }
            }
        }
        assert(context_ok(cv, ctx@)) by {
            assert forall|x: usize| (x as int) < cv.len() && #[trigger] ctx@.marks[x as int] is Built
                implies built_ok(cv, ctx@, x, ctx@.marks[x as int]->Built_0) by {
                assert(v0.marks[x as int] is Built);
                assert(built_ok(cv, v0, x, v0.marks[x as int]->Built_0));
                let r = v0.modules[v0.marks[x as int]->Built_0 as int];
                assert forall|k: int| 0 <= k < cv[x as int].imports.len() implies ctx@.marks[cv[x as int].imports[k] as int]
                    == Mark::Built(#[trigger] r.imports[k]) by {
                    assert(v0.marks[cv[x as int].imports[k] as int] == Mark::Built(r.imports[k]));
                }
            }
            assert forall|i: int| 0 <= i < ctx@.modules.len() implies (#[trigger] ctx@.modules[i].id as int)
                < cv.len() && ctx@.marks[ctx@.modules[i].id as int] == Mark::Built(i as usize) by {
                assert(v0.marks[v0.modules[i].id as int] == Mark::Built(i as usize));
            }
        }
    }
    let mut imported: Vec<usize> = Vec::new();
    let mut k: usize = 0;
    while k < d.imports.len()
        invariant
            0 <= k <= d.imports@.len(),
            cv == catalog_view(cat@),
            v0 == old(ctx)@,
            g == v0.global,
            cv[m as int] == d@,
            (m as int) < cv.len(),
            ctx.wf(),
            context_ok(cv, ctx@),
            ctx@.global == g,
            ctx@.marks.len() == v0.marks.len(),
            v0.modules.is_prefix_of(ctx@.modules),
            forall|x: int| 0 <= x < v0.marks.len() && x != m ==> (#[trigger] v0.marks[x] == Mark::Building
                <==> ctx@.marks[x] == Mark::Building),
            forall|x: int| 0 <= x < v0.marks.len() && #[trigger] v0.marks[x] is Built ==> ctx@.marks[x] == v0.marks[x],
            ctx@.marks[m as int] == Mark::Building,
            stack_ok(cv, ctx@.marks, root, path),
            is_import_path(cv, path),
            path[0] == root,
            path.last() == m,
            path.len() <= cv.len(),
            path == stack.push(m),
            here@ == path,
            stack == trail@,
            imported@.len() == k,
            cv.len() == cat@.len(),
            forall|q: int| 0 <= q < k ==> (#[trigger] d.imports@[q] as int) < cv.len()
                && ctx@.marks[d.imports@[q] as int] == Mark::Built(imported@[q]),
        decreases d.imports@.len() - k,
    {
        let i = d.imports[k];
        let ghost next = path.push(i);
        proof {
            assert(cv[m as int].imports[k as int] == i);
            assert(imports_edge(cv, m, i));
            assert(is_import_path(cv, next) && next[0] == root && next.last() == i) by {
                assert forall|q: int| 0 <= q < next.len() - 1 implies #[trigger] imports_edge(cv, next[q], next[q + 1]) by {
                    if q < path.len() - 1 {
                        assert(next[q] == path[q] && next[q + 1] == path[q + 1]);
                    }
                }
            }
        }
        if i >= cat.len() {
            assert(reachable(cv, root, i));
            return Err(BuildError::UnknownModule { module: i, path: extend_path(&here, i) });
        }
        match ctx.marks[i] {
            Mark::Building => {
                proof {
                    assert(path.contains(i));
                    let q = choose|q: int| 0 <= q < path.len() && path[q] == i;
                    assert(next[q] == i);
                }
                return Err(BuildError::CyclicImport { module: i, path: extend_path(&here, i) });
            },
            Mark::Built(idx) => {
                imported.push(idx);
            },
            Mark::Unvisited => {
                let ghost v1 = ctx@;
                assert(path.len() <= cat@.len());
                assert(cat@.len() - path.len() < cat@.len() - stack.len());
                match build_module(cat, ctx, i, Ghost(root), &here) {
                    Ok(idx) => {
                        imported.push(idx);
                        proof {
                            assert forall|x: int| 0 <= x < v0.marks.len() && #[trigger] v0.marks[x] is Built
                                implies ctx@.marks[x] == v0.marks[x] by {
                                assert(v1.marks[x] is Built);
                            }
                            assert forall|x: int| 0 <= x < v0.marks.len() && x != m implies (#[trigger] v0.marks[x] == Mark::Building
                                <==> ctx@.marks[x] == Mark::Building) by {
                                assert(v1.marks[x] == Mark::Building <==> ctx@.marks[x] == Mark::Building);
                            }
                            assert forall|x: usize| (x as int) < ctx@.marks.len() && #[trigger] ctx@.marks[x as int] == Mark::Building
                                implies path.contains(x) by {
                                assert(v1.marks[x as int] == Mark::Building);
                            }
                            assert forall|q: int| 0 <= q < path.len() implies ctx@.marks[#[trigger] path[q] as int] == Mark::Building by {
                                assert(v1.marks[path[q] as int] == Mark::Building);
                            }
                            assert forall|q: int| 0 <= q < k implies ctx@.marks[#[trigger] d.imports@[q] as int] == Mark::Built(imported@[q]) by {
                                assert(v1.marks[d.imports@[q] as int] is Built);
                            }
                        }
                    },
                    Err(e) => {
                        return Err(e);
                    },
                }
            },
        }
        k = k + 1;
    }
    let ghost vi = ctx@;
    proof {
        assert(is_import_path(cv, path) && path[0] == root && path.last() == m);
        assert(reachable(cv, root, m));
        assert forall|q: int| 0 <= q < imported@.len() implies (#[trigger] imported@[q] as int) < ctx.modules@.len() by {
            let x = d.imports@[q];
            assert(built_ok(cv, vi, x, imported@[q]));
        }
    }

    let mut graph = Graph::new();
    let mut providers: Vec<Resolution> = Vec::new();
    let mut j: usize = 0;
    while j < d.providers.len()
        invariant
            0 <= j <= d.providers@.len(),
            cv == catalog_view(cat@),
            v0 == old(ctx)@,
            g == v0.global,
            cv[m as int] == d@,
            (m as int) < cv.len(),
            ctx.wf(),
            ctx@ == vi,
            context_ok(cv, vi),
            vi.global == g,
            imported@.len() == d.imports@.len(),
            forall|q: int| 0 <= q < imported@.len() ==> (#[trigger] d.imports@[q] as int) < cv.len()
                && vi.marks[d.imports@[q] as int] == Mark::Built(imported@[q]),
            forall|q: int| 0 <= q < imported@.len() ==> (#[trigger] imported@[q] as int) < ctx.modules@.len(),
            graph.wf(),
            graph@ == local_graph(d@, m, g, j as int),
            providers@.len() == j,
            providers@.map_values(|x: Resolution| x@) == Seq::new(
                j as nat,
                |q: int| resolution(m, d@.providers[q], provider_chain(cv, g, m, q), g),
            ),
            forall|q: int| 0 <= q < j ==> #[trigger] provider_ok(cv, g, m, q),
            reachable(cv, root, m),
            path_to(cv, root, path, m),
            here@ == path,
        decreases d.providers@.len() - j,
    {
        let p = &d.providers[j];
        assert(d@.providers[j as int] == p@);
        let res = {
            let chain = make_chain(&graph, &imported, &ctx.modules, &ctx.global);
            proof {
                lemma_chain(cv, vi, m, imported@, graph@);
                assert(imported@.map_values(|i: usize| ctx.modules@[i as int]@.exported)
                    =~= imported@.map_values(|i: usize| vi.modules[i as int].exported));
            }
            let res = resolve_injectable(m, p, &chain, &ctx.global, &here);
            proof {
                assert(chain_view(chain@) == provider_chain(cv, g, m, j as int));
                if res is Err {
                    lemma_provider_error(cv, g, root, m, j as int, res->Err_0);
                }
            }
            res
        };
        match res {
            Err(e) => {
                return Err(e);
            },
            Ok(rec) => {
                let key = p.key;
                let inst = rec.instance;
                match graph.insert(key, inst) {
                    Err(_) => {
                        proof {
                            assert(local_graph(d@, m, g, j as int).contains_key(key));
                        }
                        return Err(BuildError::DuplicateKey { module: m, key, path: copy_path(&here) });
                    },
                    Ok(()) => {},
                }
                let ghost before = providers@;
                providers.push(rec);
                proof {
                    assert(provider_ok(cv, g, m, j as int));
                    assert(providers@ == before.push(rec));
                    assert forall|q: int| 0 <= q < j + 1 implies (#[trigger] providers@[q])@ == resolution(
                        m, d@.providers[q], provider_chain(cv, g, m, q), g) by {
                        if q < j {
                            assert(providers@[q] == before[q]);
                            assert(before.map_values(|x: Resolution| x@)[q] == before[q]@);
                        }
                    }
                    assert(providers@.map_values(|x: Resolution| x@) =~= Seq::new(
                        (j + 1) as nat,
                        |q: int| resolution(m, d@.providers[q], provider_chain(cv, g, m, q), g),
                    ));
                }
            },
        }
        j = j + 1;
    }

    let mut clients: Vec<Resolution> = Vec::new();
    {
        let chain = make_chain(&graph, &imported, &ctx.modules, &ctx.global);
        proof {
            lemma_chain(cv, vi, m, imported@, graph@);
            assert(imported@.map_values(|i: usize| ctx.modules@[i as int]@.exported)
                =~= imported@.map_values(|i: usize| vi.modules[i as int].exported));
            assert(chain_view(chain@) == client_chain(cv, g, m));
        }
        let mut c: usize = 0;
        while c < d.clients.len()
            invariant
                0 <= c <= d.clients@.len(),
                cv == catalog_view(cat@),
                v0 == old(ctx)@,
                g == v0.global,
                cv[m as int] == d@,
                (m as int) < cv.len(),
                ctx.wf(),
                chain_wf(chain@),
                chain_view(chain@) == client_chain(cv, g, m),
                ctx@.global == g,
                clients@.len() == c,
                clients@.map_values(|x: Resolution| x@) == Seq::new(
                    c as nat,
                    |q: int| resolution(m, d@.clients[q], client_chain(cv, g, m), g),
                ),
                forall|q: int| 0 <= q < c ==> #[trigger] client_ok(cv, g, m, q),
                reachable(cv, root, m),
                path_to(cv, root, path, m),
                here@ == path,
            decreases d.clients@.len() - c,
        {
            let p = &d.clients[c];
            assert(d@.clients[c as int] == p@);
            match resolve_injectable(m, p, &chain, &ctx.global, &here) {
                Err(e) => {
                    proof {
                        lemma_client_error(cv, g, root, m, c as int, e);
                    }
                    return Err(e);
                },
                Ok(rec) => {
                    let ghost before = clients@;
                    clients.push(rec);
                    proof {
                        assert(client_ok(cv, g, m, c as int));
                        assert(rec@ == resolution(m, d@.clients[c as int], client_chain(cv, g, m), g));
                        assert(clients@ == before.push(rec));
                        assert forall|q: int| 0 <= q < c + 1 implies (#[trigger] clients@[q])@ == resolution(
                            m, d@.clients[q], client_chain(cv, g, m), g) by {
                            if q < c {
                                assert(clients@[q] == before[q]);
                                assert(before.map_values(|x: Resolution| x@)[q] == before[q]@);
                            }
                        }
                        assert(clients@.map_values(|x: Resolution| x@) =~= Seq::new(
                            (c + 1) as nat,
                            |q: int| resolution(m, d@.clients[q], client_chain(cv, g, m), g),
                        ));
                    }
                },
            }
            c = c + 1;
        }
    }

    let mut e: usize = 0;
    while e < d.exports.len()
        invariant
            0 <= e <= d.exports@.len(),
            cv == catalog_view(cat@),
            v0 == old(ctx)@,
            g == v0.global,
            graph.wf(),
            forall|q: int| 0 <= q < e ==> graph@.contains_key(#[trigger] d.exports@[q]),
            reachable(cv, root, m),
            path_to(cv, root, path, m),
            here@ == path,
            cv[m as int] == d@,
            (m as int) < cv.len(),
            graph@ == module_graph(d@, m, g),
        decreases d.exports@.len() - e,
    {
        let key = d.exports[e];
        if !graph.contains(key) {
            proof {
                assert(cv[m as int].exports[e as int] == key);
            }
            return Err(BuildError::UnknownExport { module: m, key, path: copy_path(&here) });
        }
        e = e + 1;
    }

    let exported = graph.filter_by(&d.exports);
    let idx = ctx.modules.len();
    let ghost modules_before = ctx.modules@;
    ctx.modules.push(ResolvedModule { id: m, graph, exported, imports: imported, providers, clients });
    ctx.marks.set(m, Mark::Built(idx));
    proof {
        let v = ctx@;
        assert(module_ok(cv, g, m));
        assert(v.modules =~= vi.modules.push(v.modules[idx as int]));
        assert(v.modules[idx as int] == resolved_spec(cv, g, m, imported@));
        assert(built_ok(cv, v, m, idx)) by {
            assert forall|q: int| 0 <= q < d@.imports.len() implies v.marks[d@.imports[q] as int]
                == Mark::Built(#[trigger] v.modules[idx as int].imports[q]) && v.modules[idx as int].imports[q] < idx by {
                assert(vi.marks[d.imports@[q] as int] == Mark::Built(imported@[q]));
                assert(d.imports@[q] != m);
            }
        }
        assert forall|x: usize| (x as int) < cv.len() && #[trigger] v.marks[x as int] is Built
            implies built_ok(cv, v, x, v.marks[x as int]->Built_0) by {
            if x != m {
                assert(vi.marks[x as int] is Built);
                let ix = vi.marks[x as int]->Built_0;
                assert(built_ok(cv, vi, x, ix));
                let r = vi.modules[ix as int];
                assert(v.modules[ix as int] == r);
                assert forall|q: int| 0 <= q < cv[x as int].imports.len() implies v.marks[cv[x as int].imports[q] as int]
                    == Mark::Built(#[trigger] r.imports[q]) by {
                    assert(vi.marks[cv[x as int].imports[q] as int] == Mark::Built(r.imports[q]));
                }
            }
        }
        assert forall|i: int| 0 <= i < v.modules.len() implies (#[trigger] v.modules[i].id as int) < cv.len()
            && v.marks[v.modules[i].id as int] == Mark::Built(i as usize) by {
            if i < vi.modules.len() {
                assert(v.modules[i] == vi.modules[i]);
                assert(vi.marks[vi.modules[i].id as int] == Mark::Built(i as usize));
            }
        }
        assert(context_ok(cv, v));
        assert(v0.modules.is_prefix_of(v.modules));
        assert forall|x: int| 0 <= x < v0.marks.len() implies (#[trigger] v0.marks[x] == Mark::Building
            <==> v.marks[x] == Mark::Building) by {
            if x != m as int {
                assert(v0.marks[x] == Mark::Building <==> vi.marks[x] == Mark::Building);
            }
        }
        assert(extends(v0, v));
        assert forall|i: int| 0 <= i < ctx.modules@.len() implies (#[trigger] ctx.modules@[i]).wf() by {
            if i < modules_before.len() {
                assert(ctx.modules@[i] == modules_before[i]);
            }
        }
    }
    Ok(idx)
}

/// Along a walk of imports that starts at a built module, every module is
/// built, at ever earlier arena positions.
proof fn lemma_paths_built(cat: Seq<ModuleView>, v: ContextView, p: Seq<usize>)
    requires
        context_ok(cat, v),
        is_import_path(cat, p),
        (p[0] as int) < cat.len(),
        v.marks[p[0] as int] is Built,
    ensures
        forall|i: int| 0 <= i < p.len() ==> (#[trigger] p[i] as int) < cat.len() && v.marks[p[i] as int] is Built,
        forall|i: int, j: int| 0 <= i < j < p.len() ==> (v.marks[#[trigger] p[j] as int]->Built_0 as int)
            < (v.marks[#[trigger] p[i] as int]->Built_0 as int),
    decreases p.len(),
{
    if p.len() > 1 {
        let q = p.drop_last();
        assert forall|i: int| 0 <= i < q.len() - 1 implies #[trigger] imports_edge(cat, q[i], q[i + 1]) by {
            assert(imports_edge(cat, p[i], p[i + 1]));
        }
        lemma_paths_built(cat, v, q);
        let n = p.len() - 1;
        let a = p[n - 1];
        let b = p[n];
        assert(q[n - 1] == a);
        let e = n - 1;
        assert(imports_edge(cat, p[e], p[e + 1]));
        assert(e + 1 == n);
        let k = choose|k: int| 0 <= k < cat[a as int].imports.len() && cat[a as int].imports[k] == b;
        let ia = v.marks[a as int]->Built_0;
        assert(built_ok(cat, v, a, ia));
        let r = v.modules[ia as int];
        assert(v.marks[cat[a as int].imports[k] as int] == Mark::Built(r.imports[k]));
        assert((cat[a as int].imports[k] as int) < cat.len());
        assert forall|i: int| 0 <= i < p.len() implies (#[trigger] p[i] as int) < cat.len() && v.marks[p[i] as int] is Built by {
            if i < n {
                assert(p[i] == q[i]);
            }
        }
        assert forall|i: int, j: int| 0 <= i < j < p.len() implies (v.marks[#[trigger] p[j] as int]->Built_0 as int)
            < (v.marks[#[trigger] p[i] as int]->Built_0 as int) by {
            if j < n {
                assert(p[i] == q[i] && p[j] == q[j]);
            } else if i < n - 1 {
                assert(p[i] == q[i] && a == q[n - 1]);
                assert((v.marks[q[n - 1] as int]->Built_0 as int) < (v.marks[q[i] as int]->Built_0 as int));
            }
        }
    }
}

/// A successful pass from `root` shows that the tree under it is sound.
proof fn lemma_built_sound(cat: Seq<ModuleView>, v: ContextView, root: usize)
    requires
        context_ok(cat, v),
        (root as int) < cat.len(),
        v.marks[root as int] is Built,
    ensures
        sound(cat, v.global, root),
        forall|m: usize| #[trigger] reachable(cat, root, m) ==> (m as int) < cat.len() && v.marks[m as int] is Built,
{
    assert forall|p: Seq<usize>| #[trigger] is_import_path(cat, p) && p[0] == root implies p.no_duplicates() by {
        lemma_paths_built(cat, v, p);
        assert forall|i: int, j: int| 0 <= i < p.len() && 0 <= j < p.len() && i != j implies p[i] != p[j] by {
            if i < j {
                assert((v.marks[p[j] as int]->Built_0 as int) < (v.marks[p[i] as int]->Built_0 as int));
            } else {
                assert((v.marks[p[i] as int]->Built_0 as int) < (v.marks[p[j] as int]->Built_0 as int));
            }
        }
    }
    assert forall|m: usize| #[trigger] reachable(cat, root, m) implies (m as int) < cat.len()
        && v.marks[m as int] is Built && module_ok(cat, v.global, m) by {
        let p = choose|p: Seq<usize>| #[trigger] is_import_path(cat, p) && p[0] == root && p.last() == m;
        lemma_paths_built(cat, v, p);
        assert(p[p.len() - 1] == m);
        assert(built_ok(cat, v, m, v.marks[m as int]->Built_0));
    }
}

/// What a finished build holds: the global graph it was seeded with, a
/// faithful frozen module for each declaration reached from the root, each
/// built once, and the arena position of the root.
pub struct ApplicationView {
    pub context: ContextView,
    pub root: usize,
}

/// `a` is the outcome of building the tree under `root`.
pub open spec fn built_app(cat: Seq<ModuleView>, global: Map<TypeKey, Instance>, root: usize, a: ApplicationView) -> bool {
    &&& a.context.global == global
    &&& context_ok(cat, a.context)
    &&& (root as int) < cat.len()
    &&& a.context.marks[root as int] == Mark::Built(a.root)
    &&& forall|m: usize| #[trigger] reachable(cat, root, m) ==> (m as int) < cat.len()
        && a.context.marks[m as int] is Built
}

/// A registered client: the identity of the module that declares it and its
/// instance.
#[derive(Clone, Copy, Debug, PartialEq, Eq, Structural)]
pub struct Mount {
    pub module: usize,
    pub instance: Instance,
}

/// The clients that a frozen module registers itself.
pub open spec fn own_mounts(r: ResolvedModuleView) -> Seq<Mount> {
    r.clients.map_values(|c: ResolutionView| Mount { module: r.id, instance: c.instance })
}

/// What registering the module at arena position `i` mounts: its own
/// clients, then what each of its imports mounts, in import order.
pub open spec fn mounts(mods: Seq<ResolvedModuleView>, i: int) -> Seq<Mount>
    decreases i, 1int, 0int,
{
    if 0 <= i < mods.len() {
        own_mounts(mods[i]) + import_mounts(mods, i, 0)
    } else {
        Seq::empty()
    }
}

/// What the imports of the module at position `i` mount, from the `k`-th on.
pub open spec fn import_mounts(mods: Seq<ResolvedModuleView>, i: int, k: int) -> Seq<Mount>
    decreases i, 0int, mods[i].imports.len() - k,
{
    if 0 <= i < mods.len() && 0 <= k < mods[i].imports.len() {
        let j = mods[i].imports[k] as int;
        (if j < i {
            mounts(mods, j)
        } else {
            Seq::empty()
        }) + import_mounts(mods, i, k + 1)
    } else {
        Seq::empty()
    }
}

/// A built application: the context of its single build pass and the arena
/// position of its root module.
pub struct Application {
    context: ApplicationContext,
    root: usize,
}

impl View for Application {
    type V = ApplicationView;

    closed spec fn view(&self) -> ApplicationView {
        ApplicationView { context: self.context@, root: self.root }
    }
}

impl Application {
    pub closed spec fn wf(&self) -> bool {
        &&& self.context.wf()
        &&& (self.root as int) < self.context.modules@.len()
        &&& forall|i: int, k: int| 0 <= i < self.context.modules@.len() && 0 <= k < self.context.modules@[i].imports@.len()
            ==> (#[trigger] self.context.modules@[i].imports@[k] as int) < i
    }

    /// The arena position of the root module.
    pub fn root_index(&self) -> (r: usize)
        ensures
            r == self@.root,
    {
        self.root
    }

    /// The number of frozen modules.
    pub fn module_count(&self) -> (r: usize)
        ensures
            r == self@.context.modules.len(),
    {
        self.context.modules.len()
    }

    /// The frozen module at arena position `i`.
    pub fn module(&self, i: usize) -> (r: &ResolvedModule)
        requires
            self.wf(),
            (i as int) < self@.context.modules.len(),
        ensures
            r@ == self@.context.modules[i as int],
            r.wf(),
    {
        &self.context.modules[i]
    }

    /// The frozen root module.
    pub fn root_module(&self) -> (r: &ResolvedModule)
        requires
            self.wf(),
        ensures
            r@ == self@.context.modules[self@.root as int],
            r.wf(),
    {
        &self.context.modules[self.root]
    }

    /// The arena position of the module built from declaration `id`, if it
    /// was built.
    pub fn index_of(&self, id: usize) -> (r: Option<usize>)
        ensures
            r == (if (id as int) < self@.context.marks.len() && self@.context.marks[id as int] is Built {
                Some(self@.context.marks[id as int]->Built_0)
            } else {
                None::<usize>
            }),
    {
        if id < self.context.marks.len() {
            match self.context.marks[id] {
                Mark::Built(i) => Some(i),
                _ => None,
            }
        } else {
            None
        }
    }

    /// The global provider graph.
    pub fn global(&self) -> (r: &Graph)
        ensures
            r@ == self@.context.global,
    {
        &self.context.global
    }

    /// Registers the clients of the module at arena position `i` into
    /// `config`, then, recursively, those of each of its imports.
    pub fn register_module(&self, i: usize, config: &mut Vec<Mount>)
        requires
            self.wf(),
            (i as int) < self@.context.modules.len(),
        ensures
            final(config)@ == old(config)@ + mounts(self@.context.modules, i as int),
        decreases i,
    {
        let ghost mods = self@.context.modules;
        let r = &self.context.modules[i];
        assert(mods[i as int] == r@);
        let ghost start = config@;
        let mut c: usize = 0;
        while c < r.clients.len()
            invariant
                0 <= c <= r.clients@.len(),
                mods[i as int] == r@,
                config@ == start + own_mounts(r@).take(c as int),
            decreases r.clients@.len() - c,
        {
            config.push(Mount { module: r.id, instance: r.clients[c].instance });
            proof {
                assert(r@.clients[c as int] == r.clients@[c as int]@);
                assert(own_mounts(r@).take(c + 1) =~= own_mounts(r@).take(c as int).push(
                    Mount { module: r.id, instance: r.clients@[c as int].instance },
                ));
                assert(config@ =~= start + own_mounts(r@).take(c + 1));
            }
            c = c + 1;
        }
        assert(own_mounts(r@).take(c as int) =~= own_mounts(r@));
        let ghost mid = config@;
        let mut k: usize = 0;
        while k < r.imports.len()
            invariant
                0 <= k <= r.imports@.len(),
                self.wf(),
                (i as int) < mods.len(),
                mods == self@.context.modules,
                mods[i as int] == r@,
                r == &self.context.modules@[i as int],
                mid == start + own_mounts(r@),
                config@ + import_mounts(mods, i as int, k as int) == mid + import_mounts(mods, i as int, 0),
            decreases r.imports@.len() - k,
        {
            let j = r.imports[k];
            assert(r@.imports[k as int] == j);
            assert((j as int) < i);
            let ghost before = config@;
            self.register_module(j, config);
            proof {
                assert(import_mounts(mods, i as int, k as int) == mounts(mods, j as int) + import_mounts(
                    mods,
                    i as int,
                    k + 1,
                ));
                assert(config@ + import_mounts(mods, i as int, k + 1) =~= before + import_mounts(mods, i as int, k as int));
            }
            k = k + 1;
        }
        proof {
            assert(import_mounts(mods, i as int, k as int) == Seq::<Mount>::empty());
            assert(config@ =~= config@ + import_mounts(mods, i as int, k as int));
            assert(mounts(mods, i as int) == own_mounts(r@) + import_mounts(mods, i as int, 0));
            assert(config@ =~= start + mounts(mods, i as int));
        }
    }

    /// Registers every client of the application into `config`: those of the
    /// root module, then, recursively, those of each import.
    pub fn register(&self, config: &mut Vec<Mount>)
        requires
            self.wf(),
        ensures
            final(config)@ == old(config)@ + mounts(self@.context.modules, self@.root as int),
    {
        self.register_module(self.root, config);
    }
}

/// Builds the module tree under declaration `root` of `catalog` in one
/// depth-first pass: each import is built before its importer and at most
/// once, then the module's providers in declaration order, then its clients;
/// then its exported view is computed and the module frozen.
///
/// The pass succeeds exactly when the tree is sound; otherwise the error
/// names a fault present in the tree.
pub fn build(catalog: &Vec<Module>, global: Graph, root: usize) -> (r: Result<Application, BuildError>)
    requires
        global.wf(),
    ensures
        r is Ok <==> sound(catalog_view(catalog@), global@, root),
        r matches Err(e) ==> witnesses(catalog_view(catalog@), global@, root, e),
        r matches Ok(app) ==> app.wf() && built_app(catalog_view(catalog@), global@, root, app@),
{
    let ghost cv = catalog_view(catalog@);
    if root >= catalog.len() {
        proof {
            let p = seq![root];
            assert(is_import_path(cv, p) && p[0] == root && p.last() == root);
        }
        let path = extend_path(&Vec::new(), root);
        proof {
            assert(path@ =~= seq![root]);
            lemma_witness_unsound(cv, global@, root, BuildError::UnknownModule { module: root, path });
        }
        return Err(BuildError::UnknownModule { module: root, path });
    }
    let mut marks: Vec<Mark> = Vec::new();
    let mut i: usize = 0;
    while i < catalog.len()
        invariant
            0 <= i <= catalog@.len(),
            marks@.len() == i,
            forall|q: int| 0 <= q < i ==> marks@[q] == Mark::Unvisited,
        decreases catalog@.len() - i,
    {
        marks.push(Mark::Unvisited);
        i = i + 1;
    }
    let mut ctx = ApplicationContext { global, marks, modules: Vec::new() };
    proof {
        assert(cv.len() == catalog@.len());
        assert(ctx@.modules =~= Seq::<ResolvedModuleView>::empty());
        assert(context_ok(cv, ctx@));
        assert(stack_ok(cv, ctx@.marks, root, Seq::<usize>::empty()));
    }
    let start: Vec<usize> = Vec::new();
    assert(start@ =~= Seq::<usize>::empty());
    match build_module(catalog, &mut ctx, root, Ghost(root), &start) {
        Ok(idx) => {
            let app = Application { context: ctx, root: idx };
            proof {
                let v = ctx@;
                lemma_built_sound(cv, v, root);
                assert(built_ok(cv, v, root, idx));
                assert forall|i: int, k: int| 0 <= i < app.context.modules@.len() && 0 <= k
                    < app.context.modules@[i].imports@.len()
                    implies (#[trigger] app.context.modules@[i].imports@[k] as int) < i by {
                    let id = v.modules[i].id;
                    assert(v.marks[id as int] == Mark::Built(i as usize));
                    assert(built_ok(cv, v, id, i as usize));
                    assert(v.modules[i].imports[k] == app.context.modules@[i].imports@[k]);
                }
            }
            Ok(app)
        },
        Err(e) => {
            proof {
                lemma_witness_unsound(cv, global@, root, e);
            }
            Err(e)
        },
    }
}

} // verus!
