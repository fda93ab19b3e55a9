use vstd::prelude::*;
use crate::context::{built_app, built_ok, ApplicationView, Mark};
use crate::key::{Instance, TypeKey};
use crate::lookup::{ambiguous, find_from, lookup_spec, LookupError};
use crate::model::{client_chain, client_ok, exported_graph, local_graph, module_graph, provider_chain, provider_ok};
use crate::module::{ModuleView, Scope};

verus! {

/// The exported view of a frozen module is the part of its graph that its
/// declaration exports, and filtering that view by the exports again leaves
/// it as it is: asking for the view a second time gives the same membership.
pub proof fn law_exported_view_idempotent(
    cat: Seq<ModuleView>,
    global: Map<TypeKey, Instance>,
    root: usize,
    a: ApplicationView,
    i: usize,
)
    requires
        built_app(cat, global, root, a),
        (i as int) < a.context.modules.len(),
    ensures
        a.context.modules[i as int].exported == a.context.modules[i as int].graph.restrict(
            cat[a.context.modules[i as int].id as int].exports.to_set(),
        ),
        a.context.modules[i as int].exported.restrict(cat[a.context.modules[i as int].id as int].exports.to_set())
            == a.context.modules[i as int].exported,
{
    let r = a.context.modules[i as int];
    assert(a.context.marks[r.id as int] == Mark::Built(i));
    assert(built_ok(cat, a.context, r.id, i));
    assert(r.exported.restrict(cat[r.id as int].exports.to_set()) =~= r.exported);
}

/// A module imported by several modules is built once and shared: the
/// import slots that name it, in whichever importers, all point at the same
/// frozen module, which is the one built from that declaration.
pub proof fn law_shared_import(
    cat: Seq<ModuleView>,
    global: Map<TypeKey, Instance>,
    root: usize,
    a: ApplicationView,
    b: usize,
    kb: int,
    c: usize,
    kc: int,
)
    requires
        built_app(cat, global, root, a),
        (b as int) < a.context.modules.len(),
        (c as int) < a.context.modules.len(),
        0 <= kb < cat[a.context.modules[b as int].id as int].imports.len(),
        0 <= kc < cat[a.context.modules[c as int].id as int].imports.len(),
        cat[a.context.modules[b as int].id as int].imports[kb] == cat[a.context.modules[c as int].id as int].imports[kc],
    ensures
        a.context.modules[b as int].imports[kb] == a.context.modules[c as int].imports[kc],
        a.context.modules[a.context.modules[b as int].imports[kb] as int].id == cat[a.context.modules[b as int].id as int].imports[kb],
{
    let rb = a.context.modules[b as int];
    let rc = a.context.modules[c as int];
    assert(a.context.marks[rb.id as int] == Mark::Built(b));
    assert(a.context.marks[rc.id as int] == Mark::Built(c));
    assert(built_ok(cat, a.context, rb.id, b));
    assert(built_ok(cat, a.context, rc.id, c));
    assert(a.context.marks[cat[rb.id as int].imports[kb] as int] == Mark::Built(rb.imports[kb]));
    assert(a.context.marks[cat[rc.id as int].imports[kc] as int] == Mark::Built(rc.imports[kc]));
    let x = rb.imports[kb];
    assert(a.context.marks[a.context.modules[x as int].id as int] == Mark::Built(x));
    assert(built_ok(cat, a.context, cat[rb.id as int].imports[kb], x));
}

/// No declaration is built twice: two arena positions that hold the same
/// declaration are one position.
pub proof fn law_built_once(
    cat: Seq<ModuleView>,
    global: Map<TypeKey, Instance>,
    root: usize,
    a: ApplicationView,
    i: usize,
    j: usize,
)
    requires
        built_app(cat, global, root, a),
        (i as int) < a.context.modules.len(),
        (j as int) < a.context.modules.len(),
        a.context.modules[i as int].id == a.context.modules[j as int].id,
    ensures
        i == j,
{
    assert(a.context.marks[a.context.modules[i as int].id as int] == Mark::Built(i));
    assert(a.context.marks[a.context.modules[j as int].id as int] == Mark::Built(j));
}

/// A key that module `m` does not export is absent from what `m` shows its
/// importers, whatever `m` provides.
pub proof fn law_unexported_hidden(cat: Seq<ModuleView>, global: Map<TypeKey, Instance>, m: usize, key: TypeKey)
    requires
        (m as int) < cat.len(),
        !cat[m as int].exports.contains(key),
    ensures
        !exported_graph(cat, global, m).contains_key(key),
{
}

/// While a module's providers are built in declaration order, the module's
/// own graph holds, for the `j`-th, exactly the keys of the providers declared
/// before it: an earlier provider can be depended on, a later one cannot.
pub proof fn law_only_earlier_providers(d: ModuleView, m: usize, global: Map<TypeKey, Instance>, j: int, key: TypeKey)
    requires
        0 <= j <= d.providers.len(),
    ensures
        local_graph(d, m, global, j).contains_key(key) <==> exists|q: int| 0 <= q < j && d.providers[q].key == key,
    decreases j,
{
    if j > 0 {
        law_only_earlier_providers(d, m, global, j - 1, key);
        if local_graph(d, m, global, j).contains_key(key) && d.providers[j - 1].key != key {
            let q = choose|q: int| 0 <= q < j - 1 && d.providers[q].key == key;
        }
    }
}

proof fn lemma_find_from_exact(chain: Seq<Map<TypeKey, Instance>>, k: TypeKey, i: int)
    requires
        0 <= i,
    ensures
        find_from(chain, k, i) matches Some(v) ==> exists|g: int| i <= g < chain.len()
            && #[trigger] chain[g].contains_key(k) && chain[g][k] == v,
    decreases chain.len() - i,
{
    if i < chain.len() && !chain[i].contains_key(k) {
        lemma_find_from_exact(chain, k, i + 1);
    }
}

/// A lookup answers only with an instance stored under exactly the requested
/// key: a request for a base type with a qualifier never gets what is stored
/// under that base unqualified, or under another qualifier.
pub proof fn law_lookup_exact(chain: Seq<Map<TypeKey, Instance>>, k: TypeKey)
    ensures
        lookup_spec(chain, k) matches Ok(v) ==> exists|g: int| 0 <= g < chain.len()
            && #[trigger] chain[g].contains_key(k) && chain[g][k] == v,
{
    lemma_find_from_exact(chain, k, 0);
}

proof fn lemma_find_from_absent(chain: Seq<Map<TypeKey, Instance>>, k: TypeKey, i: int)
    requires
        0 <= i,
        forall|g: int| i <= g < chain.len() ==> !(#[trigger] chain[g]).contains_key(k),
    ensures
        find_from(chain, k, i) is None,
    decreases chain.len() - i,
{
    if i < chain.len() {
        lemma_find_from_absent(chain, k, i + 1);
    }
}

/// A key that no graph of the chain holds, and that is not ambiguous, is
/// unresolved.
proof fn lemma_absent_unresolved(chain: Seq<Map<TypeKey, Instance>>, k: TypeKey)
    requires
        forall|g: int| 0 <= g < chain.len() ==> !(#[trigger] chain[g]).contains_key(k),
        !ambiguous(chain, k),
    ensures
        lookup_spec(chain, k) == Err::<Instance, LookupError>(LookupError::Unresolved),
{
    lemma_find_from_absent(chain, k, 0);
}

/// A provider that asks for a key which only a provider declared after it
/// registers fails with an unresolved dependency, when no import exports
/// the key, the global graph lacks it and the request is not ambiguous.
pub proof fn law_later_provider_unresolved(
    cat: Seq<ModuleView>,
    global: Map<TypeKey, Instance>,
    m: usize,
    j: int,
    t: int,
)
    requires
        (m as int) < cat.len(),
        0 <= j < cat[m as int].providers.len(),
        cat[m as int].providers[j].scope == Scope::Module,
        0 <= t < cat[m as int].providers[j].deps.len(),
        forall|q: int| 0 <= q <= j ==> cat[m as int].providers[q].key != cat[m as int].providers[j].deps[t],
        forall|q: int| 0 <= q < cat[m as int].imports.len() ==> !(#[trigger] cat[cat[m as int].imports[q] as int]).exports.contains(
            cat[m as int].providers[j].deps[t],
        ),
        !global.contains_key(cat[m as int].providers[j].deps[t]),
        !ambiguous(provider_chain(cat, global, m, j), cat[m as int].providers[j].deps[t]),
    ensures
        lookup_spec(provider_chain(cat, global, m, j), cat[m as int].providers[j].deps[t])
            == Err::<Instance, LookupError>(LookupError::Unresolved),
        !provider_ok(cat, global, m, j),
{
    let d = cat[m as int];
    let k = d.providers[j].deps[t];
    let chain = provider_chain(cat, global, m, j);
    law_only_earlier_providers(d, m, global, j, k);
    assert forall|g: int| 0 <= g < chain.len() implies !(#[trigger] chain[g]).contains_key(k) by {
        if 1 <= g < chain.len() - 1 {
            let x = d.imports[g - 1];
            assert(chain[g] == exported_graph(cat, global, x));
            assert(!cat[x as int].exports.contains(k));
        }
    }
    lemma_absent_unresolved(chain, k);
}

/// A client that asks for a key which its module does not provide and which
/// no import exports fails with an unresolved dependency, even when an
/// import provides the key without exporting it; the global graph lacks the
/// key and the request is not ambiguous.
pub proof fn law_hidden_key_unresolved(
    cat: Seq<ModuleView>,
    global: Map<TypeKey, Instance>,
    m: usize,
    c: int,
    t: int,
)
    requires
        (m as int) < cat.len(),
        0 <= c < cat[m as int].clients.len(),
        cat[m as int].clients[c].scope == Scope::Module,
        0 <= t < cat[m as int].clients[c].deps.len(),
        !module_graph(cat[m as int], m, global).contains_key(cat[m as int].clients[c].deps[t]),
        forall|q: int| 0 <= q < cat[m as int].imports.len() ==> !(#[trigger] cat[cat[m as int].imports[q] as int]).exports.contains(
            cat[m as int].clients[c].deps[t],
        ),
        !global.contains_key(cat[m as int].clients[c].deps[t]),
        !ambiguous(client_chain(cat, global, m), cat[m as int].clients[c].deps[t]),
    ensures
        lookup_spec(client_chain(cat, global, m), cat[m as int].clients[c].deps[t])
            == Err::<Instance, LookupError>(LookupError::Unresolved),
        !client_ok(cat, global, m, c),
{
    let d = cat[m as int];
    let k = d.clients[c].deps[t];
    let chain = client_chain(cat, global, m);
    assert forall|g: int| 0 <= g < chain.len() implies !(#[trigger] chain[g]).contains_key(k) by {
        if 1 <= g < chain.len() - 1 {
            let x = d.imports[g - 1];
            assert(chain[g] == exported_graph(cat, global, x));
            assert(!cat[x as int].exports.contains(k));
        }
    }
    lemma_absent_unresolved(chain, k);
}

} // verus!
