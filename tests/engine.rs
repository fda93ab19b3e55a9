use sept::context::{build, Application, Mount};
use sept::graph::{DuplicateKey, Graph};
use sept::key::{Instance, Owner, TypeKey};
use sept::lookup::{lookup, LookupError};
use sept::model::BuildError;
use sept::module::{Injectable, Module, Scope};

const CONFIG: u64 = 1;
const SERVICE: u64 = 2;
const SERVICE_CLIENT: u64 = 3;
const DATABASE: u64 = 4;
const CACHE: u64 = 5;

fn provider(base: u64) -> Injectable {
    Injectable::new(TypeKey::of(base), Scope::Module)
}

fn needs(i: Injectable, key: TypeKey, name: &str) -> Injectable {
    i.depends_on(key, name.to_string())
}

fn built(r: Result<Application, BuildError>) -> Application {
    match r {
        Ok(app) => app,
        Err(e) => panic!("build failed: {:?}", e),
    }
}

fn failed(r: Result<Application, BuildError>) -> BuildError {
    match r {
        Ok(_) => panic!("build succeeded"),
        Err(e) => e,
    }
}

fn local(owner: usize, base: u64) -> Instance {
    Instance { owner: Owner::Module(owner), key: TypeKey::of(base) }
}

#[test]
fn graph_refuses_duplicate_key() {
    let mut g = Graph::new();
    let k = TypeKey::of(CONFIG);
    assert!(g.insert(k, Instance::global(k)).is_ok());
    assert_eq!(g.insert(k, local(0, CONFIG)), Err(DuplicateKey { key: k }));
    assert_eq!(g.get(k), Some(Instance::global(k)));
}

#[test]
fn graph_filter_keeps_only_exports() {
    let mut g = Graph::new();
    let a = TypeKey::of(CONFIG);
    let b = TypeKey::of(SERVICE);
    g.insert(a, local(0, CONFIG)).unwrap();
    g.insert(b, local(0, SERVICE)).unwrap();
    let f = g.filter_by(&vec![b, TypeKey::of(CACHE)]);
    assert!(!f.contains(a));
    assert_eq!(f.get(b), Some(local(0, SERVICE)));
    assert!(!f.contains(TypeKey::of(CACHE)));
}

#[test]
fn lookup_takes_first_graph_in_chain() {
    let k = TypeKey::of(CONFIG);
    let mut near = Graph::new();
    near.insert(k, local(1, CONFIG)).unwrap();
    let mut far = Graph::new();
    far.insert(k, Instance::global(k)).unwrap();
    let empty = Graph::new();
    assert_eq!(lookup(&vec![&empty, &near, &far], k), Ok(local(1, CONFIG)));
    assert_eq!(lookup(&vec![&empty, &far, &near], k), Ok(Instance::global(k)));
    assert_eq!(lookup(&vec![&empty], k), Err(LookupError::Unresolved));
}

#[test]
fn lookup_unqualified_among_two_qualified_is_ambiguous() {
    let mut g = Graph::new();
    let q1 = TypeKey::qualified(DATABASE, 1);
    let q2 = TypeKey::qualified(DATABASE, 2);
    g.insert(q1, Instance::global(q1)).unwrap();
    let mut h = Graph::new();
    h.insert(q2, Instance::global(q2)).unwrap();
    assert_eq!(lookup(&vec![&g, &h], TypeKey::of(DATABASE)), Err(LookupError::Ambiguous));
    assert_eq!(lookup(&vec![&g], TypeKey::of(DATABASE)), Err(LookupError::Unresolved));
    assert_eq!(lookup(&vec![&g, &h], q2), Ok(Instance::global(q2)));
}

#[test]
fn exported_view_is_stable() {
    let a = Module::new()
        .provide(provider(CONFIG))
        .provide(provider(CACHE))
        .export(TypeKey::of(CONFIG));
    let app = built(build(&vec![a], Graph::new(), 0));
    let root = app.root_module();
    let first = root.exported_view();
    let second = root.exported_view();
    assert_eq!(first.get(TypeKey::of(CONFIG)), Some(local(0, CONFIG)));
    assert_eq!(second.get(TypeKey::of(CONFIG)), Some(local(0, CONFIG)));
    assert!(!first.contains(TypeKey::of(CACHE)));
    assert!(!second.contains(TypeKey::of(CACHE)));
    assert!(root.graph().contains(TypeKey::of(CACHE)));
}

#[test]
fn shared_import_is_built_once() {
    // 0: root, imports 1 and 2; 1 and 2 both import 3.
    let root = Module::new().import(1).import(2);
    let b = Module::new().import(3);
    let c = Module::new().import(3);
    let a = Module::new().provide(provider(CONFIG)).export(TypeKey::of(CONFIG));
    let app = built(build(&vec![root, b, c, a], Graph::new(), 0));
    assert_eq!(app.module_count(), 4);
    let ib = app.index_of(1).unwrap();
    let ic = app.index_of(2).unwrap();
    let ia = app.index_of(3).unwrap();
    assert_eq!(app.module(ib).imports()[0], ia);
    assert_eq!(app.module(ic).imports()[0], ia);
    assert_eq!(app.module(ia).id(), 3);
}

#[test]
fn unexported_provider_is_unreachable() {
    let hidden = TypeKey::of(CACHE);
    let a = Module::new().provide(provider(CACHE));
    let alone = built(build(&vec![a], Graph::new(), 0));
    assert!(alone.root_module().graph().contains(hidden));

    let root = Module::new()
        .import(1)
        .client(needs(provider(SERVICE_CLIENT), hidden, "cache"));
    let a = Module::new().provide(provider(CACHE));
    match failed(build(&vec![root, a], Graph::new(), 0)) {
        BuildError::UnresolvedDependency { module, injectable, dependency, name, path } => {
            assert_eq!(module, 0);
            assert_eq!(injectable, TypeKey::of(SERVICE_CLIENT));
            assert_eq!(dependency, hidden);
            assert_eq!(name, "cache");
            assert_eq!(path, vec![0]);
        },
        e => panic!("unexpected error {:?}", e),
    }
}

#[test]
fn provider_may_depend_on_earlier_provider() {
    let m = Module::new()
        .provide(provider(CONFIG))
        .provide(needs(provider(SERVICE), TypeKey::of(CONFIG), "config"));
    let app = built(build(&vec![m], Graph::new(), 0));
    let providers = app.root_module().providers();
    assert_eq!(providers.len(), 2);
    assert_eq!(providers[1].instance(), local(0, SERVICE));
    assert_eq!(providers[1].dependencies(), &vec![local(0, CONFIG)]);
}

#[test]
fn provider_may_not_depend_on_later_provider() {
    let m = Module::new()
        .provide(needs(provider(CONFIG), TypeKey::of(SERVICE), "service"))
        .provide(provider(SERVICE));
    match failed(build(&vec![m], Graph::new(), 0)) {
        BuildError::UnresolvedDependency { module, injectable, dependency, .. } => {
            assert_eq!(module, 0);
            assert_eq!(injectable, TypeKey::of(CONFIG));
            assert_eq!(dependency, TypeKey::of(SERVICE));
        },
        e => panic!("unexpected error {:?}", e),
    }
}

#[test]
fn qualifier_selects_the_qualified_provider() {
    let primary = TypeKey::qualified(DATABASE, 7);
    let m = Module::new()
        .provide(provider(DATABASE))
        .provide(Injectable::new(primary, Scope::Module))
        .provide(needs(provider(SERVICE), primary, "db"));
    let app = built(build(&vec![m], Graph::new(), 0));
    let root = app.root_module();
    assert!(root.graph().contains(TypeKey::of(DATABASE)));
    assert!(root.graph().contains(primary));
    let deps = root.providers()[2].dependencies();
    assert_eq!(deps, &vec![Instance { owner: Owner::Module(0), key: primary }]);
}

#[test]
fn unqualified_request_among_qualified_providers_is_ambiguous() {
    let m = Module::new()
        .provide(Injectable::new(TypeKey::qualified(DATABASE, 1), Scope::Module))
        .provide(Injectable::new(TypeKey::qualified(DATABASE, 2), Scope::Module))
        .provide(needs(provider(SERVICE), TypeKey::of(DATABASE), "db"));
    match failed(build(&vec![m], Graph::new(), 0)) {
        BuildError::AmbiguousQualifier { module, injectable, dependency, name, .. } => {
            assert_eq!(module, 0);
            assert_eq!(injectable, TypeKey::of(SERVICE));
            assert_eq!(dependency, TypeKey::of(DATABASE));
            assert_eq!(name, "db");
        },
        e => panic!("unexpected error {:?}", e),
    }
}

#[test]
fn end_to_end_root_shared_feature() {
    // 0: Root imports Shared (1) and Feature (2).
    let root = Module::new().import(1).import(2);
    let shared = Module::new().provide(provider(CONFIG)).export(TypeKey::of(CONFIG));
    let feature = Module::new()
        .import(1)
        .provide(needs(provider(SERVICE), TypeKey::of(CONFIG), "config"))
        .client(needs(provider(SERVICE_CLIENT), TypeKey::of(SERVICE), "service"));
    let app = built(build(&vec![root, shared, feature], Graph::new(), 0));
    assert_eq!(app.module_count(), 3);
    let is = app.index_of(1).unwrap();
    let ifeat = app.index_of(2).unwrap();
    assert_eq!(app.module(app.root_index()).imports(), &vec![is, ifeat]);
    assert_eq!(app.module(ifeat).imports(), &vec![is]);
    let service = &app.module(ifeat).providers()[0];
    assert_eq!(service.dependencies(), &vec![local(1, CONFIG)]);
    let client = &app.module(ifeat).clients()[0];
    assert_eq!(client.instance(), local(2, SERVICE_CLIENT));
    assert_eq!(client.dependencies(), &vec![local(2, SERVICE)]);
    let mut config: Vec<Mount> = Vec::new();
    app.register(&mut config);
    assert_eq!(config, vec![Mount { module: 2, instance: local(2, SERVICE_CLIENT) }]);
}

#[test]
fn register_visits_shared_module_from_each_importer() {
    let root = Module::new().import(1).import(2);
    let b = Module::new().import(3);
    let c = Module::new().import(3);
    let a = Module::new().client(provider(SERVICE_CLIENT));
    let app = built(build(&vec![root, b, c, a], Graph::new(), 0));
    let mut config: Vec<Mount> = Vec::new();
    app.register(&mut config);
    let m = Mount { module: 3, instance: local(3, SERVICE_CLIENT) };
    assert_eq!(config, vec![m, m]);
}

#[test]
fn cyclic_import_is_reported() {
    let a = Module::new().import(1);
    let b = Module::new().import(0);
    match failed(build(&vec![a, b], Graph::new(), 0)) {
        BuildError::CyclicImport { module, path } => {
            assert_eq!(module, 0);
            assert_eq!(path, vec![0, 1, 0]);
        },
        e => panic!("unexpected error {:?}", e),
    }
}

#[test]
fn self_import_is_cyclic() {
    let a = Module::new().import(0);
    match failed(build(&vec![a], Graph::new(), 0)) {
        BuildError::CyclicImport { module, path } => {
            assert_eq!(module, 0);
            assert_eq!(path, vec![0, 0]);
        },
        e => panic!("unexpected error {:?}", e),
    }
}

#[test]
fn unknown_module_is_reported() {
    let a = Module::new().import(5);
    match failed(build(&vec![a], Graph::new(), 0)) {
        BuildError::UnknownModule { module, path } => {
            assert_eq!(module, 5);
            assert_eq!(path, vec![0, 5]);
        },
        e => panic!("unexpected error {:?}", e),
    }
    match failed(build(&vec![], Graph::new(), 0)) {
        BuildError::UnknownModule { module, path } => {
            assert_eq!(module, 0);
            assert_eq!(path, vec![0]);
        },
        e => panic!("unexpected error {:?}", e),
    }
}

#[test]
fn duplicate_provider_is_reported() {
    let a = Module::new().provide(provider(CONFIG)).provide(provider(CONFIG));
    match failed(build(&vec![a], Graph::new(), 0)) {
        BuildError::DuplicateKey { module, key, .. } => {
            assert_eq!(module, 0);
            assert_eq!(key, TypeKey::of(CONFIG));
        },
        e => panic!("unexpected error {:?}", e),
    }
}

#[test]
fn export_of_missing_key_is_reported() {
    let a = Module::new().provide(provider(CONFIG)).export(TypeKey::of(CACHE));
    match failed(build(&vec![a], Graph::new(), 0)) {
        BuildError::UnknownExport { module, key, .. } => {
            assert_eq!(module, 0);
            assert_eq!(key, TypeKey::of(CACHE));
        },
        e => panic!("unexpected error {:?}", e),
    }
}

#[test]
fn export_val_exports_the_instance_key() {
    let a = Module::new().provide(provider(CONFIG)).export_val(&local(0, CONFIG));
    let app = built(build(&vec![a], Graph::new(), 0));
    assert!(app.root_module().exported_view().contains(TypeKey::of(CONFIG)));
}

#[test]
fn global_provider_is_found_last_in_chain() {
    let k = TypeKey::of(CONFIG);
    let mut global = Graph::new();
    global.insert(k, Instance::global(k)).unwrap();
    let a = Module::new().provide(needs(provider(SERVICE), k, "config"));
    let app = built(build(&vec![a], global, 0));
    assert_eq!(app.root_module().providers()[0].dependencies(), &vec![Instance::global(k)]);
    assert_eq!(app.global().get(k), Some(Instance::global(k)));
}

#[test]
fn global_scoped_provider_takes_the_seeded_instance() {
    let k = TypeKey::of(CONFIG);
    let mut global = Graph::new();
    global.insert(k, Instance::global(k)).unwrap();
    let a = Module::new().provide(Injectable::new(k, Scope::Global)).export(k);
    let app = built(build(&vec![a], global, 0));
    assert_eq!(app.root_module().exported_view().get(k), Some(Instance::global(k)));

    let b = Module::new().provide(Injectable::new(k, Scope::Global));
    match failed(build(&vec![b], Graph::new(), 0)) {
        BuildError::UnresolvedDependency { module, injectable, dependency, .. } => {
            assert_eq!(module, 0);
            assert_eq!(injectable, k);
            assert_eq!(dependency, k);
        },
        e => panic!("unexpected error {:?}", e),
    }
}

#[test]
fn local_provider_shadows_import() {
    let k = TypeKey::of(CONFIG);
    let root = Module::new()
        .import(1)
        .provide(provider(CONFIG))
        .provide(needs(provider(SERVICE), k, "config"));
    let other = Module::new().provide(provider(CONFIG)).export(k);
    let app = built(build(&vec![root, other], Graph::new(), 0));
    assert_eq!(app.root_module().providers()[1].dependencies(), &vec![local(0, CONFIG)]);
}

#[test]
fn client_cannot_depend_on_client() {
    let a = Module::new()
        .client(provider(SERVICE_CLIENT))
        .client(needs(provider(SERVICE), TypeKey::of(SERVICE_CLIENT), "client"));
    match failed(build(&vec![a], Graph::new(), 0)) {
        BuildError::UnresolvedDependency { injectable, dependency, .. } => {
            assert_eq!(injectable, TypeKey::of(SERVICE));
            assert_eq!(dependency, TypeKey::of(SERVICE_CLIENT));
        },
        e => panic!("unexpected error {:?}", e),
    }
}

#[test]
fn error_names_the_import_chain() {
    // 0 imports 1, 1 imports 2, and 2 asks for a key nobody provides.
    let root = Module::new().import(1);
    let mid = Module::new().import(2);
    let leaf = Module::new().provide(needs(provider(SERVICE), TypeKey::of(CONFIG), "config"));
    match failed(build(&vec![root, mid, leaf], Graph::new(), 0)) {
        BuildError::UnresolvedDependency { module, path, .. } => {
            assert_eq!(module, 2);
            assert_eq!(path, vec![0, 1, 2]);
        },
        e => panic!("unexpected error {:?}", e),
    }
}

#[test]
fn global_graph_seeded_from_pairs() {
    let a = TypeKey::of(CONFIG);
    let b = TypeKey::qualified(DATABASE, 3);
    let g = Graph::from_entries(&vec![(a, Instance::global(a)), (b, Instance::global(b))]).unwrap();
    assert_eq!(g.get(a), Some(Instance::global(a)));
    assert_eq!(g.get(b), Some(Instance::global(b)));
    assert!(!g.contains(TypeKey::of(DATABASE)));
    match Graph::from_entries(&vec![(a, Instance::global(a)), (b, Instance::global(b)), (a, local(0, CONFIG))]) {
        Err(e) => assert_eq!(e, DuplicateKey { key: a }),
        Ok(_) => panic!("duplicate seed accepted"),
    }
}
