use vstd::prelude::*;
use crate::key::{Instance, TypeKey};

verus! {

/// One constructor parameter of an injectable: the key it asks for and a
/// name used in diagnostics.
pub struct Dependency {
    pub key: TypeKey,
    pub name: String,
}

/// Where an injectable's instance comes from.
#[derive(Clone, Copy, Debug, PartialEq, Eq, Structural)]
pub enum Scope {
    /// Constructed by the module that declares it.
    Module,
    /// Taken from the process-wide provider graph.
    Global,
}

/// The self-description of a provider or client: its own key, its scope and
/// its dependencies in parameter order.
pub struct Injectable {
    pub key: TypeKey,
    pub scope: Scope,
    pub dependencies: Vec<Dependency>,
}

pub struct InjectableView {
    pub key: TypeKey,
    pub scope: Scope,
    pub deps: Seq<TypeKey>,
}

impl View for Injectable {
    type V = InjectableView;

    open spec fn view(&self) -> InjectableView {
        InjectableView {
            key: self.key,
            scope: self.scope,
            deps: self.dependencies@.map_values(|d: Dependency| d.key),
        }
    }
}

impl Injectable {
    /// An injectable of the given key and scope, without dependencies yet.
    pub fn new(key: TypeKey, scope: Scope) -> (r: Injectable)
        ensures
            r@.key == key,
            r@.scope == scope,
            r@.deps == Seq::<TypeKey>::empty(),
    {
        let r = Injectable { key, scope, dependencies: Vec::new() };
        assert(r@.deps =~= Seq::<TypeKey>::empty());
        r
    }

    /// Adds a constructor parameter that asks for `key`.
    pub fn depends_on(self, key: TypeKey, name: String) -> (r: Injectable)
        ensures
            r@.key == self@.key,
            r@.scope == self@.scope,
            r@.deps == self@.deps.push(key),
    {
        let mut this = self;
        this.dependencies.push(Dependency { key, name });
        assert(this.dependencies@.map_values(|d: Dependency| d.key) =~= self.dependencies@.map_values(
            |d: Dependency| d.key,
        ).push(key));
        this
    }
}

/// The declaration of a module: what it exports, which modules it imports
/// (by their identity in a catalog of declarations), and the providers and
/// clients it builds, each list in declaration order.
pub struct Module {
    pub exports: Vec<TypeKey>,
    pub imports: Vec<usize>,
    pub providers: Vec<Injectable>,
    pub clients: Vec<Injectable>,
}

pub struct ModuleView {
    pub exports: Seq<TypeKey>,
    pub imports: Seq<usize>,
    pub providers: Seq<InjectableView>,
    pub clients: Seq<InjectableView>,
}

impl View for Module {
    type V = ModuleView;

    open spec fn view(&self) -> ModuleView {
        ModuleView {
            exports: self.exports@,
            imports: self.imports@,
            providers: self.providers@.map_values(|p: Injectable| p@),
            clients: self.clients@.map_values(|c: Injectable| c@),
        }
    }
}

/// The views of a catalog of module declarations, indexed by module identity.
pub open spec fn catalog_view(catalog: Seq<Module>) -> Seq<ModuleView> {
    catalog.map_values(|m: Module| m@)
}

impl Module {
    /// A module that declares nothing.
    pub fn new() -> (r: Module)
        ensures
            r@.exports == Seq::<TypeKey>::empty(),
            r@.imports == Seq::<usize>::empty(),
            r@.providers == Seq::<InjectableView>::empty(),
            r@.clients == Seq::<InjectableView>::empty(),
    {
        let r = Module {
            exports: Vec::new(),
            imports: Vec::new(),
            providers: Vec::new(),
            clients: Vec::new(),
        };
        assert(r@.providers =~= Seq::<InjectableView>::empty());
        assert(r@.clients =~= Seq::<InjectableView>::empty());
        r
    }

    /// Imports the module with identity `module`.
    pub fn import(self, module: usize) -> (r: Module)
        ensures
            r@ == (ModuleView { imports: self@.imports.push(module), ..self@ }),
    {
        let mut this = self;
        this.imports.push(module);
        this
    }

    /// Makes `key` visible to importers of this module.
    pub fn export(self, key: TypeKey) -> (r: Module)
        ensures
            r@ == (ModuleView { exports: self@.exports.push(key), ..self@ }),
    {
        let mut this = self;
        this.exports.push(key);
        this
    }

    /// Makes the key of `instance` visible to importers of this module.
    pub fn export_val(self, instance: &Instance) -> (r: Module)
        ensures
            r@ == (ModuleView { exports: self@.exports.push(instance.key), ..self@ }),
    {
        self.export(instance.key)
    }

    /// Declares a provider, built after the providers declared before it.
    pub fn provide(self, provider: Injectable) -> (r: Module)
        ensures
            r@ == (ModuleView { providers: self@.providers.push(provider@), ..self@ }),
    {
        let mut this = self;
        this.providers.push(provider);
        assert(this.providers@.map_values(|p: Injectable| p@) =~= self.providers@.map_values(
            |p: Injectable| p@,
        ).push(provider@));
        this
    }

    /// Declares a client, built after every provider of the module.
    pub fn client(self, client: Injectable) -> (r: Module)
        ensures
            r@ == (ModuleView { clients: self@.clients.push(client@), ..self@ }),
    {
        let mut this = self;
        this.clients.push(client);
        assert(this.clients@.map_values(|c: Injectable| c@) =~= self.clients@.map_values(
            |c: Injectable| c@,
        ).push(client@));
        this
    }
}

} // verus!
