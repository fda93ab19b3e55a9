//! A dependency-injection and module-composition engine.
//!
//! A tree of declarative modules is resolved, once, into an object graph:
//! each module is built at most once and shared by every importer, only
//! exported keys are visible across module boundaries, and every provider
//! and client is constructed from dependencies looked up by type key.

pub mod key;
pub mod graph;
pub mod lookup;
pub mod module;
pub mod model;
pub mod context;
pub mod instrumentation;
pub mod injector;
pub mod laws;
