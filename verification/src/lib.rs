//! A module bundler for an embedded scripting runtime.
//!
//! The crate turns a set of configured module aliases into one self-contained
//! script: it extracts the alias table from a configuration text, discovers
//! each module's dependencies, orders the modules so that dependencies load
//! first, rewrites module-style imports and exports into `require`-style
//! calls, and emits a single script with a minimal module registry.
//!
//! Filesystem reads and path canonicalization are performed by the caller:
//! the bundling session asks for them step by step and is handed the results,
//! so the whole decision logic is in this crate.

pub mod bundle;
pub mod config;
pub mod emit;
pub mod events;
pub mod graph;
pub mod imports;
pub mod loader;
pub mod resolve;
pub mod shim;
pub mod text;
pub mod transform;
