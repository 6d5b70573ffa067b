//! An ownership and lifetime-safety core for a manually reference-counted
//! object runtime: owned and borrowed references, deferred-release scopes,
//! statically typed views over untyped collections, and a bridge from runtime
//! exceptions to typed results.
//!
//! - `runtime`: the object heap, retain counts, the release log and the
//!   deferred-release scopes.
//! - `arc`: owned references and typed views.
//! - `cf`, `ns`, `dictionary`: arrays and dictionaries of both hierarchies,
//!   their typed views and toll-free reinterpretation; `ns` also bridges
//!   runtime exceptions to results.
//! - `av`, `mtl`, `cg`, `iso8601`: objects built on the core (capture
//!   sessions, GPU commands and descriptors, graphics values, dates).

pub mod arc;
pub mod av;
pub mod cf;
pub mod cg;
pub mod dictionary;
pub mod iso8601;
pub mod mtl;
pub mod ns;
pub mod runtime;
