//! Release planning and manifest mutation for a workspace of packages.
//!
//! The crate decides a safe publish order over workspace members, rewrites
//! version requirements when a dependency is re-versioned, applies
//! template-driven text replacements with occurrence bounds, and separates
//! every mutation into a pure planning step and a transactional write step.

pub mod gate;
pub mod graph;
pub mod manifest;
pub mod owners;
pub mod release;
pub mod replace;
pub mod requirement;
pub mod template;
pub mod text;
pub mod verbosity;
