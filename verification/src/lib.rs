//! Hash-acquisition and build-invocation core.
//!
//! The library resolves a content hash for every externally sourced
//! dependency of a build: it plans which packages need an external fetch,
//! interprets the output of the external prefetch commands, reassembles the
//! results keyed by package identity, and reconciles them with a persistent
//! hash cache.  A second part constructs the argument list for the external
//! builder and formats its failure diagnostics.  All file and process I/O is
//! left to the surrounding binary; the functions here work on plain values.

pub mod cache;
pub mod errors;
pub mod nix_build;
pub mod prefetch;
pub mod strings;
