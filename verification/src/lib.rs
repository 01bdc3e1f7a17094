//! Dropper's package specifier and version resolution engine.
//!
//! The crate models plugin versions as numeric tuples, parses user-typed
//! package specifiers such as `WorldEdit@6.1.*`, recovers canonical version
//! numbers from noisy release labels, and selects the release that satisfies
//! a specifier against a newest-first listing of releases.

pub mod text;
pub mod version;
pub mod specifier;
pub mod matcher;
pub mod extract;
pub mod parser;
pub mod backend;
