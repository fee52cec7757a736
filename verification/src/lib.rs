//! Knot: literate documents that mix Typst with executed R and Python chunks.
//!
//! This crate holds the verified core of the Knot compiler: language names,
//! hashing of execution identities, the in-memory result cache, the Typst
//! rendering of chunks, the assembly of the generated document and the
//! navigation markers it carries.
use vstd::prelude::*;

pub mod ast;
pub mod execution;
pub mod backend;
pub mod project_build;
pub mod cache;
pub mod cancellation;
pub mod compiler;
pub mod cleaning;
pub mod codegen;
pub mod codly;
pub mod config;
pub mod config_keys;
pub mod defaults;
pub mod dependencies;
pub mod executors;
pub mod formatters;
pub mod hashing;
pub mod inline_processor;
pub mod laws;
pub mod navigation_laws;
pub mod identity_laws;
pub mod output_laws;
pub mod pipeline;
pub mod planning;
pub mod snapshots;
pub mod sync;
pub mod text;
pub mod typst_syntax;
pub mod watch;

verus! {
} // verus!
