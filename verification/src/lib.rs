//! Semantic analysis and optimization pass for single-file-component
//! templates: whitespace pruning, conditional-chain folding, scope
//! resolution, expression rewriting and patch-hint accumulation over a
//! parsed node tree.

pub mod ast;
pub mod expr;
pub mod strutil;
pub mod bindings;
pub mod classify;
pub mod optimize;
pub mod visitor;
pub mod laws;

pub use visitor::transform_and_record_template;
