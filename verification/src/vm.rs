//! The evaluators, and the compilers that produce what they run.

pub mod filter_tree;
pub mod compiler;
pub mod filter_tree_compiler;
pub mod filter_meaning;
pub mod bytecode;
pub mod vm;
pub mod range_set;
pub mod fast_value;
pub mod reg_bytecode;
pub mod reg_vm;
pub mod reg_compiler;
pub mod reg_fast_vm;
pub mod reg_closure_vm;
pub mod enum_filter;
pub mod ruleset;
