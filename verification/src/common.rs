//! Syntax, types and declarations.

pub mod ast;
pub mod decls;
pub mod functions;
pub mod types;
