use vstd::prelude::*;

pub mod assoc;
pub mod common;
pub mod context;
pub mod env;
pub mod error;
pub mod fast;
pub mod float;
pub mod function_handle;
pub mod laws;
pub mod objects;
pub mod ops;
pub mod patterns;
pub mod semantics;
pub mod strings;
pub mod vm;

verus! {

} // verus!
