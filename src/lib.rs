//! A shared abstract syntax for S-expression and M-expression source text,
//! with verified readers for both dialects, a symbol interner and a
//! structural type-reflection layer.
use vstd::prelude::*;

pub mod error;
pub mod gast;
pub mod intern;
pub mod syntax;
pub mod utils;

verus! {

} // verus!
