//! Readers for the two concrete dialects, over one shared lexer.
use vstd::prelude::*;

pub mod atom;
pub mod lexer;
pub mod mexpr;
pub mod sexpr;

verus! {

} // verus!
