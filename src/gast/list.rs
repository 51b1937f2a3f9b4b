//! Lists, proper and dotted.
use vstd::prelude::*;
use crate::gast::GAst;

verus! {

/// A sequence of elements and an optional improper tail: `(e1 e2 ...)` when
/// the tail is absent, `(e1 e2 ... . tail)` when it is present.
#[derive(Debug, Clone, PartialEq)]
pub struct List(pub Vec<GAst>, pub Option<GAst>);

} // verus!
