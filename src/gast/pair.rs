//! Cons cells.
use vstd::prelude::*;
use crate::gast::GAst;

verus! {

/// One dotted binding `(car . cdr)`.
#[derive(Debug, Clone, PartialEq)]
pub struct Pair(pub GAst, pub GAst);

} // verus!
