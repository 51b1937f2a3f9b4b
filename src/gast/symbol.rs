//! Source locations and symbols.
use vstd::prelude::*;
use crate::gast::Handle;
use crate::utils::share;
use vstd::std_specs::cmp::PartialEqSpec;

verus! {

/// Where a symbol occurrence stands in its source.
#[derive(Debug, Clone)]
pub struct Location {
    pub path: Handle<String>,
    pub line: usize,
    pub colum: usize,
    pub pos: usize,
}

/// The value of a `Location`: file identity, 1-based line and column, and
/// the byte offset from the start of the text.
pub struct LocationV {
    pub path: Seq<char>,
    pub line: nat,
    pub colum: nat,
    pub pos: nat,
}

impl View for Location {
    type V = LocationV;

    open spec fn view(&self) -> LocationV {
        LocationV {
            path: self.path@,
            line: self.line as nat,
            colum: self.colum as nat,
            pos: self.pos as nat,
        }
    }
}

impl Location {
    pub fn new(path: Handle<String>, line: usize, colum: usize, pos: usize) -> (r: Self)
        ensures
            r@ == (LocationV { path: path@, line: line as nat, colum: colum as nat, pos: pos as nat }),
    {
        Self { path, line, colum, pos }
    }

    /// A copy that shares the path text.
    pub fn duplicate(&self) -> (r: Self)
        ensures
            r@ == self@,
    {
        Location { path: share(&self.path), line: self.line, colum: self.colum, pos: self.pos }
    }
}

/// The unknown location: an empty path and zero coordinates.
pub open spec fn unknown_location() -> LocationV {
    LocationV { path: Seq::empty(), line: 0, colum: 0, pos: 0 }
}

impl Default for Location {
    fn default() -> (r: Self)
        ensures
            r@ == unknown_location(),
    {
        Location { path: Handle::new(String::new()), line: 0, colum: 0, pos: 0 }
    }
}

/// A symbol: its text and where it was read. The location is metadata only:
/// two symbols are equal exactly when their texts are.
#[derive(Debug, Clone)]
pub struct Symbol(pub Handle<String>, pub Location);

/// The value of a `Symbol`.
pub struct SymbolV {
    pub text: Seq<char>,
    pub loc: LocationV,
}

impl View for Symbol {
    type V = SymbolV;

    open spec fn view(&self) -> SymbolV {
        SymbolV { text: self.0@, loc: self.1@ }
    }
}

impl Symbol {
    /// A symbol introduced by the library itself, with the unknown location.
    pub fn new(i: &str) -> (r: Self)
        ensures
            r@ == (SymbolV { text: i@, loc: unknown_location() }),
    {
        Symbol(Handle::new(i.to_owned()), Location::default())
    }

    /// A symbol read at the given location.
    pub fn from(i: &str, pos: &Location) -> (r: Self)
        ensures
            r@ == (SymbolV { text: i@, loc: pos@ }),
    {
        Symbol(Handle::new(i.to_owned()), pos.duplicate())
    }

    /// The symbol's text as an owned string.
    pub fn text(&self) -> (r: String)
        ensures
            r@ == self.0@,
    {
        (*self.0).clone()
    }
}

impl PartialEq for Symbol {
    fn eq(&self, other: &Self) -> (r: bool)
        ensures
            r == (self.0@ == other.0@),
    {
        *self.0 == *other.0
    }
}

impl vstd::std_specs::cmp::PartialEqSpecImpl for Symbol {
    open spec fn obeys_eq_spec() -> bool {
        true
    }

    open spec fn eq_spec(&self, other: &Symbol) -> bool {
        self.0@ == other.0@
    }
}

impl Eq for Symbol {
}

impl core::hash::Hash for Symbol {
    /// Relies on `Hash` for `Arc<String>`, which hashes the string: the text
    /// alone is hashed, so that equal symbols hash alike.
    #[verifier::external_body]
    fn hash<H: core::hash::Hasher>(&self, state: &mut H) {
        self.0.hash(state);
    }
}

/// Symbols with the same text are equal, wherever each was read.
pub proof fn lemma_symbol_identity(a: Symbol, b: Symbol)
    requires
        a@.text == b@.text,
    ensures
        a.eq_spec(&b),
        b.eq_spec(&a),
{
}

} // verus!
