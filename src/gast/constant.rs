//! Atomic values.
use vstd::prelude::*;
use crate::gast::Handle;
use crate::gast::symbol::{Symbol, SymbolV};
use crate::utils::share;

verus! {

/// An atomic value. A float is kept as the text of its literal, which
/// denotes the number exactly; converting it to a binary float is left to
/// the consumer.
#[derive(Debug, Clone, PartialEq)]
pub enum Constant {
    Nil,
    Bool(bool),
    Char(char),
    Int(i64),
    Uint(u64),
    Float(Handle<String>),
    Str(Handle<String>),
    Sym(Handle<Symbol>),
}

/// The value of a `Constant`.
pub enum ConstV {
    Nil,
    Bool(bool),
    Char(char),
    Int(int),
    Uint(int),
    Float(Seq<char>),
    Str(Seq<char>),
    Sym(SymbolV),
}

impl View for Constant {
    type V = ConstV;

    open spec fn view(&self) -> ConstV {
        match self {
            Constant::Nil => ConstV::Nil,
            Constant::Bool(b) => ConstV::Bool(*b),
            Constant::Char(c) => ConstV::Char(*c),
            Constant::Int(n) => ConstV::Int(*n as int),
            Constant::Uint(n) => ConstV::Uint(*n as int),
            Constant::Float(t) => ConstV::Float(t@),
            Constant::Str(t) => ConstV::Str(t@),
            Constant::Sym(s) => ConstV::Sym(s@),
        }
    }
}

impl Constant {
    pub fn is_nil(&self) -> (r: bool)
        ensures
            r == (self@ is Nil),
    {
        matches!(self, Constant::Nil)
    }

    pub fn is_bool(&self) -> (r: bool)
        ensures
            r == (self@ is Bool),
    {
        matches!(self, Constant::Bool(_))
    }

    pub fn is_char(&self) -> (r: bool)
        ensures
            r == (self@ is Char),
    {
        matches!(self, Constant::Char(_))
    }

    pub fn is_int(&self) -> (r: bool)
        ensures
            r == (self@ is Int),
    {
        matches!(self, Constant::Int(_))
    }

    pub fn is_uint(&self) -> (r: bool)
        ensures
            r == (self@ is Uint),
    {
        matches!(self, Constant::Uint(_))
    }

    pub fn is_float(&self) -> (r: bool)
        ensures
            r == (self@ is Float),
    {
        matches!(self, Constant::Float(_))
    }

    pub fn is_str(&self) -> (r: bool)
        ensures
            r == (self@ is Str),
    {
        matches!(self, Constant::Str(_))
    }

    pub fn is_sym(&self) -> (r: bool)
        ensures
            r == (self@ is Sym),
    {
        matches!(self, Constant::Sym(_))
    }

    pub fn get_nil(&self) -> (r: Option<()>)
        ensures
            r is Some == (self@ is Nil),
    {
        if self.is_nil() {
            Some(())
        } else {
            None
        }
    }

    pub fn get_bool(&self) -> (r: Option<bool>)
        ensures
            r == (match self@ {
                ConstV::Bool(b) => Some(b),
                _ => None,
            }),
    {
        if let Constant::Bool(b) = self {
            Some(*b)
        } else {
            None
        }
    }

    pub fn get_char(&self) -> (r: Option<char>)
        ensures
            r == (match self@ {
                ConstV::Char(c) => Some(c),
                _ => None,
            }),
    {
        if let Constant::Char(c) = self {
            Some(*c)
        } else {
            None
        }
    }

    pub fn get_int(&self) -> (r: Option<i64>)
        ensures
            match (r, self@) {
                (Some(n), ConstV::Int(m)) => n as int == m,
                (None, v) => !(v is Int),
                _ => false,
            },
    {
        if let Constant::Int(n) = self {
            Some(*n)
        } else {
            None
        }
    }

    pub fn get_uint(&self) -> (r: Option<u64>)
        ensures
            match (r, self@) {
                (Some(n), ConstV::Uint(m)) => n as int == m,
                (None, v) => !(v is Uint),
                _ => false,
            },
    {
        if let Constant::Uint(n) = self {
            Some(*n)
        } else {
            None
        }
    }

    /// The float's literal text.
    pub fn get_float(&self) -> (r: Option<Handle<String>>)
        ensures
            match (r, self@) {
                (Some(t), ConstV::Float(u)) => t@ == u,
                (None, v) => !(v is Float),
                _ => false,
            },
    {
        if let Constant::Float(t) = self {
            Some(share(t))
        } else {
            None
        }
    }

    pub fn get_str(&self) -> (r: Option<Handle<String>>)
        ensures
            match (r, self@) {
                (Some(t), ConstV::Str(u)) => t@ == u,
                (None, v) => !(v is Str),
                _ => false,
            },
    {
        if let Constant::Str(t) = self {
            Some(share(t))
        } else {
            None
        }
    }

    pub fn get_sym(&self) -> (r: Option<Handle<Symbol>>)
        ensures
            match (r, self@) {
                (Some(t), ConstV::Sym(u)) => t@ == u,
                (None, v) => !(v is Sym),
                _ => false,
            },
    {
        if let Constant::Sym(t) = self {
            Some(share(t))
        } else {
            None
        }
    }

    /// A copy that shares the payload.
    pub fn duplicate(&self) -> (r: Constant)
        ensures
            r@ == self@,
    {
        match self {
            Constant::Nil => Constant::Nil,
            Constant::Bool(b) => Constant::Bool(*b),
            Constant::Char(c) => Constant::Char(*c),
            Constant::Int(n) => Constant::Int(*n),
            Constant::Uint(n) => Constant::Uint(*n),
            Constant::Float(t) => Constant::Float(share(t)),
            Constant::Str(t) => Constant::Str(share(t)),
            Constant::Sym(t) => Constant::Sym(share(t)),
        }
    }
}

} // verus!
