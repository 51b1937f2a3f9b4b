//! Canonical textual rendering, in S-expression syntax.
use vstd::prelude::*;
use crate::gast::{opt_view, views, GAst, GAstV};
use crate::gast::constant::{ConstV, Constant};
use crate::gast::list::List;
use crate::gast::pair::Pair;
use crate::gast::symbol::Symbol;
use crate::utils::{chars_of, string_from_chars};

verus! {

broadcast use vstd::std_specs::vec::axiom_vec_decreases_to_view, vstd::seq::axiom_seq_index_decreases;

pub open spec fn digit_char(d: nat) -> char {
    if d == 0 { '0' } else if d == 1 { '1' } else if d == 2 { '2' } else if d == 3 { '3' }
    else if d == 4 { '4' } else if d == 5 { '5' } else if d == 6 { '6' } else if d == 7 { '7' }
    else if d == 8 { '8' } else { '9' }
}

/// The decimal digits of `n`, most significant first, without leading zeros.
pub open spec fn decimal(n: nat) -> Seq<char>
    decreases n,
{
    if n < 10 {
        seq![digit_char(n)]
    } else {
        decimal(n / 10).push(digit_char(n % 10))
    }
}

/// How a constant is written: `nil`, `true`, `false`, the character, the
/// number in decimal, the float's literal, the string's content, the
/// symbol's text.
pub open spec fn const_text(c: ConstV) -> Seq<char> {
    match c {
        ConstV::Nil => seq!['n', 'i', 'l'],
        ConstV::Bool(b) => if b {
            seq!['t', 'r', 'u', 'e']
        } else {
            seq!['f', 'a', 'l', 's', 'e']
        },
        ConstV::Char(ch) => seq![ch],
        ConstV::Int(n) => if n < 0 {
            seq!['-'] + decimal((-n) as nat)
        } else {
            decimal(n as nat)
        },
        ConstV::Uint(n) => decimal(n as nat),
        ConstV::Float(t) => t,
        ConstV::Str(t) => t,
        ConstV::Sym(s) => s.text,
    }
}

/// How a tree is written: `(a . b)` for a pair, `(e1 e2 ...)` for a proper
/// list and `(e1 e2 ... . tail)` for a dotted one.
pub open spec fn text_of(g: GAstV) -> Seq<char>
    decreases g,
{
    match g {
        GAstV::Const(c) => const_text(c),
        GAstV::Pair(a, b) => seq!['('] + text_of(*a) + seq![' ', '.', ' '] + text_of(*b) + seq![')'],
        GAstV::List(xs, tl) => seq!['('] + joined(xs) + match tl {
            Some(t) => seq![' ', '.', ' '] + text_of(*t),
            None => Seq::empty(),
        } + seq![')'],
    }
}

/// The trees of `xs` written one after another, separated by blanks.
pub open spec fn joined(xs: Seq<GAstV>) -> Seq<char>
    decreases xs,
{
    if xs.len() == 0 {
        Seq::empty()
    } else if xs.len() == 1 {
        text_of(xs[0])
    } else {
        joined(xs.drop_last()) + seq![' '] + text_of(xs.last())
    }
}

fn push_str(out: &mut Vec<char>, s: &str)
    ensures
        final(out)@ == old(out)@ + s@,
{
    let cs = chars_of(s);
    let mut i: usize = 0;
    while i < cs.len()
        invariant
            i <= cs@.len(),
            cs@ == s@,
            out@ == old(out)@ + cs@.take(i as int),
        decreases cs@.len() - i,
    {
        out.push(cs[i]);
        i = i + 1;
        assert(out@ =~= old(out)@ + cs@.take(i as int));
    }
    assert(cs@.take(i as int) =~= cs@);
}

fn push_decimal(out: &mut Vec<char>, n: u64)
    ensures
        final(out)@ == old(out)@ + decimal(n as nat),
    decreases n,
{
    if n >= 10 {
        push_decimal(out, n / 10);
    }
    let d = n % 10;
    let c = if d == 0 { '0' } else if d == 1 { '1' } else if d == 2 { '2' } else if d == 3 { '3' }
        else if d == 4 { '4' } else if d == 5 { '5' } else if d == 6 { '6' } else if d == 7 { '7' }
        else if d == 8 { '8' } else { '9' };
    out.push(c);
    assert(out@ =~= old(out)@ + decimal(n as nat));
}

fn push_constant(out: &mut Vec<char>, c: &Constant)
    ensures
        final(out)@ == old(out)@ + const_text(c@),
{
    match c {
        Constant::Nil => {
            push_str(out, "nil");
            proof { reveal_strlit("nil"); }
        },
        Constant::Bool(b) => {
            if *b {
                push_str(out, "true");
                proof { reveal_strlit("true"); }
            } else {
                push_str(out, "false");
                proof { reveal_strlit("false"); }
            }
        },
        Constant::Char(ch) => {
            out.push(*ch);
        },
        Constant::Int(n) => {
            if *n < 0 {
                out.push('-');
                let m: u64 = if *n == i64::MIN {
                    0x8000_0000_0000_0000
                } else {
                    (-*n) as u64
                };
                push_decimal(out, m);
                assert(out@ =~= old(out)@ + const_text(c@));
            } else {
                push_decimal(out, *n as u64);
            }
        },
        Constant::Uint(n) => {
            push_decimal(out, *n);
        },
        Constant::Float(t) => {
            push_str(out, t.as_str());
        },
        Constant::Str(t) => {
            push_str(out, t.as_str());
        },
        Constant::Sym(s) => {
            push_str(out, s.0.as_str());
        },
    }
}

fn push_tree(out: &mut Vec<char>, g: &GAst)
    ensures
        final(out)@ == old(out)@ + text_of(g@),
    decreases g, 1int,
{
    match g {
        GAst::Const(c) => {
            push_constant(out, c);
        },
        GAst::Pair(p) => {
            out.push('(');
            push_tree(out, &p.0);
            out.push(' ');
            out.push('.');
            out.push(' ');
            push_tree(out, &p.1);
            out.push(')');
            assert(g@ == GAstV::Pair(Box::new(p.0@), Box::new(p.1@)));
            assert(out@ =~= old(out)@ + text_of(g@));
        },
        GAst::List(l) => {
            out.push('(');
            let ghost mid0 = out@;
            push_items(out, &l.0);
            let ghost mid1 = out@;
            match &l.1 {
                Some(t) => {
                    out.push(' ');
                    out.push('.');
                    out.push(' ');
                    push_tree(out, t);
                },
                None => {},
            }
            out.push(')');
            assert(g@ == GAstV::List(views(l.0@), opt_view(l.1)));
            assert(out@ =~= old(out)@ + text_of(g@));
        },
    }
}

fn push_items(out: &mut Vec<char>, xs: &Vec<GAst>)
    ensures
        final(out)@ == old(out)@ + joined(views(xs@)),
    decreases xs, 0int,
{
    let mut i: usize = 0;
    proof {
        assert(xs@.take(0) =~= Seq::<GAst>::empty());
        assert(views(Seq::<GAst>::empty()) == Seq::<GAstV>::empty());
        assert(out@ =~= old(out)@ + joined(views(xs@.take(0))));
    }
    while i < xs.len()
        invariant
            i <= xs@.len(),
            out@ == old(out)@ + joined(views(xs@.take(i as int))),
        decreases xs@.len() - i,
    {
        let ghost before = out@;
        if i > 0 {
            out.push(' ');
        }
        push_tree(out, &xs[i]);
        proof {
            let pre = xs@.take(i + 1);
            assert(pre =~= xs@.take(i as int).push(xs@[i as int]));
            crate::gast::lemma_views_push(xs@.take(i as int), xs@[i as int]);
            crate::gast::lemma_views_len(xs@.take(i as int));
            let vs = views(pre);
            assert(vs.drop_last() == views(xs@.take(i as int)));
            if i == 0 {
                assert(views(xs@.take(0)) == Seq::<GAstV>::empty()) by {
                    assert(xs@.take(0) =~= Seq::<GAst>::empty());
                }
                assert(vs.len() == 1);
                assert(joined(vs) == text_of(vs[0]));
                assert(joined(views(xs@.take(0))) == Seq::<char>::empty());
            } else {
                assert(joined(vs) == joined(vs.drop_last()) + seq![' '] + text_of(vs.last()));
            }
            assert(out@ =~= old(out)@ + joined(vs));
        }
        i = i + 1;
    }
    assert(xs@.take(i as int) =~= xs@);
}

impl Constant {
    /// The constant written out.
    pub fn to_string(&self) -> (r: String)
        ensures
            r@ == const_text(self@),
    {
        let mut out: Vec<char> = Vec::new();
        push_constant(&mut out, self);
        assert(out@ =~= const_text(self@));
        string_from_chars(out.as_slice())
    }
}

impl GAst {
    /// The tree written out.
    pub fn to_string(&self) -> (r: String)
        ensures
            r@ == text_of(self@),
    {
        let mut out: Vec<char> = Vec::new();
        push_tree(&mut out, self);
        assert(out@ =~= text_of(self@));
        string_from_chars(out.as_slice())
    }
}

impl List {
    /// The list written out.
    pub fn to_string(&self) -> (r: String)
        ensures
            r@ == text_of(GAstV::List(views(self.0@), opt_view(self.1))),
    {
        let mut out: Vec<char> = Vec::new();
        out.push('(');
        push_items(&mut out, &self.0);
        match &self.1 {
            Some(t) => {
                out.push(' ');
                out.push('.');
                out.push(' ');
                push_tree(&mut out, t);
            },
            None => {},
        }
        out.push(')');
        assert(out@ =~= text_of(GAstV::List(views(self.0@), opt_view(self.1))));
        string_from_chars(out.as_slice())
    }
}

impl Pair {
    /// The pair written out.
    pub fn to_string(&self) -> (r: String)
        ensures
            r@ == text_of(GAstV::Pair(Box::new(self.0@), Box::new(self.1@))),
    {
        let mut out: Vec<char> = Vec::new();
        out.push('(');
        push_tree(&mut out, &self.0);
        out.push(' ');
        out.push('.');
        out.push(' ');
        push_tree(&mut out, &self.1);
        out.push(')');
        assert(out@ =~= text_of(GAstV::Pair(Box::new(self.0@), Box::new(self.1@))));
        string_from_chars(out.as_slice())
    }
}

impl Symbol {
    /// The symbol's text.
    pub fn to_string(&self) -> (r: String)
        ensures
            r@ == self@.text,
    {
        self.text()
    }
}

} // verus!
