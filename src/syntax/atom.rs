//! What a single token stands for: numbers, booleans, nil, symbols and
//! string literals.
use vstd::prelude::*;
use crate::gast::{GAst, GAstV, Handle};
use crate::gast::constant::{ConstV, Constant};
use crate::gast::symbol::{Location, LocationV, Symbol, SymbolV};
use crate::intern::{string_intern, Interner};
use crate::syntax::lexer::{
    byte_at, colum_at, line_at, Fail, ParseError, ParseErrorKind, Tok, Token, TokenKind, MAX_INPUT,
    error_at,
};
use crate::utils::{decode, escape_str, share, string_from_chars};

verus! {

pub open spec fn is_digit(c: char) -> bool {
    '0' <= c && c <= '9'
}

/// End of the run of decimal digits that starts at `k`.
pub open spec fn digit_run(t: Seq<char>, k: int) -> int
    decreases t.len() - k,
{
    if 0 <= k < t.len() && is_digit(t[k]) {
        digit_run(t, k + 1)
    } else {
        k
    }
}

pub open spec fn all_digits(t: Seq<char>) -> bool {
    t.len() > 0 && forall|k: int| 0 <= k < t.len() ==> is_digit(#[trigger] t[k])
}

/// The number that a run of decimal digits writes.
pub open spec fn decimal_value(t: Seq<char>) -> nat
    decreases t.len(),
{
    if t.len() == 0 {
        0
    } else {
        decimal_value(t.drop_last()) * 10 + ((t.last() as u32) - ('0' as u32)) as nat
    }
}

/// `t` writes a float: an optional minus sign, digits, a point, digits.
pub open spec fn is_float_text(t: Seq<char>) -> bool {
    let b = if t.len() > 0 && t[0] == '-' {
        t.drop_first()
    } else {
        t
    };
    let d = digit_run(b, 0);
    &&& 0 < d < b.len() - 1
    &&& b[d] == '.'
    &&& all_digits(b.subrange(d + 1, b.len() as int))
}

/// The constant that an atom's text stands for, or why it stands for none.
pub open spec fn atom_value(t: Seq<char>, loc: LocationV) -> Result<ConstV, ParseErrorKind> {
    if t == seq!['n', 'i', 'l'] {
        Ok(ConstV::Nil)
    } else if t == seq!['t', 'r', 'u', 'e'] {
        Ok(ConstV::Bool(true))
    } else if t == seq!['f', 'a', 'l', 's', 'e'] {
        Ok(ConstV::Bool(false))
    } else if all_digits(t) {
        if decimal_value(t) <= u64::MAX {
            Ok(ConstV::Uint(decimal_value(t) as int))
        } else {
            Err(ParseErrorKind::NumberOutOfRange)
        }
    } else if t.len() >= 2 && t[0] == '-' && all_digits(t.drop_first()) {
        if decimal_value(t.drop_first()) <= 0x8000_0000_0000_0000 {
            Ok(ConstV::Int(-decimal_value(t.drop_first())))
        } else {
            Err(ParseErrorKind::NumberOutOfRange)
        }
    } else if is_float_text(t) {
        Ok(ConstV::Float(t))
    } else if t == seq!['.'] {
        Err(ParseErrorKind::UnexpectedToken)
    } else {
        Ok(ConstV::Sym(SymbolV { text: t, loc }))
    }
}

/// Where a token stands, in the file `p`.
pub open spec fn loc_of(s: Seq<char>, t: Tok, p: Seq<char>) -> LocationV {
    LocationV {
        path: p,
        line: line_at(s, t.start),
        colum: colum_at(s, t.start),
        pos: byte_at(s, t.start),
    }
}

/// The constant that a string or atom token stands for.
pub open spec fn tok_const(s: Seq<char>, t: Tok, p: Seq<char>) -> Result<ConstV, Fail> {
    if t.kind is Str {
        Ok(ConstV::Str(decode(s.subrange(t.start + 1, t.end - 1))))
    } else {
        match atom_value(s.subrange(t.start, t.end), loc_of(s, t, p)) {
            Ok(c) => Ok(c),
            Err(kind) => Err(Fail { kind, at: t.start }),
        }
    }
}

pub proof fn lemma_value_prefix(t: Seq<char>, k: int)
    requires
        0 <= k <= t.len(),
    ensures
        decimal_value(t.take(k)) <= decimal_value(t),
    decreases t.len(),
{
    if k < t.len() {
        lemma_value_prefix(t.drop_last(), k);
        assert(t.drop_last().take(k) =~= t.take(k));
        let v = decimal_value(t.drop_last());
        assert(v <= v * 10) by (nonlinear_arith);
    } else {
        assert(t.take(k) =~= t);
    }
}

/// The value of a run of digits, or `None` when it exceeds `u64`.
fn parse_decimal(t: &Vec<char>) -> (r: Option<u64>)
    requires
        all_digits(t@),
    ensures
        match r {
            Some(v) => v == decimal_value(t@),
            None => decimal_value(t@) > u64::MAX,
        },
{
    let mut v: u64 = 0;
    let mut k: usize = 0;
    assert(t@.take(0) =~= Seq::<char>::empty());
    while k < t.len()
        invariant
            k <= t@.len(),
            all_digits(t@),
            v == decimal_value(t@.take(k as int)),
        decreases t@.len() - k,
    {
        let c = t[k];
        assert(is_digit(t@[k as int]));
        let d = (c as u32 - '0' as u32) as u64;
        assert(t@.take(k + 1).drop_last() =~= t@.take(k as int));
        if v > (u64::MAX - d) / 10 {
            proof {
                lemma_value_prefix(t@, k + 1);
            }
            return None;
        }
        v = v * 10 + d;
        k = k + 1;
    }
    assert(t@.take(k as int) =~= t@);
    Some(v)
}

/// The characters `a..b` of `s`.
pub(crate) fn copy_range(s: &Vec<char>, a: usize, b: usize) -> (r: Vec<char>)
    requires
        a <= b <= s@.len(),
    ensures
        r@ == s@.subrange(a as int, b as int),
{
    let mut r: Vec<char> = Vec::new();
    let mut k = a;
    while k < b
        invariant
            a <= k <= b <= s@.len(),
            r@ == s@.subrange(a as int, k as int),
        decreases b - k,
    {
        r.push(s[k]);
        k = k + 1;
        assert(r@ =~= s@.subrange(a as int, k as int));
    }
    r
}

fn same_chars(t: &Vec<char>, w: &Vec<char>) -> (r: bool)
    ensures
        r == (t@ == w@),
{
    if t.len() != w.len() {
        return false;
    }
    let mut k: usize = 0;
    while k < t.len()
        invariant
            k <= t@.len() == w@.len(),
            forall|j: int| 0 <= j < k ==> t@[j] == w@[j],
        decreases t@.len() - k,
    {
        if t[k] != w[k] {
            return false;
        }
        k = k + 1;
    }
    assert(t@ =~= w@);
    true
}

fn run_digits(t: &Vec<char>, k: usize) -> (r: usize)
    requires
        k <= t@.len(),
    ensures
        r == digit_run(t@, k as int),
        k <= r <= t@.len(),
{
    let mut j = k;
    while j < t.len() && '0' <= t[j] && t[j] <= '9'
        invariant
            k <= j <= t@.len(),
            digit_run(t@, k as int) == digit_run(t@, j as int),
        decreases t@.len() - j,
    {
        j = j + 1;
    }
    j
}

fn digits_only(t: &Vec<char>, from: usize) -> (r: bool)
    requires
        from <= t@.len(),
    ensures
        r == all_digits(t@.subrange(from as int, t@.len() as int)),
{
    let e = run_digits(t, from);
    let ghost rest = t@.subrange(from as int, t@.len() as int);
    if e == t.len() && from < t.len() {
        assert forall|k: int| 0 <= k < rest.len() implies is_digit(#[trigger] rest[k]) by {
            lemma_run_digits(t@, from as int, from + k);
        }
        true
    } else {
        if from < t.len() {
            proof {
                lemma_run_stops(t@, from as int);
                assert(!is_digit(rest[e - from]));
            }
        }
        false
    }
}

proof fn lemma_run_digits(t: Seq<char>, k: int, j: int)
    requires
        0 <= k <= j < digit_run(t, k),
    ensures
        is_digit(t[j]),
    decreases j - k,
{
    if j > k {
        lemma_run_digits(t, k + 1, j);
    }
}

proof fn lemma_run_stops(t: Seq<char>, k: int)
    requires
        0 <= k <= t.len(),
    ensures
        k <= digit_run(t, k) <= t.len(),
        digit_run(t, k) < t.len() ==> !is_digit(t[digit_run(t, k)]),
    decreases t.len() - k,
{
    if k < t.len() && is_digit(t[k]) {
        lemma_run_stops(t, k + 1);
    }
}

/// The constant that the string or atom token `tok` stands for; symbols
/// are interned in `pool`.
pub fn token_constant(
    s: &Vec<char>,
    tok: &Token,
    path: &Handle<String>,
    pool: &mut Interner,
) -> (r: Result<Constant, ParseError>)
    requires
        s@.len() <= MAX_INPUT,
        tok@.wf(s@),
        tok.located(s@),
        tok.kind is Str || tok.kind is Atom,
        old(pool).wf(),
    ensures
        final(pool).wf(),
        match (r, tok_const(s@, tok@, path@)) {
            (Ok(c), Ok(cv)) => c@ == cv,
            (Err(e), Err(f)) => e.reports(s@, f),
            _ => false,
        },
{
    if let TokenKind::Str = tok.kind {
        let body = copy_range(s, tok.start + 1, tok.end - 1);
        let raw = string_from_chars(body.as_slice());
        return Ok(Constant::Str(Handle::new(escape_str(raw.as_str()))));
    }
    let t = copy_range(s, tok.start, tok.end);
    let ghost loc = loc_of(s@, tok@, path@);
    if same_chars(&t, &vec!['n', 'i', 'l']) {
        return Ok(Constant::Nil);
    }
    if same_chars(&t, &vec!['t', 'r', 'u', 'e']) {
        return Ok(Constant::Bool(true));
    }
    if same_chars(&t, &vec!['f', 'a', 'l', 's', 'e']) {
        return Ok(Constant::Bool(false));
    }
    if digits_only(&t, 0) {
        assert(t@.subrange(0, t@.len() as int) =~= t@);
        return match parse_decimal(&t) {
            Some(v) => Ok(Constant::Uint(v)),
            None => Err(error_at(s, ParseErrorKind::NumberOutOfRange, tok.start)),
        };
    }
    assert(t@.subrange(0, t@.len() as int) =~= t@);
    let negative = t.len() >= 2 && t[0] == '-';
    if negative && digits_only(&t, 1) {
        let tail = copy_range(&t, 1, t.len());
        assert(tail@ =~= t@.drop_first());
        return match parse_decimal(&tail) {
            Some(v) => {
                if v < 0x8000_0000_0000_0000 {
                    Ok(Constant::Int(-(v as i64)))
                } else if v == 0x8000_0000_0000_0000 {
                    Ok(Constant::Int(i64::MIN))
                } else {
                    Err(error_at(s, ParseErrorKind::NumberOutOfRange, tok.start))
                }
            },
            None => Err(error_at(s, ParseErrorKind::NumberOutOfRange, tok.start)),
        };
    }
    proof {
        if negative {
            assert(t@.subrange(1, t@.len() as int) =~= t@.drop_first());
        }
    }
    let from: usize = if t.len() > 0 && t[0] == '-' { 1 } else { 0 };
    let body = copy_range(&t, from, t.len());
    proof {
        if from == 1 {
            assert(body@ =~= t@.drop_first());
        } else {
            assert(body@ =~= t@);
        }
    }
    let d = run_digits(&body, 0);
    if 0 < d && d + 1 < body.len() && body[d] == '.' && digits_only(&body, d + 1) {
        return Ok(Constant::Float(Handle::new(string_from_chars(t.as_slice()))));
    }
    if t.len() == 1 && t[0] == '.' {
        assert(t@ =~= seq!['.']);
        return Err(error_at(s, ParseErrorKind::UnexpectedToken, tok.start));
    }
    proof {
        if t@ == seq!['.'] {
            assert(t@.len() == 1 && t@[0] == '.');
        }
    }
    let text = string_from_chars(t.as_slice());
    let name = string_intern(pool, text.as_str());
    let loc = Location::new(share(path), tok.line, tok.colum, tok.pos);
    Ok(Constant::Sym(Handle::new(Symbol(name, loc))))
}

/// The symbol `word`, interned in `pool` and located at `tok`.
pub(crate) fn symbol_at(
    s: &Vec<char>,
    word: &str,
    tok: &Token,
    path: &Handle<String>,
    pool: &mut Interner,
) -> (r: GAst)
    requires
        tok.located(s@),
        old(pool).wf(),
    ensures
        final(pool).wf(),
        r@ == GAstV::Const(ConstV::Sym(SymbolV { text: word@, loc: loc_of(s@, tok@, path@) })),
{
    let name = string_intern(pool, word);
    let loc = Location::new(share(path), tok.line, tok.colum, tok.pos);
    GAst::Const(Constant::Sym(Handle::new(Symbol(name, loc))))
}

} // verus!
