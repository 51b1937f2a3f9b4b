//! The M-expression dialect: calls `f(a, b)` and `if[c; t; e]`, and the
//! bracketed forms `(..)`, `{..}` and `[..]`, elements separated by `,` or `;`.
use vstd::prelude::*;
use crate::gast::{opt_view, views, lemma_views_push, GAst, GAstV, Handle};
use crate::gast::list::List;
use crate::intern::Interner;
use crate::syntax::atom::{symbol_at, tok_const, token_constant};
use crate::syntax::lexer::{
    error_at, lex, tok_views, tokenize, toks_ok, Bracket, Fail, ParseError, ParseErrorKind, Tok,
    Token, TokenKind, MAX_INPUT,
};
use crate::syntax::sexpr::{closes, end_fail, sym_at, unterminated};
use crate::utils::chars_of;

verus! {

/// The head symbol that a bracketed form is given.
pub open spec fn head_word(b: Bracket) -> Seq<char> {
    match b {
        Bracket::Round => seq!['l', 'i', 's', 't'],
        Bracket::Curly => seq!['t', 'u', 'p', 'l', 'e'],
        Bracket::Square => seq!['a', 'r', 'r', 'a', 'y'],
    }
}

/// Token `n` opens an argument list: a bracket written right after the
/// preceding token, with no blank between them.
pub open spec fn opens_call(ts: Seq<Tok>, n: int) -> bool {
    &&& 0 < n < ts.len()
    &&& ts[n].kind is Open
    &&& ts[n].start == ts[n - 1].end
}

pub open spec fn prefix_elems(acc: Seq<GAstV>, r: Result<(Seq<GAstV>, int), Fail>) -> Result<
    (Seq<GAstV>, int),
    Fail,
> {
    match r {
        Ok((xs, m)) => Ok((acc + xs, m)),
        Err(f) => Err(f),
    }
}

/// The form that starts at token `k`: an expression, followed by an
/// argument list when one is written right after it.
pub open spec fn mx_form(s: Seq<char>, ts: Seq<Tok>, p: Seq<char>, k: int) -> Result<
    (GAstV, int),
    Fail,
>
    decreases ts.len() - k, 2int,
{
    match mx_expr(s, ts, p, k) {
        Ok((x, n)) => if k < n <= ts.len() {
            if opens_call(ts, n) {
                match mx_seq(s, ts, p, n + 1, n, 0) {
                    Ok((xs, m)) => Ok((GAstV::List(seq![x] + xs, None), m)),
                    Err(f) => Err(f),
                }
            } else {
                Ok((x, n))
            }
        } else {
            Err(end_fail(s))
        },
        Err(f) => Err(f),
    }
}

/// The expression that starts at token `k`: a constant, or a bracketed
/// sequence headed by the symbol for its kind of bracket.
pub open spec fn mx_expr(s: Seq<char>, ts: Seq<Tok>, p: Seq<char>, k: int) -> Result<
    (GAstV, int),
    Fail,
>
    decreases ts.len() - k, 1int,
{
    if k < 0 || k >= ts.len() {
        Err(end_fail(s))
    } else {
        let t = ts[k];
        match t.kind {
            TokenKind::Open(b) => match mx_seq(s, ts, p, k + 1, k, 0) {
                Ok((xs, m)) => Ok((GAstV::List(seq![sym_at(head_word(b), s, t, p)] + xs, None), m)),
                Err(f) => Err(f),
            },
            TokenKind::Str | TokenKind::Atom => match tok_const(s, t, p) {
                Ok(c) => Ok((GAstV::Const(c), k + 1)),
                Err(f) => Err(f),
            },
            _ => Err(Fail { kind: ParseErrorKind::UnexpectedToken, at: t.start }),
        }
    }
}

/// The elements of the sequence opened by token `open`, read from token
/// `k` on. `state` is 0 at the start, 1 after an element and 2 after a
/// separator.
pub open spec fn mx_seq(
    s: Seq<char>,
    ts: Seq<Tok>,
    p: Seq<char>,
    k: int,
    open: int,
    state: int,
) -> Result<(Seq<GAstV>, int), Fail>
    decreases ts.len() - k, 3int,
{
    if k < 0 || k >= ts.len() || open < 0 || open >= ts.len() {
        Err(unterminated(ts, open))
    } else {
        let t = ts[k];
        if t.kind is Close {
            if state == 2 {
                Err(Fail { kind: ParseErrorKind::UnexpectedToken, at: t.start })
            } else if closes(t, ts[open]) {
                Ok((Seq::empty(), k + 1))
            } else {
                Err(Fail { kind: ParseErrorKind::MismatchedBracket, at: t.start })
            }
        } else if state == 1 {
            if t.kind is Sep {
                mx_seq(s, ts, p, k + 1, open, 2)
            } else {
                Err(Fail { kind: ParseErrorKind::MissingSeparator, at: t.start })
            }
        } else if t.kind is Sep {
            Err(Fail { kind: ParseErrorKind::UnexpectedToken, at: t.start })
        } else {
            match mx_form(s, ts, p, k) {
                Ok((x, n)) => if k < n <= ts.len() {
                    prefix_elems(seq![x], mx_seq(s, ts, p, n, open, 1))
                } else {
                    Err(end_fail(s))
                },
                Err(f) => Err(f),
            }
        }
    }
}

/// Every form from token `k` to the end.
pub open spec fn mx_unit(s: Seq<char>, ts: Seq<Tok>, p: Seq<char>, k: int) -> Result<
    Seq<GAstV>,
    Fail,
>
    decreases ts.len() - k,
{
    if k < 0 || k >= ts.len() {
        Ok(Seq::empty())
    } else {
        match mx_form(s, ts, p, k) {
            Ok((x, n)) => if k < n <= ts.len() {
                match mx_unit(s, ts, p, n) {
                    Ok(xs) => Ok(seq![x] + xs),
                    Err(f) => Err(f),
                }
            } else {
                Err(end_fail(s))
            },
            Err(f) => Err(f),
        }
    }
}

/// What reading a whole text gives: all its forms, symbols located in the
/// file `p`.
pub open spec fn read_all(s: Seq<char>, p: Seq<char>) -> Result<Seq<GAstV>, Fail> {
    match lex(s, 0) {
        Ok(ts) => mx_unit(s, ts, p, 0),
        Err(f) => Err(f),
    }
}

/// What reading a text that holds exactly one form gives.
pub open spec fn read_one(s: Seq<char>, p: Seq<char>) -> Result<GAstV, Fail> {
    match lex(s, 0) {
        Ok(ts) => if ts.len() == 0 {
            Err(end_fail(s))
        } else {
            match mx_form(s, ts, p, 0) {
                Ok((x, n)) => if n < ts.len() {
                    Err(Fail { kind: ParseErrorKind::TrailingInput, at: ts[n].start })
                } else {
                    Ok(x)
                },
                Err(f) => Err(f),
            }
        },
        Err(f) => Err(f),
    }
}

fn closes_tok(t: &Token, open: &Token) -> (r: bool)
    ensures
        r == closes(t@, open@),
{
    match open.kind {
        TokenKind::Open(b) => t.kind == TokenKind::Close(b),
        _ => false,
    }
}

/// Reads the form that starts at token `k`; on success also gives the
/// index of the token after it.
fn read_form(
    s: &Vec<char>,
    ts: &Vec<Token>,
    path: &Handle<String>,
    pool: &mut Interner,
    k: usize,
) -> (r: Result<(GAst, usize), ParseError>)
    requires
        s@.len() <= MAX_INPUT,
        toks_ok(s@, ts@),
        old(pool).wf(),
    ensures
        final(pool).wf(),
        match (r, mx_form(s@, tok_views(ts@), path@, k as int)) {
            (Ok((g, n)), Ok((gv, n2))) => g@ == gv && n == n2 && k < n <= ts@.len(),
            (Err(e), Err(f)) => e.reports(s@, f),
            _ => false,
        },
    decreases ts@.len() - k, 2int,
{
    let ghost tv = tok_views(ts@);
    match read_expr(s, ts, path, pool, k) {
        Ok((x, n)) => {
            if n < ts.len() {
                let t = ts[n];
                let prev = ts[n - 1];
                assert(tv[n as int] == t@ && tv[n - 1] == prev@);
                if let TokenKind::Open(_) = t.kind {
                    if t.start == prev.end {
                        let mut acc: Vec<GAst> = Vec::new();
                        acc.push(x);
                        proof {
                            lemma_views_push(Seq::empty(), x);
                            assert(views(acc@) =~= seq![x@]);
                        }
                        return match read_seq(s, ts, path, pool, n, acc) {
                            Ok((items, m)) => {
                                let g = GAst::List(Handle::new(List(items, None)));
                                assert(opt_view(None) == None::<Box<GAstV>>);
                    assert(g@ == GAstV::List(views(items@), None));
                                Ok((g, m))
                            },
                            Err(e) => Err(e),
                        };
                    }
                }
            }
            Ok((x, n))
        },
        Err(e) => Err(e),
    }
}

/// Reads a constant, or a bracketed sequence with its head symbol.
fn read_expr(
    s: &Vec<char>,
    ts: &Vec<Token>,
    path: &Handle<String>,
    pool: &mut Interner,
    k: usize,
) -> (r: Result<(GAst, usize), ParseError>)
    requires
        s@.len() <= MAX_INPUT,
        toks_ok(s@, ts@),
        old(pool).wf(),
    ensures
        final(pool).wf(),
        match (r, mx_expr(s@, tok_views(ts@), path@, k as int)) {
            (Ok((g, n)), Ok((gv, n2))) => g@ == gv && n == n2 && k < n <= ts@.len(),
            (Err(e), Err(f)) => e.reports(s@, f),
            _ => false,
        },
    decreases ts@.len() - k, 1int,
{
    if k >= ts.len() {
        return Err(error_at(s, ParseErrorKind::UnexpectedEnd, s.len()));
    }
    let t = ts[k];
    assert(tok_views(ts@)[k as int] == t@);
    match t.kind {
        TokenKind::Open(b) => {
            let word = match b {
                Bracket::Round => "list",
                Bracket::Curly => "tuple",
                Bracket::Square => "array",
            };
            proof {
                reveal_strlit("list");
                reveal_strlit("tuple");
                reveal_strlit("array");
                assert(word@ == head_word(b));
            }
            let head = symbol_at(s, word, &t, path, pool);
            let mut acc: Vec<GAst> = Vec::new();
            acc.push(head);
            proof {
                lemma_views_push(Seq::empty(), head);
                assert(views(acc@) =~= seq![head@]);
            }
            match read_seq(s, ts, path, pool, k, acc) {
                Ok((items, m)) => {
                    let g = GAst::List(Handle::new(List(items, None)));
                    assert(opt_view(None) == None::<Box<GAstV>>);
                    assert(g@ == GAstV::List(views(items@), None));
                    Ok((g, m))
                },
                Err(e) => Err(e),
            }
        },
        TokenKind::Str | TokenKind::Atom => match token_constant(s, &t, path, pool) {
            Ok(c) => Ok((GAst::Const(c), k + 1)),
            Err(e) => Err(e),
        },
        _ => Err(error_at(s, ParseErrorKind::UnexpectedToken, t.start)),
    }
}

/// Reads the elements of the sequence opened by token `open` after those
/// already in `acc`; on success also gives the index of the token after
/// its closing bracket.
fn read_seq(
    s: &Vec<char>,
    ts: &Vec<Token>,
    path: &Handle<String>,
    pool: &mut Interner,
    open: usize,
    init: Vec<GAst>,
) -> (r: Result<(Vec<GAst>, usize), ParseError>)
    requires
        s@.len() <= MAX_INPUT,
        toks_ok(s@, ts@),
        old(pool).wf(),
        open < ts@.len(),
    ensures
        final(pool).wf(),
        match (r, mx_seq(s@, tok_views(ts@), path@, open + 1, open as int, 0)) {
            (Ok((v, m)), Ok((xs, m2))) => views(v@) == views(init@) + xs && m == m2 && open < m
                <= ts@.len(),
            (Err(e), Err(f)) => e.reports(s@, f),
            _ => false,
        },
    decreases ts@.len() - open, 0int,
{
    let ghost tv = tok_views(ts@);
    let ghost whole = prefix_elems(views(init@), mx_seq(s@, tv, path@, open + 1, open as int, 0));
    let mut acc = init;
    let len = ts.len();
    let mut k: usize = open + 1;
    let mut state: u8 = 0;
    let o = ts[open];
    assert(tv[open as int] == o@);
    loop
        invariant
            s@.len() <= MAX_INPUT,
            toks_ok(s@, ts@),
            pool.wf(),
            tv == tok_views(ts@),
            open < k <= ts@.len(),
            state <= 2,
            o == ts@[open as int],
            whole == prefix_elems(views(acc@), mx_seq(s@, tv, path@, k as int, open as int, state as int)),
            whole == prefix_elems(views(init@), mx_seq(s@, tv, path@, open + 1, open as int, 0)),
            mx_seq(s@, tv, path@, open + 1, open as int, 0) is Err ==> mx_seq(s@, tv, path@, open + 1, open as int, 0) == whole,
            mx_seq(s@, tv, path@, k as int, open as int, state as int) is Err ==> mx_seq(s@, tv, path@, k as int, open as int, state as int) == whole,
        decreases ts@.len() - k,
    {
        if k >= ts.len() {
            return Err(error_at(s, ParseErrorKind::UnterminatedList, o.start));
        }
        let t = ts[k];
        assert(tv[k as int] == t@);
        if let TokenKind::Close(_) = t.kind {
            if state == 2 {
                return Err(error_at(s, ParseErrorKind::UnexpectedToken, t.start));
            } else if closes_tok(&t, &o) {
                proof {
                    assert(views(acc@) + Seq::<GAstV>::empty() =~= views(acc@));
                }
                return Ok((acc, k + 1));
            } else {
                return Err(error_at(s, ParseErrorKind::MismatchedBracket, t.start));
            }
        }
        if state == 1 {
            if let TokenKind::Sep = t.kind {
                k = k + 1;
                state = 2;
                continue;
            } else {
                return Err(error_at(s, ParseErrorKind::MissingSeparator, t.start));
            }
        }
        if let TokenKind::Sep = t.kind {
            return Err(error_at(s, ParseErrorKind::UnexpectedToken, t.start));
        }
        match read_form(s, ts, path, pool, k) {
            Ok((x, n)) => {
                let ghost before = acc@;
                acc.push(x);
                proof {
                    lemma_views_push(before, x);
                    match mx_seq(s@, tv, path@, n as int, open as int, 1) {
                        Ok((xs, m)) => {
                            assert(views(before) + (seq![x@] + xs) =~= views(before).push(x@)
                                + xs);
                        },
                        Err(_) => {},
                    }
                }
                k = n;
                state = 1;
            },
            Err(e) => {
                return Err(e);
            },
        }
    }
}

/// Reads every form of the token sequence, in order.
pub fn parse_unit(s: &Vec<char>, ts: &Vec<Token>, path: &Handle<String>, pool: &mut Interner) -> (r:
    Result<Vec<GAst>, ParseError>)
    requires
        s@.len() <= MAX_INPUT,
        toks_ok(s@, ts@),
        old(pool).wf(),
    ensures
        final(pool).wf(),
        match (r, mx_unit(s@, tok_views(ts@), path@, 0)) {
            (Ok(v), Ok(vs)) => views(v@) == vs,
            (Err(e), Err(f)) => e.reports(s@, f),
            _ => false,
        },
{
    let ghost tv = tok_views(ts@);
    let ghost whole = mx_unit(s@, tv, path@, 0);
    let mut acc: Vec<GAst> = Vec::new();
    let mut k: usize = 0;
    proof {
        assert(views(acc@) == Seq::<GAstV>::empty());
        match whole {
            Ok(xs) => assert(Seq::<GAstV>::empty() + xs =~= xs),
            Err(_) => {},
        }
    }
    while k < ts.len()
        invariant
            s@.len() <= MAX_INPUT,
            toks_ok(s@, ts@),
            pool.wf(),
            tv == tok_views(ts@),
            k <= ts@.len(),
            whole == mx_unit(s@, tv, path@, 0),
            whole == (match mx_unit(s@, tv, path@, k as int) {
                Ok(xs) => Ok(views(acc@) + xs),
                Err(f) => Err(f),
            }),
        decreases ts@.len() - k,
    {
        match read_form(s, ts, path, pool, k) {
            Ok((x, n)) => {
                let ghost before = acc@;
                acc.push(x);
                proof {
                    lemma_views_push(before, x);
                    match mx_unit(s@, tv, path@, n as int) {
                        Ok(xs) => {
                            assert(views(before) + (seq![x@] + xs) =~= views(before).push(x@)
                                + xs);
                        },
                        Err(_) => {},
                    }
                }
                k = n;
            },
            Err(e) => {
                return Err(e);
            },
        }
    }
    proof {
        assert(views(acc@) + Seq::<GAstV>::empty() =~= views(acc@));
    }
    Ok(acc)
}

/// Reads every top-level form of `input`; symbols are located in the file
/// `path` and interned in `pool`.
pub fn parse(input: &str, path: Handle<String>, pool: &mut Interner) -> (r: Result<
    Vec<GAst>,
    ParseError,
>)
    requires
        input@.len() <= MAX_INPUT,
        old(pool).wf(),
    ensures
        final(pool).wf(),
        match (r, read_all(input@, path@)) {
            (Ok(v), Ok(vs)) => views(v@) == vs,
            (Err(e), Err(f)) => e.reports(input@, f),
            _ => false,
        },
{
    let s = chars_of(input);
    match tokenize(&s) {
        Ok(ts) => parse_unit(&s, &ts, &path, pool),
        Err(e) => Err(e),
    }
}

/// Reads a text that holds exactly one form; symbols are located in the
/// file `path` and interned in `pool`.
pub fn one_unit_parse(input: &str, path: &str, pool: &mut Interner) -> (r: Result<GAst, ParseError>)
    requires
        input@.len() <= MAX_INPUT,
        old(pool).wf(),
    ensures
        final(pool).wf(),
        match (r, read_one(input@, path@)) {
            (Ok(g), Ok(gv)) => g@ == gv,
            (Err(e), Err(f)) => e.reports(input@, f),
            _ => false,
        },
{
    let s = chars_of(input);
    let file = Handle::new(path.to_owned());
    match tokenize(&s) {
        Ok(ts) => {
            if ts.len() == 0 {
                return Err(error_at(&s, ParseErrorKind::UnexpectedEnd, s.len()));
            }
            match read_form(&s, &ts, &file, pool, 0) {
                Ok((x, n)) => {
                    if n < ts.len() {
                        let t = ts[n];
                        assert(tok_views(ts@)[n as int] == t@);
                        Err(error_at(&s, ParseErrorKind::TrailingInput, t.start))
                    } else {
                        Ok(x)
                    }
                },
                Err(e) => Err(e),
            }
        },
        Err(e) => Err(e),
    }
}

/// Reads one form typed at a prompt; symbols are located in `<stdin>`.
pub fn repl_parse(input: &str, pool: &mut Interner) -> (r: Result<GAst, ParseError>)
    requires
        input@.len() <= MAX_INPUT,
        old(pool).wf(),
    ensures
        final(pool).wf(),
        match (r, read_one(input@, "<stdin>"@)) {
            (Ok(g), Ok(gv)) => g@ == gv,
            (Err(e), Err(f)) => e.reports(input@, f),
            _ => false,
        },
{
    one_unit_parse(input, "<stdin>", pool)
}

} // verus!
