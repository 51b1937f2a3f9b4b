//! The S-expression dialect: `(a b . c)`, `'x`, `` `x ``, atoms and strings.
use vstd::prelude::*;
use crate::gast::{opt_view, views, lemma_views_push, GAst, GAstV, Handle};
use crate::gast::constant::ConstV;
use crate::gast::list::List;
use crate::gast::symbol::SymbolV;
use crate::intern::Interner;
use crate::syntax::atom::{loc_of, symbol_at, tok_const, token_constant};
use crate::syntax::lexer::{
    error_at, lex, tok_views, tokenize, toks_ok, Fail, ParseError, ParseErrorKind, Tok, Token,
    TokenKind, MAX_INPUT,
};
use crate::utils::chars_of;

verus! {

/// The symbol that reader sugar expands to, written where the sugar stands.
pub open spec fn sym_at(word: Seq<char>, s: Seq<char>, t: Tok, p: Seq<char>) -> GAstV {
    GAstV::Const(ConstV::Sym(SymbolV { text: word, loc: loc_of(s, t, p) }))
}

pub open spec fn quote_word(k: TokenKind) -> Seq<char> {
    if k is Quote {
        seq!['q', 'u', 'o', 't', 'e']
    } else {
        seq!['u', 'n', 'q', 'u', 'o', 't', 'e']
    }
}

/// The atom `.` that introduces the tail of a dotted list.
pub open spec fn is_dot(s: Seq<char>, t: Tok) -> bool {
    t.kind is Atom && t.end == t.start + 1 && s[t.start] == '.'
}

/// `t` closes the bracket that `open` opened.
pub open spec fn closes(t: Tok, open: Tok) -> bool {
    match open.kind {
        TokenKind::Open(b) => t.kind == TokenKind::Close(b),
        _ => false,
    }
}

pub open spec fn end_fail(s: Seq<char>) -> Fail {
    Fail { kind: ParseErrorKind::UnexpectedEnd, at: s.len() as int }
}

pub open spec fn unterminated(ts: Seq<Tok>, open: int) -> Fail {
    Fail {
        kind: ParseErrorKind::UnterminatedList,
        at: if 0 <= open < ts.len() {
            ts[open].start
        } else {
            0
        },
    }
}

pub open spec fn prefix_items(
    acc: Seq<GAstV>,
    r: Result<(Seq<GAstV>, Option<Box<GAstV>>, int), Fail>,
) -> Result<(Seq<GAstV>, Option<Box<GAstV>>, int), Fail> {
    match r {
        Ok((xs, tl, m)) => Ok((acc + xs, tl, m)),
        Err(f) => Err(f),
    }
}

/// The form that starts at token `k`, and the index of the token after it.
pub open spec fn sx_form(s: Seq<char>, ts: Seq<Tok>, p: Seq<char>, k: int) -> Result<
    (GAstV, int),
    Fail,
>
    decreases ts.len() - k, 0int,
{
    if k < 0 || k >= ts.len() {
        Err(end_fail(s))
    } else {
        let t = ts[k];
        match t.kind {
            TokenKind::Open(_) => match sx_items(s, ts, p, k + 1, k, true) {
                Ok((xs, tl, m)) => Ok((GAstV::List(xs, tl), m)),
                Err(f) => Err(f),
            },
            TokenKind::Quote | TokenKind::Unquote => match sx_form(s, ts, p, k + 1) {
                Ok((x, m)) => Ok(
                    (GAstV::List(seq![sym_at(quote_word(t.kind), s, t, p), x], None), m),
                ),
                Err(f) => Err(f),
            },
            TokenKind::Str | TokenKind::Atom => match tok_const(s, t, p) {
                Ok(c) => Ok((GAstV::Const(c), k + 1)),
                Err(f) => Err(f),
            },
            _ => Err(Fail { kind: ParseErrorKind::UnexpectedToken, at: t.start }),
        }
    }
}

/// The elements and tail of the list opened by token `open`, read from
/// token `k` on; `first` holds until an element has been read.
pub open spec fn sx_items(
    s: Seq<char>,
    ts: Seq<Tok>,
    p: Seq<char>,
    k: int,
    open: int,
    first: bool,
) -> Result<(Seq<GAstV>, Option<Box<GAstV>>, int), Fail>
    decreases ts.len() - k, 1int,
{
    if k < 0 || k >= ts.len() || open < 0 || open >= ts.len() {
        Err(unterminated(ts, open))
    } else {
        let t = ts[k];
        if t.kind is Close {
            if closes(t, ts[open]) {
                Ok((Seq::empty(), None, k + 1))
            } else {
                Err(Fail { kind: ParseErrorKind::MismatchedBracket, at: t.start })
            }
        } else if !first && is_dot(s, t) {
            match sx_form(s, ts, p, k + 1) {
                Ok((x, n)) => if n >= ts.len() {
                    Err(unterminated(ts, open))
                } else if closes(ts[n], ts[open]) {
                    Ok((Seq::empty(), Some(Box::new(x)), n + 1))
                } else {
                    Err(Fail { kind: ParseErrorKind::UnexpectedToken, at: ts[n].start })
                },
                Err(f) => Err(f),
            }
        } else {
            match sx_form(s, ts, p, k) {
                Ok((x, n)) => if k < n <= ts.len() {
                    prefix_items(seq![x], sx_items(s, ts, p, n, open, false))
                } else {
                    Err(end_fail(s))
                },
                Err(f) => Err(f),
            }
        }
    }
}

/// Every form from token `k` to the end.
pub open spec fn sx_unit(s: Seq<char>, ts: Seq<Tok>, p: Seq<char>, k: int) -> Result<
    Seq<GAstV>,
    Fail,
>
    decreases ts.len() - k,
{
    if k < 0 || k >= ts.len() {
        Ok(Seq::empty())
    } else {
        match sx_form(s, ts, p, k) {
            Ok((x, n)) => if k < n <= ts.len() {
                match sx_unit(s, ts, p, n) {
                    Ok(xs) => Ok(seq![x] + xs),
                    Err(f) => Err(f),
                }
            } else {
                Err(end_fail(s))
            },
            Err(f) => Err(f),
        }
    }
}

/// What reading a whole text gives: all its forms, symbols located in the
/// file `p`.
pub open spec fn read_all(s: Seq<char>, p: Seq<char>) -> Result<Seq<GAstV>, Fail> {
    match lex(s, 0) {
        Ok(ts) => sx_unit(s, ts, p, 0),
        Err(f) => Err(f),
    }
}

/// What reading a text that holds exactly one form gives.
pub open spec fn read_one(s: Seq<char>, p: Seq<char>) -> Result<GAstV, Fail> {
    match lex(s, 0) {
        Ok(ts) => if ts.len() == 0 {
            Err(end_fail(s))
        } else {
            match sx_form(s, ts, p, 0) {
                Ok((x, n)) => if n < ts.len() {
                    Err(Fail { kind: ParseErrorKind::TrailingInput, at: ts[n].start })
                } else {
                    Ok(x)
                },
                Err(f) => Err(f),
            }
        },
        Err(f) => Err(f),
    }
}

/// Every list in `g` that has a dotted tail has at least one element
/// before the dot.
pub open spec fn dotted_ok(g: GAstV) -> bool
    decreases g,
{
    match g {
        GAstV::Const(_) => true,
        GAstV::Pair(a, b) => dotted_ok(*a) && dotted_ok(*b),
        GAstV::List(xs, tl) => (tl is Some ==> xs.len() > 0) && (forall|i: int|
            0 <= i < xs.len() ==> dotted_ok(#[trigger] xs[i])) && match tl {
            Some(t) => dotted_ok(*t),
            None => true,
        },
    }
}

proof fn lemma_form_dotted(s: Seq<char>, ts: Seq<Tok>, p: Seq<char>, k: int)
    ensures
        sx_form(s, ts, p, k) matches Ok((x, _)) ==> dotted_ok(x),
    decreases ts.len() - k, 0int,
{
    if 0 <= k < ts.len() {
        let t = ts[k];
        match t.kind {
            TokenKind::Open(_) => {
                lemma_items_dotted(s, ts, p, k + 1, k, true);
            },
            TokenKind::Quote | TokenKind::Unquote => {
                lemma_form_dotted(s, ts, p, k + 1);
                if let Ok((x, m)) = sx_form(s, ts, p, k + 1) {
                    let xs = seq![sym_at(quote_word(t.kind), s, t, p), x];
                    assert(dotted_ok(xs[0]));
                    assert(dotted_ok(xs[1]));
                    assert(dotted_ok(GAstV::List(xs, None)));
                }
            },
            _ => {},
        }
    }
}

proof fn lemma_items_dotted(
    s: Seq<char>,
    ts: Seq<Tok>,
    p: Seq<char>,
    k: int,
    open: int,
    first: bool,
)
    ensures
        sx_items(s, ts, p, k, open, first) matches Ok((xs, tl, _)) ==> (forall|i: int|
            0 <= i < xs.len() ==> dotted_ok(#[trigger] xs[i])) && (first && tl is Some ==> xs.len()
            > 0) && (tl matches Some(t) ==> dotted_ok(*t)),
    decreases ts.len() - k, 1int,
{
    if 0 <= k < ts.len() && 0 <= open < ts.len() {
        let t = ts[k];
        if t.kind is Close {
        } else if !first && is_dot(s, t) {
            lemma_form_dotted(s, ts, p, k + 1);
        } else {
            lemma_form_dotted(s, ts, p, k);
            if let Ok((x, n)) = sx_form(s, ts, p, k) {
                if k < n <= ts.len() {
                    lemma_items_dotted(s, ts, p, n, open, false);
                    if let Ok((xs, tl, m)) = sx_items(s, ts, p, n, open, false) {
                        let all = seq![x] + xs;
                        assert forall|i: int| 0 <= i < all.len() implies dotted_ok(#[trigger] all[i]) by {
                            if i > 0 {
                                assert(all[i] == xs[i - 1]);
                            }
                        }
                    }
                }
            }
        }
    }
}

proof fn lemma_unit_dotted(s: Seq<char>, ts: Seq<Tok>, p: Seq<char>, k: int)
    ensures
        sx_unit(s, ts, p, k) matches Ok(xs) ==> forall|i: int|
            0 <= i < xs.len() ==> dotted_ok(#[trigger] xs[i]),
    decreases ts.len() - k,
{
    if 0 <= k < ts.len() {
        lemma_form_dotted(s, ts, p, k);
        if let Ok((x, n)) = sx_form(s, ts, p, k) {
            if k < n <= ts.len() {
                lemma_unit_dotted(s, ts, p, n);
                if let Ok(xs) = sx_unit(s, ts, p, n) {
                    let all = seq![x] + xs;
                    assert forall|i: int| 0 <= i < all.len() implies dotted_ok(#[trigger] all[i]) by {
                        if i > 0 {
                            assert(all[i] == xs[i - 1]);
                        }
                    }
                }
            }
        }
    }
}

/// In every tree that reading S-expressions gives, a list with a dotted
/// tail has at least one element before the dot.
pub proof fn lemma_dotted_tail_has_elements(s: Seq<char>, p: Seq<char>)
    ensures
        read_all(s, p) matches Ok(forms) ==> forall|i: int|
            0 <= i < forms.len() ==> dotted_ok(#[trigger] forms[i]),
        read_one(s, p) matches Ok(form) ==> dotted_ok(form),
{
    if let Ok(ts) = lex(s, 0) {
        lemma_unit_dotted(s, ts, p, 0);
        lemma_form_dotted(s, ts, p, 0);
    }
}

fn closes_tok(t: &Token, open: &Token) -> (r: bool)
    ensures
        r == closes(t@, open@),
{
    match open.kind {
        TokenKind::Open(b) => t.kind == TokenKind::Close(b),
        _ => false,
    }
}

fn dot_tok(s: &Vec<char>, t: &Token) -> (r: bool)
    requires
        t@.wf(s@),
    ensures
        r == is_dot(s@, t@),
{
    t.kind == TokenKind::Atom && t.end == t.start + 1 && s[t.start] == '.'
}

/// Reads the form that starts at token `k`; on success also gives the
/// index of the token after it.
fn read_form(
    s: &Vec<char>,
    ts: &Vec<Token>,
    path: &Handle<String>,
    pool: &mut Interner,
    k: usize,
) -> (r: Result<(GAst, usize), ParseError>)
    requires
        s@.len() <= MAX_INPUT,
        toks_ok(s@, ts@),
        old(pool).wf(),
    ensures
        final(pool).wf(),
        match (r, sx_form(s@, tok_views(ts@), path@, k as int)) {
            (Ok((g, n)), Ok((gv, n2))) => g@ == gv && n == n2 && k < n <= ts@.len(),
            (Err(e), Err(f)) => e.reports(s@, f),
            _ => false,
        },
    decreases ts@.len() - k, 1int,
{
    if k >= ts.len() {
        return Err(error_at(s, ParseErrorKind::UnexpectedEnd, s.len()));
    }
    let t = ts[k];
    assert(tok_views(ts@)[k as int] == t@);
    assert(t.located(s@) && t@.wf(s@));
    match t.kind {
        TokenKind::Open(_) => match read_items(s, ts, path, pool, k) {
            Ok((xs, tail, m)) => {
                let g = GAst::List(Handle::new(List(xs, tail)));
                assert(g@ == GAstV::List(views(xs@), opt_view(tail)));
                Ok((g, m))
            },
            Err(e) => Err(e),
        },
        TokenKind::Quote | TokenKind::Unquote => {
            let word = if let TokenKind::Quote = t.kind {
                "quote"
            } else {
                "unquote"
            };
            proof {
                reveal_strlit("quote");
                reveal_strlit("unquote");
                assert(word@ == quote_word(t.kind));
            }
            let head = symbol_at(s, word, &t, path, pool);
            match read_form(s, ts, path, pool, k + 1) {
                Ok((x, m)) => {
                    let mut items: Vec<GAst> = Vec::new();
                    items.push(head);
                    proof {
                        lemma_views_push(Seq::empty(), head);
                    }
                    let ghost first = items@;
                    items.push(x);
                    proof {
                        lemma_views_push(first, x);
                        assert(views(items@) =~= seq![head@, x@]);
                    }
                    let g = GAst::List(Handle::new(List(items, None)));
                    assert(opt_view(None) == None::<Box<GAstV>>);
                    assert(g@ == GAstV::List(seq![head@, x@], None));
                    Ok((g, m))
                },
                Err(e) => Err(e),
            }
        },
        TokenKind::Str | TokenKind::Atom => match token_constant(s, &t, path, pool) {
            Ok(c) => Ok((GAst::Const(c), k + 1)),
            Err(e) => Err(e),
        },
        _ => Err(error_at(s, ParseErrorKind::UnexpectedToken, t.start)),
    }
}

/// Reads the elements and the tail of the list opened by token `open`; on
/// success also gives the index of the token after its closing bracket.
fn read_items(
    s: &Vec<char>,
    ts: &Vec<Token>,
    path: &Handle<String>,
    pool: &mut Interner,
    open: usize,
) -> (r: Result<(Vec<GAst>, Option<GAst>, usize), ParseError>)
    requires
        s@.len() <= MAX_INPUT,
        toks_ok(s@, ts@),
        old(pool).wf(),
        open < ts@.len(),
    ensures
        final(pool).wf(),
        match (r, sx_items(s@, tok_views(ts@), path@, open + 1, open as int, true)) {
            (Ok((xs, tl, m)), Ok((xv, tlv, m2))) => views(xs@) == xv && opt_view(tl) == tlv && m
                == m2 && open < m <= ts@.len(),
            (Err(e), Err(f)) => e.reports(s@, f),
            _ => false,
        },
    decreases ts@.len() - open, 0int,
{
    let ghost tv = tok_views(ts@);
    let ghost whole = sx_items(s@, tv, path@, open + 1, open as int, true);
    let mut acc: Vec<GAst> = Vec::new();
    let len = ts.len();
    let mut k: usize = open + 1;
    let mut first = true;
    let o = ts[open];
    assert(tv[open as int] == o@);
    proof {
        assert(views(acc@) =~= Seq::<GAstV>::empty()) by {
            assert(views(acc@) == Seq::<GAstV>::empty());
        }
        match whole {
            Ok((xs, tl, m)) => assert(Seq::<GAstV>::empty() + xs =~= xs),
            Err(_) => {},
        }
    }
    loop
        invariant
            s@.len() <= MAX_INPUT,
            toks_ok(s@, ts@),
            pool.wf(),
            tv == tok_views(ts@),
            open < k <= ts@.len(),
            o == ts@[open as int],
            whole == sx_items(s@, tv, path@, open + 1, open as int, true),
            whole == prefix_items(views(acc@), sx_items(s@, tv, path@, k as int, open as int, first)),
        decreases ts@.len() - k,
    {
        if k >= ts.len() {
            return Err(error_at(s, ParseErrorKind::UnterminatedList, o.start));
        }
        let t = ts[k];
        assert(tv[k as int] == t@);
        if let TokenKind::Close(_) = t.kind {
            if closes_tok(&t, &o) {
                proof {
                    assert(views(acc@) + Seq::<GAstV>::empty() =~= views(acc@));
                }
                return Ok((acc, None, k + 1));
            } else {
                return Err(error_at(s, ParseErrorKind::MismatchedBracket, t.start));
            }
        }
        if !first && dot_tok(s, &t) {
            match read_form(s, ts, path, pool, k + 1) {
                Ok((x, n)) => {
                    if n >= ts.len() {
                        return Err(error_at(s, ParseErrorKind::UnterminatedList, o.start));
                    }
                    let c = ts[n];
                    assert(tv[n as int] == c@);
                    if closes_tok(&c, &o) {
                        proof {
                            assert(views(acc@) + Seq::<GAstV>::empty() =~= views(acc@));
                        }
                        return Ok((acc, Some(x), n + 1));
                    } else {
                        return Err(error_at(s, ParseErrorKind::UnexpectedToken, c.start));
                    }
                },
                Err(e) => {
                    return Err(e);
                },
            }
        }
        match read_form(s, ts, path, pool, k) {
            Ok((x, n)) => {
                let ghost before = acc@;
                acc.push(x);
                proof {
                    lemma_views_push(before, x);
                    match sx_items(s@, tv, path@, n as int, open as int, false) {
                        Ok((xs, tl, m)) => {
                            assert(views(before) + (seq![x@] + xs) =~= views(before).push(x@)
                                + xs);
                        },
                        Err(_) => {},
                    }
                }
                k = n;
                first = false;
            },
            Err(e) => {
                return Err(e);
            },
        }
    }
}

/// Reads every form of the token sequence, in order.
pub fn parse_unit(s: &Vec<char>, ts: &Vec<Token>, path: &Handle<String>, pool: &mut Interner) -> (r:
    Result<Vec<GAst>, ParseError>)
    requires
        s@.len() <= MAX_INPUT,
        toks_ok(s@, ts@),
        old(pool).wf(),
    ensures
        final(pool).wf(),
        match (r, sx_unit(s@, tok_views(ts@), path@, 0)) {
            (Ok(v), Ok(vs)) => views(v@) == vs,
            (Err(e), Err(f)) => e.reports(s@, f),
            _ => false,
        },
{
    let ghost tv = tok_views(ts@);
    let ghost whole = sx_unit(s@, tv, path@, 0);
    let mut acc: Vec<GAst> = Vec::new();
    let mut k: usize = 0;
    proof {
        assert(views(acc@) == Seq::<GAstV>::empty());
        match whole {
            Ok(xs) => assert(Seq::<GAstV>::empty() + xs =~= xs),
            Err(_) => {},
        }
    }
    while k < ts.len()
        invariant
            s@.len() <= MAX_INPUT,
            toks_ok(s@, ts@),
            pool.wf(),
            tv == tok_views(ts@),
            k <= ts@.len(),
            whole == sx_unit(s@, tv, path@, 0),
            whole == (match sx_unit(s@, tv, path@, k as int) {
                Ok(xs) => Ok(views(acc@) + xs),
                Err(f) => Err(f),
            }),
        decreases ts@.len() - k,
    {
        match read_form(s, ts, path, pool, k) {
            Ok((x, n)) => {
                let ghost before = acc@;
                acc.push(x);
                proof {
                    lemma_views_push(before, x);
                    match sx_unit(s@, tv, path@, n as int) {
                        Ok(xs) => {
                            assert(views(before) + (seq![x@] + xs) =~= views(before).push(x@)
                                + xs);
                        },
                        Err(_) => {},
                    }
                }
                k = n;
            },
            Err(e) => {
                return Err(e);
            },
        }
    }
    proof {
        assert(views(acc@) + Seq::<GAstV>::empty() =~= views(acc@));
    }
    Ok(acc)
}

/// Reads every top-level form of `input`; symbols are located in the file
/// `path` and interned in `pool`.
pub fn parse(input: &str, path: Handle<String>, pool: &mut Interner) -> (r: Result<
    Vec<GAst>,
    ParseError,
>)
    requires
        input@.len() <= MAX_INPUT,
        old(pool).wf(),
    ensures
        final(pool).wf(),
        match (r, read_all(input@, path@)) {
            (Ok(v), Ok(vs)) => views(v@) == vs,
            (Err(e), Err(f)) => e.reports(input@, f),
            _ => false,
        },
{
    let s = chars_of(input);
    match tokenize(&s) {
        Ok(ts) => parse_unit(&s, &ts, &path, pool),
        Err(e) => Err(e),
    }
}

/// Reads a text that holds exactly one form; symbols are located in the
/// file `path` and interned in `pool`.
pub fn one_unit_parse(input: &str, path: &str, pool: &mut Interner) -> (r: Result<GAst, ParseError>)
    requires
        input@.len() <= MAX_INPUT,
        old(pool).wf(),
    ensures
        final(pool).wf(),
        match (r, read_one(input@, path@)) {
            (Ok(g), Ok(gv)) => g@ == gv,
            (Err(e), Err(f)) => e.reports(input@, f),
            _ => false,
        },
{
    let s = chars_of(input);
    let file = Handle::new(path.to_owned());
    match tokenize(&s) {
        Ok(ts) => {
            if ts.len() == 0 {
                return Err(error_at(&s, ParseErrorKind::UnexpectedEnd, s.len()));
            }
            match read_form(&s, &ts, &file, pool, 0) {
                Ok((x, n)) => {
                    if n < ts.len() {
                        let t = ts[n];
                        assert(tok_views(ts@)[n as int] == t@);
                        Err(error_at(&s, ParseErrorKind::TrailingInput, t.start))
                    } else {
                        Ok(x)
                    }
                },
                Err(e) => Err(e),
            }
        },
        Err(e) => Err(e),
    }
}

/// Reads one form typed at a prompt; symbols are located in `<stdin>`.
pub fn repl_parse(input: &str, pool: &mut Interner) -> (r: Result<GAst, ParseError>)
    requires
        input@.len() <= MAX_INPUT,
        old(pool).wf(),
    ensures
        final(pool).wf(),
        match (r, read_one(input@, "<stdin>"@)) {
            (Ok(g), Ok(gv)) => g@ == gv,
            (Err(e), Err(f)) => e.reports(input@, f),
            _ => false,
        },
{
    one_unit_parse(input, "<stdin>", pool)
}

} // verus!
