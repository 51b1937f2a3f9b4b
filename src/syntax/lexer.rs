//! Tokens, source positions and parse errors.
use vstd::prelude::*;
use crate::utils::{escapes_ok, is_escapable, lemma_escapes_concat};

verus! {

/// Longest input, in characters, that the readers accept: byte offsets of
/// every position then fit in `usize`.
pub const MAX_INPUT: usize = 0x3fff_ffff;

#[derive(Debug, Clone, Copy, PartialEq, Eq, Structural)]
pub enum Bracket {
    Round,
    Square,
    Curly,
}

#[derive(Debug, Clone, Copy, PartialEq, Eq, Structural)]
pub enum TokenKind {
    Open(Bracket),
    Close(Bracket),
    /// `'`
    Quote,
    /// `` ` ``
    Unquote,
    /// `,` or `;`
    Sep,
    /// A double-quoted literal, delimiters included.
    Str,
    /// A run of characters that are neither blanks nor punctuation.
    Atom,
}

/// A token: its kind, the character range `start..end` it covers, and the
/// position of its first character.
#[derive(Debug, Clone, Copy)]
pub struct Token {
    pub kind: TokenKind,
    pub start: usize,
    pub end: usize,
    pub line: usize,
    pub colum: usize,
    pub pos: usize,
}

pub struct Tok {
    pub kind: TokenKind,
    pub start: int,
    pub end: int,
}

impl View for Token {
    type V = Tok;

    open spec fn view(&self) -> Tok {
        Tok { kind: self.kind, start: self.start as int, end: self.end as int }
    }
}

pub open spec fn tok_views(ts: Seq<Token>) -> Seq<Tok> {
    ts.map_values(|t: Token| t@)
}

#[derive(Debug, Clone, Copy, PartialEq, Eq, Structural)]
pub enum ParseErrorKind {
    /// A string literal with no closing quote.
    UnterminatedString,
    /// A backslash not followed by one of the supported escapes.
    InvalidEscape,
    /// A list whose closing bracket never comes.
    UnterminatedList,
    /// A closing bracket of another kind than the opening one.
    MismatchedBracket,
    /// A token that cannot stand where it was found.
    UnexpectedToken,
    /// The text ended where a form was expected.
    UnexpectedEnd,
    /// More text after the one form that was asked for.
    TrailingInput,
    /// An integer literal outside the range of its type.
    NumberOutOfRange,
    /// Two elements of a bracketed sequence without a separator between them.
    MissingSeparator,
}

/// Why and where reading failed.
#[derive(Debug, Clone, Copy, PartialEq, Eq)]
pub struct ParseError {
    pub kind: ParseErrorKind,
    pub line: usize,
    pub colum: usize,
    pub pos: usize,
}

/// A failure in the model: its kind and the character index it refers to.
pub struct Fail {
    pub kind: ParseErrorKind,
    pub at: int,
}

/// Bytes taken by a character in UTF-8.
pub open spec fn utf8_width(c: char) -> nat {
    if (c as u32) < 0x80 {
        1
    } else if (c as u32) < 0x800 {
        2
    } else if (c as u32) < 0x10000 {
        3
    } else {
        4
    }
}

/// 1-based line of character index `i`.
pub open spec fn line_at(s: Seq<char>, i: int) -> nat
    decreases i,
{
    if i <= 0 {
        1
    } else if s[i - 1] == '\n' {
        line_at(s, i - 1) + 1
    } else {
        line_at(s, i - 1)
    }
}

/// 1-based column of character index `i`, counted in characters.
pub open spec fn colum_at(s: Seq<char>, i: int) -> nat
    decreases i,
{
    if i <= 0 {
        1
    } else if s[i - 1] == '\n' {
        1
    } else {
        colum_at(s, i - 1) + 1
    }
}

/// Byte offset of character index `i`.
pub open spec fn byte_at(s: Seq<char>, i: int) -> nat
    decreases i,
{
    if i <= 0 {
        0
    } else {
        byte_at(s, i - 1) + utf8_width(s[i - 1])
    }
}

impl ParseError {
    /// This error reports `f` in the text `s`.
    pub open spec fn reports(&self, s: Seq<char>, f: Fail) -> bool {
        &&& self.kind == f.kind
        &&& self.line == line_at(s, f.at)
        &&& self.colum == colum_at(s, f.at)
        &&& self.pos == byte_at(s, f.at)
    }
}

impl Tok {
    /// What the lexer guarantees of every token it yields.
    pub open spec fn wf(&self, s: Seq<char>) -> bool {
        &&& 0 <= self.start < self.end <= s.len()
        &&& self.kind is Str ==> self.end >= self.start + 2 && escapes_ok(
            s.subrange(self.start + 1, self.end - 1),
        )
    }
}

impl Token {
    /// The recorded position is that of the token's first character.
    pub open spec fn located(&self, s: Seq<char>) -> bool {
        &&& self.line == line_at(s, self.start as int)
        &&& self.colum == colum_at(s, self.start as int)
        &&& self.pos == byte_at(s, self.start as int)
    }
}

/// Every token is well formed and carries its own position.
pub open spec fn toks_ok(s: Seq<char>, ts: Seq<Token>) -> bool {
    forall|k: int| 0 <= k < ts.len() ==> (#[trigger] ts[k]).located(s) && ts[k]@.wf(s)
}

pub open spec fn is_space(c: char) -> bool {
    c == ' ' || c == '\t' || c == '\n' || c == '\r'
}

/// The token that a punctuation character forms on its own.
pub open spec fn punct(c: char) -> Option<TokenKind> {
    if c == '(' {
        Some(TokenKind::Open(Bracket::Round))
    } else if c == '[' {
        Some(TokenKind::Open(Bracket::Square))
    } else if c == '{' {
        Some(TokenKind::Open(Bracket::Curly))
    } else if c == ')' {
        Some(TokenKind::Close(Bracket::Round))
    } else if c == ']' {
        Some(TokenKind::Close(Bracket::Square))
    } else if c == '}' {
        Some(TokenKind::Close(Bracket::Curly))
    } else if c == '\'' {
        Some(TokenKind::Quote)
    } else if c == '`' {
        Some(TokenKind::Unquote)
    } else if c == ',' || c == ';' {
        Some(TokenKind::Sep)
    } else {
        None
    }
}

pub open spec fn ends_atom(c: char) -> bool {
    is_space(c) || punct(c) is Some || c == '"'
}

/// End of the atom that starts at `i`.
pub open spec fn atom_end(s: Seq<char>, i: int) -> int
    decreases s.len() - i,
{
    if 0 <= i < s.len() && !ends_atom(s[i]) {
        atom_end(s, i + 1)
    } else {
        i
    }
}

/// Index of the quote that closes a string literal whose body starts at
/// `j`, or the failure that stops it.
pub open spec fn string_close(s: Seq<char>, j: int) -> Result<int, Fail>
    decreases s.len() - j,
{
    if j < 0 || j >= s.len() {
        Err(Fail { kind: ParseErrorKind::UnterminatedString, at: j })
    } else if s[j] == '"' {
        Ok(j)
    } else if s[j] == '\\' {
        if j + 1 >= s.len() {
            Err(Fail { kind: ParseErrorKind::UnterminatedString, at: j })
        } else if is_escapable(s[j + 1]) {
            string_close(s, j + 2)
        } else {
            Err(Fail { kind: ParseErrorKind::InvalidEscape, at: j })
        }
    } else {
        string_close(s, j + 1)
    }
}

pub open spec fn cons_tok(t: Tok, rest: Result<Seq<Tok>, Fail>) -> Result<Seq<Tok>, Fail> {
    match rest {
        Ok(ts) => Ok(seq![t] + ts),
        Err(f) => Err(f),
    }
}

pub open spec fn prefix_toks(a: Seq<Tok>, rest: Result<Seq<Tok>, Fail>) -> Result<
    Seq<Tok>,
    Fail,
> {
    match rest {
        Ok(ts) => Ok(a + ts),
        Err(f) => Err(f),
    }
}

/// The tokens of `s` from index `i` on: blanks separate tokens, each
/// punctuation character is a token, a string literal runs to its closing
/// quote, and any other run of characters is an atom.
pub open spec fn lex(s: Seq<char>, i: int) -> Result<Seq<Tok>, Fail>
    decreases s.len() - i,
{
    if i < 0 || i >= s.len() {
        Ok(Seq::empty())
    } else if is_space(s[i]) {
        lex(s, i + 1)
    } else if punct(s[i]) is Some {
        cons_tok(Tok { kind: punct(s[i])->0, start: i, end: i + 1 }, lex(s, i + 1))
    } else if s[i] == '"' {
        match string_close(s, i + 1) {
            Ok(e) => if i < e < s.len() {
                cons_tok(Tok { kind: TokenKind::Str, start: i, end: e + 1 }, lex(s, e + 1))
            } else {
                Ok(Seq::empty())
            },
            Err(f) => Err(f),
        }
    } else {
        let e = atom_end(s, i);
        if i < e <= s.len() {
            cons_tok(Tok { kind: TokenKind::Atom, start: i, end: e }, lex(s, e))
        } else {
            Ok(Seq::empty())
        }
    }
}

pub proof fn lemma_position_bounds(s: Seq<char>, i: int)
    requires
        0 <= i <= s.len(),
    ensures
        line_at(s, i) <= i + 1,
        colum_at(s, i) <= i + 1,
        byte_at(s, i) <= 4 * i,
    decreases i,
{
    if i > 0 {
        lemma_position_bounds(s, i - 1);
    }
}

/// Moves the position `(line, colum, pos)` of index `from` forward to `to`.
pub fn advance(s: &Vec<char>, from: usize, to: usize, line: usize, colum: usize, pos: usize) -> (r: (
    usize,
    usize,
    usize,
))
    requires
        from <= to <= s@.len() <= MAX_INPUT,
        line == line_at(s@, from as int),
        colum == colum_at(s@, from as int),
        pos == byte_at(s@, from as int),
    ensures
        r.0 == line_at(s@, to as int),
        r.1 == colum_at(s@, to as int),
        r.2 == byte_at(s@, to as int),
{
    let mut k = from;
    let mut l = line;
    let mut c = colum;
    let mut p = pos;
    while k < to
        invariant
            from <= k <= to <= s@.len() <= MAX_INPUT,
            l == line_at(s@, k as int),
            c == colum_at(s@, k as int),
            p == byte_at(s@, k as int),
        decreases to - k,
    {
        proof {
            lemma_position_bounds(s@, k as int);
        }
        let ch = s[k];
        if ch == '\n' {
            l = l + 1;
            c = 1;
        } else {
            c = c + 1;
        }
        let code = ch as u32;
        if code < 0x80 {
            p = p + 1;
        } else if code < 0x800 {
            p = p + 2;
        } else if code < 0x10000 {
            p = p + 3;
        } else {
            p = p + 4;
        }
        k = k + 1;
    }
    (l, c, p)
}

/// The error of kind `kind` at character index `at`.
pub fn error_at(s: &Vec<char>, kind: ParseErrorKind, at: usize) -> (r: ParseError)
    requires
        at <= s@.len() <= MAX_INPUT,
    ensures
        r.reports(s@, Fail { kind, at: at as int }),
{
    let (line, colum, pos) = advance(s, 0, at, 1, 1, 0);
    ParseError { kind, line, colum, pos }
}

fn space_char(c: char) -> (r: bool)
    ensures
        r == is_space(c),
{
    c == ' ' || c == '\t' || c == '\n' || c == '\r'
}

fn punct_char(c: char) -> (r: Option<TokenKind>)
    ensures
        r == punct(c),
{
    match c {
        '(' => Some(TokenKind::Open(Bracket::Round)),
        '[' => Some(TokenKind::Open(Bracket::Square)),
        '{' => Some(TokenKind::Open(Bracket::Curly)),
        ')' => Some(TokenKind::Close(Bracket::Round)),
        ']' => Some(TokenKind::Close(Bracket::Square)),
        '}' => Some(TokenKind::Close(Bracket::Curly)),
        '\'' => Some(TokenKind::Quote),
        '`' => Some(TokenKind::Unquote),
        ',' | ';' => Some(TokenKind::Sep),
        _ => None,
    }
}

fn escapable_char(c: char) -> (r: bool)
    ensures
        r == is_escapable(c),
{
    c == '\\' || c == '"' || c == '\'' || c == 'n' || c == 'r' || c == 't'
}

/// End of the atom that starts at `i`.
fn scan_atom(s: &Vec<char>, i: usize) -> (e: usize)
    requires
        i < s@.len(),
        !ends_atom(s@[i as int]),
    ensures
        e == atom_end(s@, i as int),
        i < e <= s@.len(),
{
    let mut k = i;
    while k < s.len() && !(space_char(s[k]) || punct_char(s[k]).is_some() || s[k] == '"')
        invariant
            i <= k <= s@.len(),
            atom_end(s@, i as int) == atom_end(s@, k as int),
            k == i ==> !ends_atom(s@[i as int]),
        decreases s@.len() - k,
    {
        k = k + 1;
    }
    k
}

/// Index of the quote that closes the string literal whose body starts at
/// `j`; on failure, its kind and index.
fn scan_string(s: &Vec<char>, j: usize) -> (r: Result<usize, (ParseErrorKind, usize)>)
    requires
        j <= s@.len(),
    ensures
        match (r, string_close(s@, j as int)) {
            (Ok(e), Ok(e2)) => e == e2 && j <= e < s@.len() && s@[e as int] == '"' && escapes_ok(
                s@.subrange(j as int, e as int),
            ),
            (Err((kind, at)), Err(f)) => kind == f.kind && at == f.at && at <= s@.len(),
            _ => false,
        },
{
    let mut k = j;
    assert(s@.subrange(j as int, j as int) =~= Seq::<char>::empty());
    while k < s.len()
        invariant
            j <= k <= s@.len(),
            string_close(s@, j as int) == string_close(s@, k as int),
            escapes_ok(s@.subrange(j as int, k as int)),
        decreases s@.len() - k,
    {
        let c = s[k];
        let ghost done = s@.subrange(j as int, k as int);
        if c == '"' {
            return Ok(k);
        } else if c == '\\' {
            if k + 1 >= s.len() {
                return Err((ParseErrorKind::UnterminatedString, k));
            } else if escapable_char(s[k + 1]) {
                proof {
                    let pair = s@.subrange(k as int, k + 2);
                    assert(pair.subrange(2, 2) =~= Seq::<char>::empty());
                    assert(escapes_ok(pair.subrange(2, 2)));
                    assert(pair[0] == '\\' && is_escapable(pair[1]));
                    assert(escapes_ok(pair));
                    lemma_escapes_concat(done, pair);
                    assert(done + pair =~= s@.subrange(j as int, k + 2));
                }
                k = k + 2;
            } else {
                return Err((ParseErrorKind::InvalidEscape, k));
            }
        } else {
            proof {
                let one = s@.subrange(k as int, k + 1);
                assert(one.drop_first() =~= Seq::<char>::empty());
                assert(escapes_ok(one.drop_first()));
                assert(escapes_ok(one));
                lemma_escapes_concat(done, one);
                assert(done + one =~= s@.subrange(j as int, k + 1));
            }
            k = k + 1;
        }
    }
    Err((ParseErrorKind::UnterminatedString, k))
}

/// Splits the text into tokens, each with the position of its first
/// character.
pub fn tokenize(s: &Vec<char>) -> (r: Result<Vec<Token>, ParseError>)
    requires
        s@.len() <= MAX_INPUT,
    ensures
        match (r, lex(s@, 0)) {
            (Ok(ts), Ok(spec)) => tok_views(ts@) == spec && forall|k: int|
                0 <= k < ts@.len() ==> (#[trigger] ts@[k]).located(s@) && ts@[k]@.wf(s@),
            (Err(e), Err(f)) => e.reports(s@, f),
            _ => false,
        },
{
    let mut toks: Vec<Token> = Vec::new();
    let mut i: usize = 0;
    let mut line: usize = 1;
    let mut colum: usize = 1;
    let mut pos: usize = 0;
    assert(tok_views(toks@) =~= Seq::<Tok>::empty());
    assert(prefix_toks(Seq::<Tok>::empty(), lex(s@, 0)) =~= lex(s@, 0)) by {
        match lex(s@, 0) {
            Ok(ts) => assert(Seq::<Tok>::empty() + ts =~= ts),
            Err(_) => {},
        }
    }
    while i < s.len()
        invariant
            i <= s@.len() <= MAX_INPUT,
            line == line_at(s@, i as int),
            colum == colum_at(s@, i as int),
            pos == byte_at(s@, i as int),
            lex(s@, 0) == prefix_toks(tok_views(toks@), lex(s@, i as int)),
            forall|k: int|
                0 <= k < toks@.len() ==> (#[trigger] toks@[k]).located(s@) && toks@[k]@.wf(s@)
                    && toks@[k].end <= i,
        decreases s@.len() - i,
    {
        let c = s[i];
        let ghost before = tok_views(toks@);
        let next: usize;
        if space_char(c) {
            next = i + 1;
        } else if let Some(kind) = punct_char(c) {
            let t = Token { kind, start: i, end: i + 1, line, colum, pos };
            toks.push(t);
            next = i + 1;
            proof {
                assert(tok_views(toks@) =~= before.push(t@));
                match lex(s@, i + 1) {
                    Ok(rest) => assert(before + (seq![t@] + rest) =~= before.push(t@) + rest),
                    Err(_) => {},
                }
            }
        } else if c == '"' {
            match scan_string(s, i + 1) {
                Ok(e) => {
                    let t = Token { kind: TokenKind::Str, start: i, end: e + 1, line, colum, pos };
                    toks.push(t);
                    next = e + 1;
                    proof {
                        assert(tok_views(toks@) =~= before.push(t@));
                        match lex(s@, (e + 1) as int) {
                            Ok(rest) => assert(before + (seq![t@] + rest) =~= before.push(t@)
                                + rest),
                            Err(_) => {},
                        }
                    }
                },
                Err((kind, at)) => {
                    return Err(error_at(s, kind, at));
                },
            }
        } else {
            let e = scan_atom(s, i);
            let t = Token { kind: TokenKind::Atom, start: i, end: e, line, colum, pos };
            toks.push(t);
            next = e;
            proof {
                assert(tok_views(toks@) =~= before.push(t@));
                match lex(s@, e as int) {
                    Ok(rest) => assert(before + (seq![t@] + rest) =~= before.push(t@) + rest),
                    Err(_) => {},
                }
            }
        }
        let (next_line, next_colum, next_pos) = advance(s, i, next, line, colum, pos);
        line = next_line;
        colum = next_colum;
        pos = next_pos;
        i = next;
    }
    proof {
        assert(lex(s@, i as int) == Ok::<Seq<Tok>, Fail>(Seq::empty()));
        match lex(s@, 0) {
            Ok(ts) => assert(tok_views(toks@) + Seq::<Tok>::empty() =~= tok_views(toks@)),
            Err(_) => {},
        }
    }
    Ok(toks)
}

} // verus!
