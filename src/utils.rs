//! Escape decoding for string literals.
use vstd::prelude::*;
use std::collections::VecDeque;
use std::sync::Arc;

verus! {

/// Characters that may follow a backslash inside a literal.
pub open spec fn is_escapable(c: char) -> bool {
    c == '\\' || c == '"' || c == '\'' || c == 'n' || c == 'r' || c == 't'
}

/// The character that an escape sequence `\c` stands for.
pub open spec fn escaped_value(c: char) -> char {
    if c == 'n' {
        '\n'
    } else if c == 'r' {
        '\r'
    } else if c == 't' {
        '\t'
    } else {
        c
    }
}

/// `raw` is a well-formed literal body: every backslash starts one of the
/// supported escapes, and no escape is cut off at the end.
pub open spec fn escapes_ok(raw: Seq<char>) -> bool
    decreases raw.len(),
{
    if raw.len() == 0 {
        true
    } else if raw[0] == '\\' {
        raw.len() >= 2 && is_escapable(raw[1]) && escapes_ok(raw.subrange(2, raw.len() as int))
    } else {
        escapes_ok(raw.drop_first())
    }
}

/// The text that a well-formed literal body stands for.
pub open spec fn decode(raw: Seq<char>) -> Seq<char>
    decreases raw.len(),
{
    if raw.len() == 0 {
        Seq::empty()
    } else if raw[0] == '\\' && raw.len() >= 2 {
        seq![escaped_value(raw[1])] + decode(raw.subrange(2, raw.len() as int))
    } else {
        seq![raw[0]] + decode(raw.drop_first())
    }
}

/// The escape sequence (or the character itself) that writes `c` inside a
/// double-quoted literal.
pub open spec fn encode_char(c: char) -> Seq<char> {
    if c == '\\' {
        seq!['\\', '\\']
    } else if c == '"' {
        seq!['\\', '"']
    } else if c == '\n' {
        seq!['\\', 'n']
    } else if c == '\r' {
        seq!['\\', 'r']
    } else if c == '\t' {
        seq!['\\', 't']
    } else {
        seq![c]
    }
}

/// Writes a text as the body of a double-quoted literal.
pub open spec fn encode(text: Seq<char>) -> Seq<char>
    decreases text.len(),
{
    if text.len() == 0 {
        Seq::empty()
    } else {
        encode_char(text[0]) + encode(text.drop_first())
    }
}

/// A literal body in the form that `encode` writes: escapes only where needed.
pub open spec fn is_canonical(raw: Seq<char>) -> bool
    decreases raw.len(),
{
    if raw.len() == 0 {
        true
    } else if raw[0] == '\\' {
        raw.len() >= 2 && (raw[1] == '\\' || raw[1] == '"' || raw[1] == 'n' || raw[1] == 'r'
            || raw[1] == 't') && is_canonical(raw.subrange(2, raw.len() as int))
    } else {
        raw[0] != '"' && raw[0] != '\n' && raw[0] != '\r' && raw[0] != '\t' && is_canonical(
            raw.drop_first(),
        )
    }
}

/// Decoding undoes encoding, for every text.
pub proof fn lemma_decode_encode(text: Seq<char>)
    ensures
        escapes_ok(encode(text)),
        decode(encode(text)) == text,
    decreases text.len(),
{
    if text.len() > 0 {
        let rest = text.drop_first();
        lemma_decode_encode(rest);
        let e = encode(text);
        assert(e == encode_char(text[0]) + encode(rest));
        if encode_char(text[0]).len() == 2 {
            assert(e.subrange(2, e.len() as int) =~= encode(rest));
        } else {
            assert(e.drop_first() =~= encode(rest));
        }
        assert(decode(e) =~= text);
    } else {
        assert(decode(encode(text)) =~= text);
    }
}

/// Encoding what a canonical literal body decodes to gives that body back.
pub proof fn lemma_encode_decode(raw: Seq<char>)
    requires
        is_canonical(raw),
    ensures
        escapes_ok(raw),
        encode(decode(raw)) == raw,
    decreases raw.len(),
{
    if raw.len() == 0 {
        assert(encode(decode(raw)) =~= raw);
    } else if raw[0] == '\\' {
        let rest = raw.subrange(2, raw.len() as int);
        lemma_encode_decode(rest);
        let d = decode(raw);
        assert(d == seq![escaped_value(raw[1])] + decode(rest));
        assert(d.drop_first() =~= decode(rest));
        assert(encode(d) =~= raw);
    } else {
        let rest = raw.drop_first();
        lemma_encode_decode(rest);
        let d = decode(raw);
        assert(d.drop_first() =~= decode(rest));
        assert(encode(d) =~= raw);
    }
}

/// Maps the character after a backslash to the character it stands for.
pub fn escape_char(i: char) -> (r: char)
    requires
        is_escapable(i),
    ensures
        r == escaped_value(i),
{
    match i {
        'n' => '\n',
        'r' => '\r',
        't' => '\t',
        _ => i,
    }
}

/// One step of the decoder: `acc.0` holds the text decoded so far and `acc.1`
/// says whether the previous character was an unconsumed backslash.
pub fn state_machine(acc: (VecDeque<char>, bool), item: char) -> (r: (VecDeque<char>, bool))
    requires
        acc.1 ==> is_escapable(item),
    ensures
        acc.1 ==> r.0@ == acc.0@.push(escaped_value(item)) && !r.1,
        !acc.1 && item == '\\' ==> r.0@ == acc.0@ && r.1,
        !acc.1 && item != '\\' ==> r.0@ == acc.0@.push(item) && !r.1,
{
    let (mut prev, is_escape) = acc;
    if is_escape {
        prev.push_back(escape_char(item));
        return (prev, false);
    }
    if item == '\\' {
        (prev, true)
    } else {
        prev.push_back(item);
        (prev, false)
    }
}

/// The characters of a text, in order.
pub fn chars_of(text: &str) -> (r: Vec<char>)
    ensures
        r@ == text@,
{
    let mut out: Vec<char> = Vec::new();
    for c in it: text.chars()
        invariant
            out@ == it.seq().take(it.index() as int),
    {
        out.push(c);
    }
    out
}

/// Relies on `String::from_iter` over chars: the string holds exactly the
/// given characters, in order.
#[verifier::external_body]
pub(crate) fn string_from_chars(chars: &[char]) -> (r: String)
    ensures
        r@ == chars@,
{
    String::from_iter(chars.iter())
}

/// Relies on `Arc::clone`: the new handle points at the same value.
#[verifier::external_body]
pub(crate) fn share<T>(a: &Arc<T>) -> (r: Arc<T>)
    ensures
        r == *a,
{
    Arc::clone(a)
}

pub proof fn lemma_escapes_concat(a: Seq<char>, b: Seq<char>)
    requires
        escapes_ok(a),
        escapes_ok(b),
    ensures
        escapes_ok(a + b),
    decreases a.len(),
{
    if a.len() > 0 {
        if a[0] == '\\' {
            lemma_escapes_concat(a.subrange(2, a.len() as int), b);
            assert((a + b).subrange(2, (a + b).len() as int) =~= a.subrange(2, a.len() as int) + b);
        } else {
            lemma_escapes_concat(a.drop_first(), b);
            assert((a + b).drop_first() =~= a.drop_first() + b);
        }
    } else {
        assert(a + b =~= b);
    }
}

/// Decodes the escape sequences of a literal body (delimiters already
/// removed) in one left-to-right pass.
pub fn escape_str(i: &str) -> (r: String)
    requires
        escapes_ok(i@),
    ensures
        r@ == decode(i@),
{
    let raw = chars_of(i);
    let ghost whole = raw@;
    let mut acc: (VecDeque<char>, bool) = (VecDeque::new(), false);
    let mut k: usize = 0;
    assert(whole.subrange(0, whole.len() as int) =~= whole);
    assert(acc.0@ + decode(whole) =~= decode(whole));
    while k < raw.len()
        invariant
            raw@ == whole,
            k <= whole.len(),
            acc.1 ==> k >= 1 && whole[k - 1] == '\\',
            ({
                let from: int = if acc.1 { k - 1 } else { k as int };
                &&& escapes_ok(whole.subrange(from, whole.len() as int))
                &&& decode(whole) == acc.0@ + decode(whole.subrange(from, whole.len() as int))
            }),
        decreases whole.len() - k,
    {
        let c = raw[k];
        proof {
            let from: int = if acc.1 { k - 1 } else { k as int };
            let rest = whole.subrange(from, whole.len() as int);
            if acc.1 {
                assert(rest.subrange(2, rest.len() as int) =~= whole.subrange(k + 1, whole.len() as int));
                assert(decode(rest) == seq![escaped_value(c)] + decode(whole.subrange(k + 1, whole.len() as int)));
            } else if c != '\\' {
                assert(rest.drop_first() =~= whole.subrange(k + 1, whole.len() as int));
            }
        }
        acc = state_machine(acc, c);
        k = k + 1;
    }
    proof {
        assert(whole.subrange(k as int, whole.len() as int) =~= Seq::<char>::empty());
        assert(acc.0@ + Seq::<char>::empty() =~= acc.0@);
    }
    let (out, _) = acc;
    let mut flat: Vec<char> = Vec::new();
    let mut j: usize = 0;
    while j < out.len()
        invariant
            j <= out@.len(),
            flat@ == out@.take(j as int),
        decreases out@.len() - j,
    {
        flat.push(out[j]);
        j = j + 1;
        assert(flat@ =~= out@.take(j as int));
    }
    assert(flat@ =~= out@);
    string_from_chars(flat.as_slice())
}

} // verus!
