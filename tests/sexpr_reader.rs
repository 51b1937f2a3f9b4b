use sexpr_ir::gast::constant::Constant;
use sexpr_ir::gast::list::List;
use sexpr_ir::gast::symbol::Symbol;
use sexpr_ir::gast::{GAst, Handle};
use sexpr_ir::intern::Interner;
use sexpr_ir::syntax::lexer::ParseErrorKind;
use sexpr_ir::syntax::sexpr::{one_unit_parse, parse, repl_parse};

fn sym(s: &str) -> GAst {
    GAst::Const(Constant::Sym(Handle::new(Symbol::new(s))))
}

fn uint(n: u64) -> GAst {
    GAst::Const(Constant::Uint(n))
}

fn list(xs: Vec<GAst>, tail: Option<GAst>) -> GAst {
    GAst::List(Handle::new(List(xs, tail)))
}

fn read(s: &str) -> GAst {
    let mut pool = Interner::new();
    repl_parse(s, &mut pool).unwrap()
}

#[test]
fn empty_list() {
    assert_eq!(read("()"), list(vec![], None));
}

#[test]
fn assert_form() {
    assert_eq!(
        read("(assert cond 114514)"),
        list(vec![sym("assert"), sym("cond"), uint(114514)], None)
    );
}

#[test]
fn string_with_escaped_newline() {
    let g = read("(doc \"line1\\nline2\")");
    let l = g.get_list().unwrap();
    assert_eq!(l.0.len(), 2);
    let s = l.0[1].get_const().unwrap().get_str().unwrap();
    assert_eq!(s.as_str(), "line1\nline2");
    assert!(!s.contains('\\'));
}

#[test]
fn unterminated_list_is_an_error() {
    let mut pool = Interner::new();
    let e = repl_parse("(foo", &mut pool).unwrap_err();
    assert_eq!(e.kind, ParseErrorKind::UnterminatedList);
    assert_eq!((e.line, e.colum, e.pos), (1, 1, 0));
}

#[test]
fn dotted_list() {
    assert_eq!(read("(1 2 . 3)"), list(vec![uint(1), uint(2)], Some(uint(3))));
}

#[test]
fn dot_without_elements_is_an_error() {
    let mut pool = Interner::new();
    let e = repl_parse("( . 3)", &mut pool).unwrap_err();
    assert_eq!(e.kind, ParseErrorKind::UnexpectedToken);
    let e = repl_parse("(1 . 2 3)", &mut pool).unwrap_err();
    assert_eq!(e.kind, ParseErrorKind::UnexpectedToken);
}

#[test]
fn quote_sugar_expands() {
    assert_eq!(read("'bar"), read("(quote bar)"));
    assert_eq!(read("`bar"), read("(unquote bar)"));
}

#[test]
fn quote_symbol_is_located_at_the_mark() {
    let g = read("  'bar");
    let l = g.get_list().unwrap();
    let q = l.0[0].get_const().unwrap().get_sym().unwrap();
    assert_eq!(q.0.as_str(), "quote");
    assert_eq!((q.1.line, q.1.colum, q.1.pos), (1, 3, 2));
}

#[test]
fn same_text_symbols_are_equal_with_distinct_locations() {
    let g = read("(a\n a)");
    let l = g.get_list().unwrap();
    let a = l.0[0].get_const().unwrap().get_sym().unwrap();
    let b = l.0[1].get_const().unwrap().get_sym().unwrap();
    assert!(*a == *b);
    assert_eq!((a.1.line, a.1.colum, a.1.pos), (1, 2, 1));
    assert_eq!((b.1.line, b.1.colum, b.1.pos), (2, 2, 4));
    assert!(Handle::ptr_eq(&a.0, &b.0));
}

#[test]
fn literals() {
    assert_eq!(read("nil"), GAst::Const(Constant::Nil));
    assert_eq!(read("true"), GAst::Const(Constant::Bool(true)));
    assert_eq!(read("false"), GAst::Const(Constant::Bool(false)));
    assert_eq!(read("-1"), GAst::Const(Constant::Int(-1)));
    assert_eq!(read("-9223372036854775808"), GAst::Const(Constant::Int(i64::MIN)));
    assert_eq!(read("18446744073709551615"), uint(u64::MAX));
    assert_eq!(read("-2.1"), GAst::Const(Constant::Float(Handle::new("-2.1".to_string()))));
    assert_eq!(read("-"), sym("-"));
    assert_eq!(read("..."), sym("..."));
    assert_eq!(read("1.x"), sym("1.x"));
}

#[test]
fn number_out_of_range() {
    let mut pool = Interner::new();
    let e = repl_parse("18446744073709551616", &mut pool).unwrap_err();
    assert_eq!(e.kind, ParseErrorKind::NumberOutOfRange);
    let e = repl_parse("(x -9223372036854775809)", &mut pool).unwrap_err();
    assert_eq!(e.kind, ParseErrorKind::NumberOutOfRange);
    assert_eq!(e.colum, 4);
}

#[test]
fn string_errors() {
    let mut pool = Interner::new();
    let e = repl_parse("\"abc", &mut pool).unwrap_err();
    assert_eq!(e.kind, ParseErrorKind::UnterminatedString);
    let e = repl_parse("\"a\\qb\"", &mut pool).unwrap_err();
    assert_eq!(e.kind, ParseErrorKind::InvalidEscape);
    assert_eq!(e.pos, 2);
}

#[test]
fn bracket_errors() {
    let mut pool = Interner::new();
    let e = repl_parse("(a]", &mut pool).unwrap_err();
    assert_eq!(e.kind, ParseErrorKind::MismatchedBracket);
    let e = repl_parse(")", &mut pool).unwrap_err();
    assert_eq!(e.kind, ParseErrorKind::UnexpectedToken);
    let e = repl_parse("(a, b)", &mut pool).unwrap_err();
    assert_eq!(e.kind, ParseErrorKind::UnexpectedToken);
}

#[test]
fn one_form_only() {
    let mut pool = Interner::new();
    let e = repl_parse("a b", &mut pool).unwrap_err();
    assert_eq!(e.kind, ParseErrorKind::TrailingInput);
    assert_eq!(e.pos, 2);
    let e = repl_parse("   ", &mut pool).unwrap_err();
    assert_eq!(e.kind, ParseErrorKind::UnexpectedEnd);
    assert_eq!(e.pos, 3);
    let e = repl_parse("'", &mut pool).unwrap_err();
    assert_eq!(e.kind, ParseErrorKind::UnexpectedEnd);
}

#[test]
fn whole_unit() {
    let mut pool = Interner::new();
    let forms = parse("a (b c)\n[d] {e}", Handle::new("f.scm".to_string()), &mut pool).unwrap();
    assert_eq!(forms.len(), 4);
    assert_eq!(forms[1], list(vec![sym("b"), sym("c")], None));
    assert_eq!(forms[2], list(vec![sym("d")], None));
    let a = forms[0].get_const().unwrap().get_sym().unwrap();
    assert_eq!(a.1.path.as_str(), "f.scm");
    assert_eq!(parse("", Handle::new(String::new()), &mut pool).unwrap().len(), 0);
    assert_eq!(pool.len(), 5);
}

#[test]
fn byte_offsets_count_utf8() {
    let g = read("(é x)");
    let l = g.get_list().unwrap();
    let x = l.0[1].get_const().unwrap().get_sym().unwrap();
    assert_eq!((x.1.colum, x.1.pos), (4, 4));
}

#[test]
fn named_path_and_prompt_path() {
    let mut pool = Interner::new();
    let g = one_unit_parse("foo", "<examples>", &mut pool).unwrap();
    assert_eq!(g.get_const().unwrap().get_sym().unwrap().1.path.as_str(), "<examples>");
    let g = repl_parse("foo", &mut pool).unwrap();
    assert_eq!(g.get_const().unwrap().get_sym().unwrap().1.path.as_str(), "<stdin>");
}
