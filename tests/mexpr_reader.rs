use sexpr_ir::gast::constant::Constant;
use sexpr_ir::gast::list::List;
use sexpr_ir::gast::symbol::Symbol;
use sexpr_ir::gast::{GAst, Handle};
use sexpr_ir::intern::Interner;
use sexpr_ir::syntax::lexer::ParseErrorKind;
use sexpr_ir::syntax::mexpr;
use sexpr_ir::syntax::sexpr;

fn sym(s: &str) -> GAst {
    GAst::Const(Constant::Sym(Handle::new(Symbol::new(s))))
}

fn uint(n: u64) -> GAst {
    GAst::Const(Constant::Uint(n))
}

fn list(xs: Vec<GAst>) -> GAst {
    GAst::List(Handle::new(List(xs, None)))
}

fn read(s: &str) -> GAst {
    let mut pool = Interner::new();
    mexpr::repl_parse(s, &mut pool).unwrap()
}

#[test]
fn bracket_call_matches_sexpr_shape() {
    let mut pool = Interner::new();
    let s = sexpr::repl_parse("(if cond then else)", &mut pool).unwrap();
    assert_eq!(read("if[cond; then; else]"), s);
}

#[test]
fn paren_call() {
    assert_eq!(read("assert(henghengheng, 114514)"), list(vec![sym("assert"), sym("henghengheng"), uint(114514)]));
    let g = read("doc[\"document\"]");
    let l = g.get_list().unwrap();
    assert_eq!(l.0[1].get_const().unwrap().get_str().unwrap().as_str(), "document");
}

#[test]
fn bracketed_forms_get_heads() {
    assert_eq!(read("()"), list(vec![sym("list")]));
    assert_eq!(read("[]"), list(vec![sym("array")]));
    assert_eq!(read("{}"), list(vec![sym("tuple")]));
    assert_eq!(read("{1, 2 ,3}"), list(vec![sym("tuple"), uint(1), uint(2), uint(3)]));
    assert_eq!(read("(1, 2, 3)"), list(vec![sym("list"), uint(1), uint(2), uint(3)]));
}

#[test]
fn constants() {
    assert_eq!(read("foo"), sym("foo"));
    assert_eq!(read("nil"), GAst::Const(Constant::Nil));
    assert_eq!(read("true"), GAst::Const(Constant::Bool(true)));
}

#[test]
fn call_needs_adjacent_bracket() {
    let mut pool = Interner::new();
    let forms = mexpr::parse("f (a)", Handle::new(String::new()), &mut pool).unwrap();
    assert_eq!(forms, vec![sym("f"), list(vec![sym("list"), sym("a")])]);
    let e = mexpr::repl_parse("f (a)", &mut pool).unwrap_err();
    assert_eq!(e.kind, ParseErrorKind::TrailingInput);
}

#[test]
fn nested_calls() {
    assert_eq!(
        read("f(g(x), [y])"),
        list(vec![sym("f"), list(vec![sym("g"), sym("x")]), list(vec![sym("array"), sym("y")])])
    );
}

#[test]
fn separator_errors() {
    let mut pool = Interner::new();
    let e = mexpr::repl_parse("f(a b)", &mut pool).unwrap_err();
    assert_eq!(e.kind, ParseErrorKind::MissingSeparator);
    assert_eq!(e.colum, 5);
    let e = mexpr::repl_parse("f(a,)", &mut pool).unwrap_err();
    assert_eq!(e.kind, ParseErrorKind::UnexpectedToken);
    let e = mexpr::repl_parse("f(,a)", &mut pool).unwrap_err();
    assert_eq!(e.kind, ParseErrorKind::UnexpectedToken);
    let e = mexpr::repl_parse("f(a", &mut pool).unwrap_err();
    assert_eq!(e.kind, ParseErrorKind::UnterminatedList);
    assert_eq!(e.colum, 2);
    let e = mexpr::repl_parse("'a", &mut pool).unwrap_err();
    assert_eq!(e.kind, ParseErrorKind::UnexpectedToken);
}
