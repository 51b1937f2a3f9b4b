use sexpr_ir::gast::constant::Constant;
use sexpr_ir::gast::list::List;
use sexpr_ir::gast::pair::Pair;
use sexpr_ir::gast::symbol::{Location, Symbol};
use sexpr_ir::gast::types::{ConstantType, GAstType, GetType};
use sexpr_ir::gast::{GAst, Handle, Record};
use sexpr_ir::intern::{string_intern, Interner};
use sexpr_ir::syntax::sexpr::repl_parse;

#[test]
fn interning_shares_one_allocation() {
    let mut pool = Interner::new();
    let a = string_intern(&mut pool, "foo");
    let b = string_intern(&mut pool, "foo");
    let c = string_intern(&mut pool, "bar");
    assert!(Handle::ptr_eq(&a, &b));
    assert!(!Handle::ptr_eq(&a, &c));
    assert_eq!(a.as_str(), "foo");
    assert_eq!(pool.len(), 2);
}

#[test]
fn record_keys_compare_by_text() {
    let mut pool = Interner::new();
    let g = repl_parse("(k k)", &mut pool).unwrap();
    let l = g.get_list().unwrap();
    let first = l.0[0].get_const().unwrap().get_sym().unwrap();
    let second = l.0[1].get_const().unwrap().get_sym().unwrap();
    assert_ne!(first.1.colum, second.1.colum);
    let mut r = Record::new();
    assert!(r.insert(first.clone(), GAst::Const(Constant::Uint(1))).is_none());
    assert_eq!(r.get(&second), Some(&GAst::Const(Constant::Uint(1))));
    let old = r.insert(second.clone(), GAst::Const(Constant::Uint(2)));
    assert_eq!(old, Some(GAst::Const(Constant::Uint(1))));
    assert_eq!(r.len(), 1);
    assert_eq!(r.get(&first), Some(&GAst::Const(Constant::Uint(2))));
    assert_eq!(r.get(&Symbol::new("other")), None);
}

#[test]
fn symbol_constructors() {
    let loc = Location::new(Handle::new("p".to_string()), 3, 4, 5);
    let s = Symbol::from("x", &loc);
    assert_eq!(s.0.as_str(), "x");
    assert_eq!((s.1.line, s.1.colum, s.1.pos), (3, 4, 5));
    assert_eq!(s.1.path.as_str(), "p");
    let n = Symbol::new("x");
    assert_eq!(n.1.line, 0);
    assert_eq!(n.1.path.as_str(), "");
    assert!(s == n);
    assert_eq!(s.to_string(), "x");
}

#[test]
fn rendering() {
    let mut pool = Interner::new();
    let g = repl_parse("(a  \"s t\" -5 (1 . 2) nil true)", &mut pool).unwrap();
    assert_eq!(g.to_string(), "(a s t -5 (1 . 2) nil true)");
    assert_eq!(Constant::Int(i64::MIN).to_string(), "-9223372036854775808");
    assert_eq!(Constant::Uint(0).to_string(), "0");
    assert_eq!(Constant::Char('c').to_string(), "c");
    let p = Pair(GAst::Const(Constant::Uint(10)), GAst::Const(Constant::Bool(false)));
    assert_eq!(p.to_string(), "(10 . false)");
    let l = List(vec![], None);
    assert_eq!(l.to_string(), "()");
}

#[test]
fn pair_type() {
    let p = Pair(GAst::Const(Constant::Uint(10)), GAst::Const(Constant::Bool(false)));
    let expected = GAstType::Pair(Handle::new(GAstType::Const(ConstantType::Uint)), Handle::new(GAstType::Const(ConstantType::Bool)));
    assert!(p.get_type() == expected);
}

#[test]
fn accessors() {
    let c = Constant::Int(-4);
    assert!(c.is_int() && !c.is_uint() && !c.is_nil());
    assert_eq!(c.get_int(), Some(-4));
    assert_eq!(c.get_bool(), None);
    assert_eq!(Constant::Nil.get_nil(), Some(()));
    let g = GAst::Const(Constant::Nil);
    assert!(g.is_nil() && g.is_const() && !g.is_list() && !g.is_pair());
    assert_eq!(g.get_nil(), Some(()));
    assert!(g.get_list().is_none());
    let s = Constant::Str(Handle::new("q".to_string()));
    assert!(s.is_str());
    assert_eq!(s.get_str().unwrap().as_str(), "q");
    assert_eq!(Constant::Char('z').get_char(), Some('z'));
    assert_eq!(Constant::Uint(7).get_uint(), Some(7));
    assert!(Constant::Float(Handle::new("1.5".to_string())).is_float());
}
