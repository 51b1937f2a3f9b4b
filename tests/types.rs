use sexpr_ir::gast::constant::Constant;
use sexpr_ir::gast::types::{ConstantType, GAstType, GetSimpleType, GetType, SimpleType};
use sexpr_ir::gast::Handle;
use sexpr_ir::intern::Interner;
use sexpr_ir::syntax::sexpr::repl_parse;

fn c(t: ConstantType) -> GAstType {
    GAstType::Const(t)
}

#[test]
fn tuple_collapses_to_union_list() {
    let t = GAstType::Tuple(vec![c(ConstantType::Int), c(ConstantType::Int), c(ConstantType::Str)]);
    let expected = GAstType::List(Handle::new(GAstType::Union(vec![c(ConstantType::Int), c(ConstantType::Str)])));
    assert!(t.zip() == expected);
    let reordered = GAstType::List(Handle::new(GAstType::Union(vec![c(ConstantType::Str), c(ConstantType::Int)])));
    assert!(t.zip() == reordered);
    if let GAstType::List(u) = t.zip() {
        if let GAstType::Union(xs) = &*u {
            assert_eq!(xs.len(), 2);
        } else {
            panic!("not a union");
        }
    } else {
        panic!("not a list");
    }
}

#[test]
fn zip_is_idempotent() {
    let t = GAstType::Pair(
        Handle::new(GAstType::Tuple(vec![c(ConstantType::Sym), c(ConstantType::Uint)])),
        Handle::new(c(ConstantType::Nil)),
    );
    let once = t.zip();
    assert!(once.zip() == once);
}

#[test]
fn non_tuples_pass_through() {
    let l = GAstType::List(Handle::new(GAstType::Tuple(vec![c(ConstantType::Int)])));
    assert!(l.zip() == l);
    let u = GAstType::Union(vec![c(ConstantType::Bool)]);
    assert!(u.zip() == u);
    assert!(c(ConstantType::Char).zip() == c(ConstantType::Char));
    let p = GAstType::Pair(Handle::new(c(ConstantType::Int)), Handle::new(GAstType::Tuple(vec![])));
    let expected = GAstType::Pair(Handle::new(c(ConstantType::Int)), Handle::new(GAstType::List(Handle::new(GAstType::Union(vec![])))));
    assert!(p.zip() == expected);
}

#[test]
fn union_equality_is_set_equality() {
    let a = GAstType::Union(vec![c(ConstantType::Int), c(ConstantType::Str), c(ConstantType::Int)]);
    let b = GAstType::Union(vec![c(ConstantType::Str), c(ConstantType::Int)]);
    let d = GAstType::Union(vec![c(ConstantType::Str)]);
    assert!(a == b);
    assert!(!(a == d));
    assert!(!(GAstType::Tuple(vec![c(ConstantType::Int), c(ConstantType::Str)]) == GAstType::Tuple(vec![c(ConstantType::Str), c(ConstantType::Int)])));
}

#[test]
fn reflection_of_parsed_tree() {
    let mut pool = Interner::new();
    let g = repl_parse("(f 1 \"s\" (x))", &mut pool).unwrap();
    let expected = GAstType::Tuple(vec![
        c(ConstantType::Sym),
        c(ConstantType::Uint),
        c(ConstantType::Str),
        GAstType::Tuple(vec![c(ConstantType::Sym)]),
    ]);
    assert!(g.get_type() == expected);
    assert_eq!(g.get_simple_type(), SimpleType::List);
    assert_eq!(Constant::Int(3).get_simple_type(), SimpleType::Const(ConstantType::Int));
    assert!(Constant::Nil.get_type() == c(ConstantType::Nil));
}
