//! Structural types of syntax trees, and their canonical form.
use vstd::prelude::*;
use crate::gast::{views, lemma_views_push, GAst, GAstV, Handle};
use crate::gast::constant::{ConstV, Constant};
use crate::gast::list::List;
use crate::gast::pair::Pair;
use crate::utils::share;

verus! {

broadcast use vstd::std_specs::vec::axiom_vec_decreases_to_view, vstd::std_specs::vec::axiom_vec_index_decreases, vstd::seq::axiom_seq_index_decreases;

/// The variant of a constant, without its payload.
#[derive(Debug, Clone, Copy, PartialEq, Eq, Hash, Structural)]
pub enum ConstantType {
    Nil,
    Bool,
    Char,
    Int,
    Uint,
    Float,
    Str,
    Sym,
}

/// What kind of node a tree is, without looking at its children.
#[derive(Debug, Clone, Copy, PartialEq, Eq, Hash, Structural)]
pub enum SimpleType {
    Const(ConstantType),
    Pair,
    List,
}

pub trait GetSimpleType {
    /// The kind of node this value is.
    spec fn simple_type_spec(&self) -> SimpleType;

    fn get_simple_type(&self) -> (r: SimpleType)
        ensures
            r == self.simple_type_spec(),
    ;
}

pub trait GetType {
    /// The structural type of this value.
    spec fn type_spec(&self) -> TypeV;

    fn get_type(&self) -> (r: GAstType)
        ensures
            r@ == self.type_spec(),
    ;
}

/// A structural type. `Union` is a set: its order and repetitions carry no
/// meaning, and `==` compares unions as sets.
#[derive(Debug)]
pub enum GAstType {
    Const(ConstantType),
    Pair(Handle<GAstType>, Handle<GAstType>),
    Tuple(Vec<GAstType>),
    List(Handle<GAstType>),
    Union(Vec<GAstType>),
}

/// The value of a `GAstType`.
pub enum TypeV {
    Const(ConstantType),
    Pair(Box<TypeV>, Box<TypeV>),
    Tuple(Seq<TypeV>),
    List(Box<TypeV>),
    Union(Seq<TypeV>),
}

pub open spec fn tviews(s: Seq<GAstType>) -> Seq<TypeV>
    decreases s,
{
    if s.len() == 0 {
        Seq::empty()
    } else {
        tviews(s.drop_last()).push(s.last().view())
    }
}

impl View for GAstType {
    type V = TypeV;

    open spec fn view(&self) -> TypeV
        decreases self,
    {
        match self {
            GAstType::Const(c) => TypeV::Const(*c),
            GAstType::Pair(a, b) => TypeV::Pair(Box::new((**a).view()), Box::new((**b).view())),
            GAstType::Tuple(xs) => TypeV::Tuple(tviews(xs@)),
            GAstType::List(a) => TypeV::List(Box::new((**a).view())),
            GAstType::Union(xs) => TypeV::Union(tviews(xs@)),
        }
    }
}

pub proof fn lemma_tviews_index(s: Seq<GAstType>, i: int)
    requires
        0 <= i < s.len(),
    ensures
        tviews(s).len() == s.len(),
        tviews(s)[i] == s[i]@,
    decreases s.len(),
{
    lemma_tviews_len(s);
    assert(tviews(s) == tviews(s.drop_last()).push(s.last().view()));
    if i < s.len() - 1 {
        lemma_tviews_index(s.drop_last(), i);
    }
}

pub proof fn lemma_tviews_len(s: Seq<GAstType>)
    ensures
        tviews(s).len() == s.len(),
    decreases s.len(),
{
    if s.len() > 0 {
        lemma_tviews_len(s.drop_last());
        assert(tviews(s) == tviews(s.drop_last()).push(s.last().view()));
    } else {
        assert(tviews(s) == Seq::<TypeV>::empty());
    }
}

pub proof fn lemma_tviews_push(s: Seq<GAstType>, t: GAstType)
    ensures
        tviews(s.push(t)) == tviews(s).push(t@),
{
    assert(s.push(t).drop_last() =~= s);
    assert(tviews(s.push(t)) == tviews(s.push(t).drop_last()).push(s.push(t).last().view()));
}

/// Two types are the same: alike in structure, with unions compared as
/// sets.
pub open spec fn same_type(a: TypeV, b: TypeV) -> bool
    decreases a, 0int, 0int,
{
    match a {
        TypeV::Const(x) => match b {
            TypeV::Const(y) => x == y,
            _ => false,
        },
        TypeV::Pair(a1, a2) => match b {
            TypeV::Pair(b1, b2) => same_type(*a1, *b1) && same_type(*a2, *b2),
            _ => false,
        },
        TypeV::Tuple(xs) => match b {
            TypeV::Tuple(ys) => xs.len() == ys.len() && forall|i: int|
                0 <= i < xs.len() ==> same_type(xs[i], #[trigger] ys[i]),
            _ => false,
        },
        TypeV::List(x) => match b {
            TypeV::List(y) => same_type(*x, *y),
            _ => false,
        },
        TypeV::Union(xs) => match b {
            TypeV::Union(ys) => covered(xs, ys, 0) && covering(xs, ys, 0),
            _ => false,
        },
    }
}

/// Some type of `ys` from index `j` on is the same as `x`.
pub open spec fn has_match(x: TypeV, ys: Seq<TypeV>, j: int) -> bool
    decreases x, 2int, ys.len() - j,
{
    if 0 <= j < ys.len() {
        same_type(x, ys[j]) || has_match(x, ys, j + 1)
    } else {
        false
    }
}

/// Some type of `xs` from index `i` on is one that `y` is the same as.
pub open spec fn has_match_rev(xs: Seq<TypeV>, y: TypeV, i: int) -> bool
    decreases xs, 0int, xs.len() - i,
{
    if 0 <= i < xs.len() {
        same_type(xs[i], y) || has_match_rev(xs, y, i + 1)
    } else {
        false
    }
}

/// Every type of `xs` from index `i` on has a same type in `ys`.
pub open spec fn covered(xs: Seq<TypeV>, ys: Seq<TypeV>, i: int) -> bool
    decreases xs, 1int, xs.len() - i,
{
    if 0 <= i < xs.len() {
        has_match(xs[i], ys, 0) && covered(xs, ys, i + 1)
    } else {
        true
    }
}

/// Every type of `ys` from index `j` on has a same type in `xs`.
pub open spec fn covering(xs: Seq<TypeV>, ys: Seq<TypeV>, j: int) -> bool
    decreases xs, 1int, ys.len() - j,
{
    if 0 <= j < ys.len() {
        has_match_rev(xs, ys[j], 0) && covering(xs, ys, j + 1)
    } else {
        true
    }
}

/// The distinct types of `xs`, each kept at its first occurrence.
pub open spec fn dedup(xs: Seq<TypeV>) -> Seq<TypeV>
    decreases xs.len(),
{
    if xs.len() == 0 {
        Seq::empty()
    } else {
        let d = dedup(xs.drop_last());
        if has_match(xs.last(), d, 0) {
            d
        } else {
            d.push(xs.last())
        }
    }
}

/// The canonical form of a type: a pair keeps its shape with canonical
/// children; a tuple becomes a list whose element type is the union of its
/// distinct canonical element types; other types are already canonical.
pub open spec fn zip_type(t: TypeV) -> TypeV
    decreases t,
{
    match t {
        TypeV::Pair(a, b) => TypeV::Pair(Box::new(zip_type(*a)), Box::new(zip_type(*b))),
        TypeV::Tuple(xs) => TypeV::List(Box::new(TypeV::Union(dedup(zip_all(xs))))),
        _ => t,
    }
}

pub open spec fn zip_all(xs: Seq<TypeV>) -> Seq<TypeV>
    decreases xs,
{
    if xs.len() == 0 {
        Seq::empty()
    } else {
        zip_all(xs.drop_last()).push(zip_type(xs.last()))
    }
}

/// Canonicalizing twice gives what canonicalizing once gives.
pub proof fn lemma_zip_idempotent(t: TypeV)
    ensures
        zip_type(zip_type(t)) == zip_type(t),
    decreases t,
{
    match t {
        TypeV::Pair(a, b) => {
            lemma_zip_idempotent(*a);
            lemma_zip_idempotent(*b);
        },
        _ => {},
    }
}

impl GAstType {
    /// A copy of this type, equal in every part.
    pub fn duplicate(&self) -> (r: GAstType)
        ensures
            r@ == self@,
        decreases self,
    {
        match self {
            GAstType::Const(c) => GAstType::Const(*c),
            GAstType::Pair(a, b) => GAstType::Pair(share(a), share(b)),
            GAstType::List(a) => GAstType::List(share(a)),
            GAstType::Tuple(xs) => GAstType::Tuple(copy_all(xs)),
            GAstType::Union(xs) => GAstType::Union(copy_all(xs)),
        }
    }

    /// The canonical form of this type.
    pub fn zip(&self) -> (r: Self)
        ensures
            r@ == zip_type(self@),
        decreases self, 1int,
    {
        match self {
            GAstType::Pair(x, y) => {
                let zx = x.zip();
                let zy = y.zip();
                assert(self@ == TypeV::Pair(Box::new((**x)@), Box::new((**y)@)));
                let r = GAstType::Pair(Handle::new(zx), Handle::new(zy));
                assert(r@ == zip_type(self@));
                r
            },
            GAstType::Tuple(xs) => {
                assert(self@ == TypeV::Tuple(tviews(xs@)));
                let d = zip_distinct(xs);
                let u = GAstType::Union(d);
                assert(u@ == TypeV::Union(tviews(d@)));
                let r = GAstType::List(Handle::new(u));
                assert(r@ == TypeV::List(Box::new(u@)));
                r
            },
            GAstType::Const(c) => {
                assert(self@ == TypeV::Const(*c));
                let r = GAstType::Const(*c);
                assert(r@ == TypeV::Const(*c));
                r
            },
            GAstType::List(a) => {
                assert(self@ == TypeV::List(Box::new((**a)@)));
                let r = GAstType::List(share(a));
                assert(r@ == TypeV::List(Box::new((**a)@)));
                r
            },
            GAstType::Union(xs) => {
                assert(self@ == TypeV::Union(tviews(xs@)));
                let c = copy_all(xs);
                let r = GAstType::Union(c);
                assert(r@ == TypeV::Union(tviews(c@)));
                r
            },
        }
    }
}

/// The distinct canonical forms of the types in `xs`, each at its first
/// occurrence.
fn zip_distinct(xs: &Vec<GAstType>) -> (r: Vec<GAstType>)
    ensures
        tviews(r@) == dedup(zip_all(tviews(xs@))),
    decreases xs, 0int,
{
    let ghost src = tviews(xs@);
    let mut out: Vec<GAstType> = Vec::new();
    let mut i: usize = 0;
    proof {
        assert(src.take(0) =~= Seq::<TypeV>::empty());
        assert(zip_all(Seq::<TypeV>::empty()) == Seq::<TypeV>::empty());
        assert(dedup(Seq::<TypeV>::empty()) == Seq::<TypeV>::empty());
        assert(tviews(out@) == Seq::<TypeV>::empty());
        lemma_tviews_len(xs@);
    }
    while i < xs.len()
        invariant
            i <= xs@.len(),
            src == tviews(xs@),
            src.len() == xs@.len(),
            tviews(out@) == dedup(zip_all(src.take(i as int))),
        decreases xs@.len() - i,
    {
        let z = xs[i].zip();
        proof {
            lemma_tviews_index(xs@, i as int);
            let pre = src.take(i + 1);
            assert(pre.drop_last() =~= src.take(i as int));
            assert(zip_all(pre) == zip_all(pre.drop_last()).push(zip_type(pre.last())));
            let zs = zip_all(pre);
            assert(zs.drop_last() =~= zip_all(src.take(i as int)));
            assert(dedup(zs) == (if has_match(zs.last(), dedup(zs.drop_last()), 0) {
                dedup(zs.drop_last())
            } else {
                dedup(zs.drop_last()).push(zs.last())
            }));
        }
        if !contains_same(&z, &out) {
            let ghost before = out@;
            out.push(z);
            proof {
                lemma_tviews_push(before, z);
            }
        }
        i = i + 1;
    }
    proof {
        assert(src.take(i as int) =~= src);
    }
    out
}

fn copy_all(xs: &Vec<GAstType>) -> (r: Vec<GAstType>)
    ensures
        tviews(r@) == tviews(xs@),
    decreases xs,
{
    let mut out: Vec<GAstType> = Vec::new();
    let mut i: usize = 0;
    proof {
        assert(tviews(out@) == Seq::<TypeV>::empty());
        assert(xs@.take(0) =~= Seq::<GAstType>::empty());
        assert(tviews(Seq::<GAstType>::empty()) == Seq::<TypeV>::empty());
    }
    while i < xs.len()
        invariant
            i <= xs@.len(),
            tviews(out@) == tviews(xs@.take(i as int)),
        decreases xs@.len() - i,
    {
        let c = xs[i].duplicate();
        let ghost before = out@;
        out.push(c);
        proof {
            lemma_tviews_push(before, c);
            lemma_tviews_push(xs@.take(i as int), xs@[i as int]);
            assert(xs@.take(i + 1) =~= xs@.take(i as int).push(xs@[i as int]));
        }
        i = i + 1;
    }
    assert(xs@.take(i as int) =~= xs@);
    out
}

/// Whether `ys` holds a type that is the same as `x`.
fn contains_same(x: &GAstType, ys: &Vec<GAstType>) -> (r: bool)
    ensures
        r == has_match(x@, tviews(ys@), 0),
    decreases x, 2int,
{
    proof {
        lemma_tviews_len(ys@);
    }
    let ghost yv = tviews(ys@);
    let mut j: usize = 0;
    while j < ys.len()
        invariant
            j <= ys@.len(),
            yv == tviews(ys@),
            yv.len() == ys@.len(),
            has_match(x@, yv, 0) == has_match(x@, yv, j as int),
        decreases ys@.len() - j,
    {
        proof {
            lemma_tviews_index(ys@, j as int);
        }
        if type_eq(x, &ys[j]) {
            return true;
        }
        j = j + 1;
    }
    false
}

/// Whether `xs` holds a type that `y` is the same as.
fn contained_in(xs: &Vec<GAstType>, y: &GAstType) -> (r: bool)
    ensures
        r == has_match_rev(tviews(xs@), y@, 0),
    decreases xs, 0int,
{
    proof {
        lemma_tviews_len(xs@);
    }
    let ghost xv = tviews(xs@);
    let mut i: usize = 0;
    while i < xs.len()
        invariant
            i <= xs@.len(),
            xv == tviews(xs@),
            xv.len() == xs@.len(),
            has_match_rev(xv, y@, 0) == has_match_rev(xv, y@, i as int),
        decreases xs@.len() - i,
    {
        proof {
            lemma_tviews_index(xs@, i as int);
        }
        if type_eq(&xs[i], y) {
            return true;
        }
        i = i + 1;
    }
    false
}

/// Whether two sequences of types are the same element by element.
fn all_same(xs: &Vec<GAstType>, ys: &Vec<GAstType>) -> (r: bool)
    ensures
        r == (tviews(xs@).len() == tviews(ys@).len() && forall|i: int|
            0 <= i < tviews(xs@).len() ==> same_type(tviews(xs@)[i], #[trigger] tviews(ys@)[i])),
    decreases xs, 1int,
{
    proof {
        lemma_tviews_len(xs@);
        lemma_tviews_len(ys@);
    }
    if xs.len() != ys.len() {
        return false;
    }
    let mut i: usize = 0;
    while i < xs.len()
        invariant
            i <= xs@.len() == ys@.len(),
            tviews(xs@).len() == xs@.len(),
            tviews(ys@).len() == ys@.len(),
            forall|k: int| 0 <= k < i ==> same_type(tviews(xs@)[k], #[trigger] tviews(ys@)[k]),
        decreases xs@.len() - i,
    {
        proof {
            lemma_tviews_index(xs@, i as int);
            lemma_tviews_index(ys@, i as int);
        }
        if !type_eq(&xs[i], &ys[i]) {
            assert(!same_type(tviews(xs@)[i as int], tviews(ys@)[i as int]));
            return false;
        }
        i = i + 1;
    }
    true
}

/// Whether every type of `xs` has a same type in `ys`.
fn covered_by(xs: &Vec<GAstType>, ys: &Vec<GAstType>) -> (r: bool)
    ensures
        r == covered(tviews(xs@), tviews(ys@), 0),
    decreases xs, 1int,
{
    proof {
        lemma_tviews_len(xs@);
    }
    let ghost xv = tviews(xs@);
    let ghost yv = tviews(ys@);
    let mut i: usize = 0;
    while i < xs.len()
        invariant
            i <= xs@.len(),
            xv == tviews(xs@),
            yv == tviews(ys@),
            xv.len() == xs@.len(),
            covered(xv, yv, 0) == covered(xv, yv, i as int),
        decreases xs@.len() - i,
    {
        proof {
            lemma_tviews_index(xs@, i as int);
        }
        if !contains_same(&xs[i], ys) {
            return false;
        }
        i = i + 1;
    }
    true
}

/// Whether every type of `ys` has a same type in `xs`.
fn covers(xs: &Vec<GAstType>, ys: &Vec<GAstType>) -> (r: bool)
    ensures
        r == covering(tviews(xs@), tviews(ys@), 0),
    decreases xs, 1int,
{
    proof {
        lemma_tviews_len(ys@);
    }
    let ghost xv = tviews(xs@);
    let ghost yv = tviews(ys@);
    let mut j: usize = 0;
    while j < ys.len()
        invariant
            j <= ys@.len(),
            xv == tviews(xs@),
            yv == tviews(ys@),
            yv.len() == ys@.len(),
            covering(xv, yv, 0) == covering(xv, yv, j as int),
        decreases ys@.len() - j,
    {
        proof {
            lemma_tviews_index(ys@, j as int);
        }
        if !contained_in(xs, &ys[j]) {
            return false;
        }
        j = j + 1;
    }
    true
}

/// Whether two types are the same, unions compared as sets.
pub fn type_eq(a: &GAstType, b: &GAstType) -> (r: bool)
    ensures
        r == same_type(a@, b@),
    decreases a, 0int,
{
    match (a, b) {
        (GAstType::Const(x), GAstType::Const(y)) => {
            assert(a@ == TypeV::Const(*x) && b@ == TypeV::Const(*y));
            *x == *y
        },
        (GAstType::Pair(a1, a2), GAstType::Pair(b1, b2)) => {
            assert(a@ == TypeV::Pair(Box::new((**a1)@), Box::new((**a2)@)));
            assert(b@ == TypeV::Pair(Box::new((**b1)@), Box::new((**b2)@)));
            type_eq(a1, b1) && type_eq(a2, b2)
        },
        (GAstType::List(x), GAstType::List(y)) => {
            assert(a@ == TypeV::List(Box::new((**x)@)) && b@ == TypeV::List(Box::new((**y)@)));
            type_eq(x, y)
        },
        (GAstType::Tuple(xs), GAstType::Tuple(ys)) => {
            assert(a@ == TypeV::Tuple(tviews(xs@)) && b@ == TypeV::Tuple(tviews(ys@)));
            all_same(xs, ys)
        },
        (GAstType::Union(xs), GAstType::Union(ys)) => {
            assert(a@ == TypeV::Union(tviews(xs@)) && b@ == TypeV::Union(tviews(ys@)));
            covered_by(xs, ys) && covers(xs, ys)
        },
        _ => {
            proof {
                lemma_view_shape(a);
                lemma_view_shape(b);
            }
            false
        },
    }
}

/// The variant of a constant.
pub open spec fn const_type(c: ConstV) -> ConstantType {
    match c {
        ConstV::Nil => ConstantType::Nil,
        ConstV::Bool(_) => ConstantType::Bool,
        ConstV::Char(_) => ConstantType::Char,
        ConstV::Int(_) => ConstantType::Int,
        ConstV::Uint(_) => ConstantType::Uint,
        ConstV::Float(_) => ConstantType::Float,
        ConstV::Str(_) => ConstantType::Str,
        ConstV::Sym(_) => ConstantType::Sym,
    }
}

/// The kind of node a tree is.
pub open spec fn simple_type_of(g: GAstV) -> SimpleType {
    match g {
        GAstV::Const(c) => SimpleType::Const(const_type(c)),
        GAstV::Pair(_, _) => SimpleType::Pair,
        GAstV::List(_, _) => SimpleType::List,
    }
}

/// The structural type of a tree: a pair's type pairs its children's
/// types, and a list's type is the tuple of its elements' types, in order.
pub open spec fn type_of(g: GAstV) -> TypeV
    decreases g,
{
    match g {
        GAstV::Const(c) => TypeV::Const(const_type(c)),
        GAstV::Pair(a, b) => TypeV::Pair(Box::new(type_of(*a)), Box::new(type_of(*b))),
        GAstV::List(xs, _) => TypeV::Tuple(types_of(xs)),
    }
}

pub open spec fn types_of(xs: Seq<GAstV>) -> Seq<TypeV>
    decreases xs,
{
    if xs.len() == 0 {
        Seq::empty()
    } else {
        types_of(xs.drop_last()).push(type_of(xs.last()))
    }
}

fn constant_type(c: &Constant) -> (r: ConstantType)
    ensures
        r == const_type(c@),
{
    match c {
        Constant::Nil => ConstantType::Nil,
        Constant::Bool(_) => ConstantType::Bool,
        Constant::Char(_) => ConstantType::Char,
        Constant::Int(_) => ConstantType::Int,
        Constant::Uint(_) => ConstantType::Uint,
        Constant::Float(_) => ConstantType::Float,
        Constant::Str(_) => ConstantType::Str,
        Constant::Sym(_) => ConstantType::Sym,
    }
}

fn type_of_tree(g: &GAst) -> (r: GAstType)
    ensures
        r@ == type_of(g@),
    decreases g, 1int,
{
    match g {
        GAst::Const(c) => {
            let r = GAstType::Const(constant_type(c));
            assert(r@ == TypeV::Const(const_type(c@)));
            r
        },
        GAst::Pair(p) => {
            let a = type_of_tree(&p.0);
            let b = type_of_tree(&p.1);
            let r = GAstType::Pair(Handle::new(a), Handle::new(b));
            assert(r@ == TypeV::Pair(Box::new(a@), Box::new(b@)));
            r
        },
        GAst::List(l) => {
            let ts = type_of_items(&l.0);
            let r = GAstType::Tuple(ts);
            assert(r@ == TypeV::Tuple(tviews(ts@)));
            r
        },
    }
}

fn type_of_items(xs: &Vec<GAst>) -> (r: Vec<GAstType>)
    ensures
        tviews(r@) == types_of(views(xs@)),
    decreases xs, 0int,
{
    let mut out: Vec<GAstType> = Vec::new();
    let mut i: usize = 0;
    proof {
        assert(tviews(out@) == Seq::<TypeV>::empty());
        assert(views(xs@.take(0)) == Seq::<GAstV>::empty()) by {
            assert(xs@.take(0) =~= Seq::<GAst>::empty());
        }
        assert(types_of(Seq::<GAstV>::empty()) == Seq::<TypeV>::empty());
    }
    while i < xs.len()
        invariant
            i <= xs@.len(),
            tviews(out@) == types_of(views(xs@.take(i as int))),
        decreases xs@.len() - i,
    {
        let t = type_of_tree(&xs[i]);
        let ghost before = out@;
        out.push(t);
        proof {
            lemma_tviews_push(before, t);
            let pre = xs@.take(i + 1);
            assert(pre =~= xs@.take(i as int).push(xs@[i as int]));
            lemma_views_push(xs@.take(i as int), xs@[i as int]);
            let vs = views(pre);
            assert(vs.drop_last() == views(xs@.take(i as int)));
            assert(types_of(vs) == types_of(vs.drop_last()).push(type_of(vs.last())));
        }
        i = i + 1;
    }
    assert(xs@.take(i as int) =~= xs@);
    out
}

impl GetSimpleType for Constant {
    open spec fn simple_type_spec(&self) -> SimpleType {
        SimpleType::Const(const_type(self@))
    }

    fn get_simple_type(&self) -> (r: SimpleType) {
        SimpleType::Const(constant_type(self))
    }
}

impl GetSimpleType for GAst {
    open spec fn simple_type_spec(&self) -> SimpleType {
        simple_type_of(self@)
    }

    fn get_simple_type(&self) -> (r: SimpleType) {
        match self {
            GAst::Const(c) => SimpleType::Const(constant_type(c)),
            GAst::Pair(_) => SimpleType::Pair,
            GAst::List(_) => SimpleType::List,
        }
    }
}

impl GetType for Constant {
    open spec fn type_spec(&self) -> TypeV {
        TypeV::Const(const_type(self@))
    }

    fn get_type(&self) -> (r: GAstType) {
        let r = GAstType::Const(constant_type(self));
        assert(r@ == TypeV::Const(const_type(self@)));
        r
    }
}

impl GetType for GAst {
    open spec fn type_spec(&self) -> TypeV {
        type_of(self@)
    }

    fn get_type(&self) -> (r: GAstType) {
        type_of_tree(self)
    }
}

impl GetType for Pair {
    open spec fn type_spec(&self) -> TypeV {
        TypeV::Pair(Box::new(type_of(self.0@)), Box::new(type_of(self.1@)))
    }

    fn get_type(&self) -> (r: GAstType) {
        let a = type_of_tree(&self.0);
        let b = type_of_tree(&self.1);
        let r = GAstType::Pair(Handle::new(a), Handle::new(b));
        assert(r@ == TypeV::Pair(Box::new(a@), Box::new(b@)));
        r
    }
}

impl GetType for List {
    open spec fn type_spec(&self) -> TypeV {
        TypeV::Tuple(types_of(views(self.0@)))
    }

    fn get_type(&self) -> (r: GAstType) {
        let ts = type_of_items(&self.0);
        let r = GAstType::Tuple(ts);
        assert(r@ == TypeV::Tuple(tviews(ts@)));
        r
    }
}

/// The view of a type has the type's variant.
proof fn lemma_view_shape(t: &GAstType)
    ensures
        t is Const <==> t@ is Const,
        t is Pair <==> t@ is Pair,
        t is Tuple <==> t@ is Tuple,
        t is List <==> t@ is List,
        t is Union <==> t@ is Union,
{
}

impl Clone for GAstType {
    fn clone(&self) -> (r: Self)
        ensures
            r@ == self@,
    {
        self.duplicate()
    }
}

impl PartialEq for GAstType {
    fn eq(&self, other: &Self) -> (r: bool)
        ensures
            r == same_type(self@, other@),
    {
        type_eq(self, other)
    }
}

impl vstd::std_specs::cmp::PartialEqSpecImpl for GAstType {
    open spec fn obeys_eq_spec() -> bool {
        true
    }

    open spec fn eq_spec(&self, other: &GAstType) -> bool {
        same_type(self@, other@)
    }
}

} // verus!
