//! The generic abstract syntax shared by every dialect.
use vstd::prelude::*;

pub mod constant;
pub mod list;
pub mod pair;
pub mod symbol;
pub mod text;
pub mod types;

use self::constant::{ConstV, Constant};
use self::list::List;
use self::pair::Pair;
use self::symbol::Symbol;
use crate::utils::share;

verus! {

broadcast use vstd::std_specs::vec::axiom_vec_decreases_to_view, vstd::seq::axiom_seq_index_decreases;

/// Shared, reference-counted handle for subtrees and texts.
pub type Handle<T> = std::sync::Arc<T>;

/// A syntax tree: an atom, a cons cell or a list. Subtrees are shared and
/// never changed in place.
#[derive(Debug, Clone, PartialEq)]
pub enum GAst {
    Const(Constant),
    Pair(Handle<Pair>),
    List(Handle<List>),
}

/// The value of a `GAst`.
pub enum GAstV {
    Const(ConstV),
    Pair(Box<GAstV>, Box<GAstV>),
    List(Seq<GAstV>, Option<Box<GAstV>>),
}

/// The values of a sequence of trees, element by element.
pub open spec fn views(s: Seq<GAst>) -> Seq<GAstV>
    decreases s,
{
    if s.len() == 0 {
        Seq::empty()
    } else {
        views(s.drop_last()).push(s.last().view())
    }
}

pub open spec fn opt_view(t: Option<GAst>) -> Option<Box<GAstV>>
    decreases t,
{
    match t {
        Some(g) => Some(Box::new(g.view())),
        None => None,
    }
}

impl View for GAst {
    type V = GAstV;

    open spec fn view(&self) -> GAstV
        decreases self,
    {
        match self {
            GAst::Const(c) => GAstV::Const(c@),
            GAst::Pair(p) => GAstV::Pair(Box::new(p.0.view()), Box::new(p.1.view())),
            GAst::List(l) => GAstV::List(views(l.0@), opt_view(l.1)),
        }
    }
}

impl GAst {
    pub fn is_const(&self) -> (r: bool)
        ensures
            r == (self@ is Const),
    {
        matches!(self, GAst::Const(_))
    }

    pub fn is_pair(&self) -> (r: bool)
        ensures
            r == (self@ is Pair),
    {
        matches!(self, GAst::Pair(_))
    }

    pub fn is_list(&self) -> (r: bool)
        ensures
            r == (self@ is List),
    {
        matches!(self, GAst::List(_))
    }

    /// The tree is the constant `nil`.
    pub fn is_nil(&self) -> (r: bool)
        ensures
            r == (self@ == GAstV::Const(ConstV::Nil)),
    {
        matches!(self, GAst::Const(Constant::Nil))
    }

    pub fn get_nil(&self) -> (r: Option<()>)
        ensures
            r is Some == (self@ == GAstV::Const(ConstV::Nil)),
    {
        if self.is_nil() {
            Some(())
        } else {
            None
        }
    }

    pub fn get_const(&self) -> (r: Option<Constant>)
        ensures
            match (r, self@) {
                (Some(c), GAstV::Const(d)) => c@ == d,
                (None, v) => !(v is Const),
                _ => false,
            },
    {
        if let GAst::Const(c) = self {
            Some(c.duplicate())
        } else {
            None
        }
    }

    pub fn get_pair(&self) -> (r: Option<Handle<Pair>>)
        ensures
            match (r, self@) {
                (Some(p), GAstV::Pair(a, b)) => p.0@ == *a && p.1@ == *b,
                (None, v) => !(v is Pair),
                _ => false,
            },
    {
        if let GAst::Pair(p) = self {
            Some(share(p))
        } else {
            None
        }
    }

    pub fn get_list(&self) -> (r: Option<Handle<List>>)
        ensures
            match (r, self@) {
                (Some(l), GAstV::List(xs, tl)) => views(l.0@) == xs && opt_view(l.1) == tl,
                (None, v) => !(v is List),
                _ => false,
            },
    {
        if let GAst::List(l) = self {
            Some(share(l))
        } else {
            None
        }
    }
}

/// The value stored under key text `k`, searching from the newest entry.
pub open spec fn lookup(es: Seq<(Seq<char>, GAstV)>, k: Seq<char>) -> Option<GAstV>
    decreases es.len(),
{
    if es.len() == 0 {
        None
    } else if es.last().0 == k {
        Some(es.last().1)
    } else {
        lookup(es.drop_last(), k)
    }
}

pub open spec fn keys_unique(es: Seq<(Seq<char>, GAstV)>) -> bool {
    forall|i: int, j: int| 0 <= i < j < es.len() ==> es[i].0 != es[j].0
}

proof fn lemma_lookup_update(es: Seq<(Seq<char>, GAstV)>, i: int, v: GAstV, k: Seq<char>)
    requires
        keys_unique(es),
        0 <= i < es.len(),
    ensures
        lookup(es.update(i, (es[i].0, v)), k) == if k == es[i].0 {
            Some(v)
        } else {
            lookup(es, k)
        },
    decreases es.len(),
{
    let u = es.update(i, (es[i].0, v));
    if i < es.len() - 1 {
        assert(u.drop_last() =~= es.drop_last().update(i, (es[i].0, v)));
        lemma_lookup_update(es.drop_last(), i, v, k);
        assert(es.last().0 != es[i].0);
    } else {
        assert(u.drop_last() =~= es.drop_last());
    }
}

proof fn lemma_lookup_found(es: Seq<(Seq<char>, GAstV)>, i: int)
    requires
        keys_unique(es),
        0 <= i < es.len(),
    ensures
        lookup(es, es[i].0) == Some(es[i].1),
    decreases es.len(),
{
    if i < es.len() - 1 {
        assert(es.last().0 != es[i].0);
        lemma_lookup_found(es.drop_last(), i);
    }
}

proof fn lemma_lookup_absent(es: Seq<(Seq<char>, GAstV)>, k: Seq<char>)
    requires
        forall|i: int| 0 <= i < es.len() ==> es[i].0 != k,
    ensures
        lookup(es, k) is None,
    decreases es.len(),
{
    if es.len() > 0 {
        lemma_lookup_absent(es.drop_last(), k);
    }
}

/// A mapping from symbols to trees. Keys are told apart by their text
/// alone, so a symbol read anywhere finds what was stored under any other
/// symbol with the same text.
pub struct Record {
    entries: Vec<(Handle<Symbol>, GAst)>,
}

impl View for Record {
    type V = Seq<(Seq<char>, GAstV)>;

    /// Key texts and values, in the order the keys were first stored.
    closed spec fn view(&self) -> Seq<(Seq<char>, GAstV)> {
        Seq::new(self.entries@.len(), |i: int| (self.entries@[i].0@.text, self.entries@[i].1@))
    }
}

impl Record {
    pub open spec fn wf(&self) -> bool {
        keys_unique(self@)
    }

    /// What is stored under the key text `k`.
    pub open spec fn find(&self, k: Seq<char>) -> Option<GAstV> {
        lookup(self@, k)
    }

    pub fn new() -> (r: Self)
        ensures
            r.wf(),
            r@.len() == 0,
    {
        Record { entries: Vec::new() }
    }

    /// Number of keys.
    pub fn len(&self) -> (r: usize)
        ensures
            r == self@.len(),
    {
        self.entries.len()
    }

    fn position(&self, key: &Symbol) -> (r: Option<usize>)
        ensures
            match r {
                Some(i) => i < self@.len() && self@[i as int].0 == key@.text,
                None => forall|i: int| 0 <= i < self@.len() ==> self@[i].0 != key@.text,
            },
    {
        let mut i: usize = 0;
        while i < self.entries.len()
            invariant
                i <= self.entries@.len(),
                forall|j: int| 0 <= j < i ==> self@[j].0 != key@.text,
            decreases self.entries@.len() - i,
        {
            if *self.entries[i].0.0 == *key.0 {
                return Some(i);
            }
            i = i + 1;
        }
        None
    }

    /// The tree stored under the text of `key`.
    pub fn get(&self, key: &Symbol) -> (r: Option<&GAst>)
        requires
            self.wf(),
        ensures
            match r {
                Some(v) => self.find(key@.text) == Some(v@),
                None => self.find(key@.text) is None,
            },
    {
        match self.position(key) {
            Some(i) => {
                proof {
                    lemma_lookup_found(self@, i as int);
                }
                Some(&self.entries[i].1)
            },
            None => {
                proof {
                    lemma_lookup_absent(self@, key@.text);
                }
                None
            },
        }
    }

    /// Stores `value` under the text of `key`, and gives back what was
    /// stored there before.
    pub fn insert(&mut self, key: Handle<Symbol>, value: GAst) -> (r: Option<GAst>)
        requires
            old(self).wf(),
        ensures
            final(self).wf(),
            forall|k: Seq<char>|
                #[trigger] final(self).find(k) == if k == key@.text {
                    Some(value@)
                } else {
                    old(self).find(k)
                },
            match r {
                Some(v) => old(self).find(key@.text) == Some(v@),
                None => old(self).find(key@.text) is None,
            },
    {
        match self.position(&key) {
            Some(i) => {
                proof {
                    lemma_lookup_found(self@, i as int);
                }
                let ghost before = self@;
                let ghost kt = key@.text;
                let ghost vv = value@;
                let mut slot = (key, value);
                self.entries.set_and_swap(i, &mut slot);
                proof {
                    assert(self@ =~= before.update(i as int, (before[i as int].0, vv)));
                    assert forall|k: Seq<char>|
                        #[trigger] self.find(k) == (if k == kt {
                            Some(vv)
                        } else {
                            old(self).find(k)
                        }) by {
                        lemma_lookup_update(before, i as int, vv, k);
                    }
                }
                Some(slot.1)
            },
            None => {
                proof {
                    lemma_lookup_absent(self@, key@.text);
                }
                let ghost before = self@;
                let ghost kt = key@.text;
                let ghost vv = value@;
                self.entries.push((key, value));
                proof {
                    assert(self@ =~= before.push((kt, vv)));
                    assert(self@.drop_last() =~= before);
                }
                None
            },
        }
    }
}

/// A symbol finds in a record whatever was stored under any symbol with the
/// same text, wherever each of them was read.
pub proof fn lemma_record_keys_by_text(r: Record, a: Symbol, b: Symbol)
    requires
        a@.text == b@.text,
    ensures
        r.find(a@.text) == r.find(b@.text),
{
}

pub proof fn lemma_views_len(s: Seq<GAst>)
    ensures
        views(s).len() == s.len(),
    decreases s.len(),
{
    if s.len() > 0 {
        lemma_views_len(s.drop_last());
        assert(views(s) == views(s.drop_last()).push(s.last().view()));
    } else {
        assert(views(s) == Seq::<GAstV>::empty());
    }
}

pub proof fn lemma_views_push(s: Seq<GAst>, g: GAst)
    ensures
        views(s.push(g)) == views(s).push(g@),
{
    assert(s.push(g).drop_last() =~= s);
    assert(views(s.push(g)) == views(s.push(g).drop_last()).push(s.push(g).last().view()));
}

} // verus!
