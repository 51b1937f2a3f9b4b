//! Symbol-text interning.
use vstd::prelude::*;
use crate::gast::Handle;
use crate::utils::share;

verus! {

/// A pool of canonical texts: each distinct text is held once, and every
/// request for that text is answered with the same shared allocation.
pub struct Interner {
    pool: Vec<Handle<String>>,
}

impl View for Interner {
    type V = Seq<Seq<char>>;

    /// The texts held, in the order they were first requested.
    closed spec fn view(&self) -> Seq<Seq<char>> {
        Seq::new(self.pool@.len(), |k: int| self.pool@[k]@)
    }
}

impl Interner {
    /// No text is held twice.
    pub open spec fn wf(&self) -> bool {
        forall|a: int, b: int| 0 <= a < b < self@.len() ==> self@[a] != self@[b]
    }

    pub fn new() -> (r: Self)
        ensures
            r.wf(),
            r@ == Seq::<Seq<char>>::empty(),
    {
        let r = Interner { pool: Vec::new() };
        assert(r@ =~= Seq::<Seq<char>>::empty());
        r
    }

    /// Number of distinct texts held.
    pub fn len(&self) -> (r: usize)
        ensures
            r == self@.len(),
    {
        self.pool.len()
    }
}

/// The canonical shared copy of `i`: an existing entry when the pool holds
/// the text already, otherwise a new entry added at the end.
pub fn string_intern(pool: &mut Interner, i: &str) -> (r: Handle<String>)
    requires
        old(pool).wf(),
    ensures
        final(pool).wf(),
        r@ == i@,
        old(pool)@.contains(i@) ==> final(pool)@ == old(pool)@,
        !old(pool)@.contains(i@) ==> final(pool)@ == old(pool)@.push(i@),
{
    let key = i.to_owned();
    let mut k: usize = 0;
    while k < pool.pool.len()
        invariant
            k <= pool.pool@.len(),
            key@ == i@,
            *pool == *old(pool),
            pool.wf(),
            forall|j: int| 0 <= j < k ==> pool@[j] != i@,
        decreases pool.pool@.len() - k,
    {
        if *pool.pool[k] == key {
            assert(pool@[k as int] == i@);
            return share(&pool.pool[k]);
        }
        k = k + 1;
    }
    let entry = Handle::new(key);
    let r = share(&entry);
    proof {
        assert(!pool@.contains(i@));
    }
    pool.pool.push(entry);
    assert(pool@ =~= old(pool)@.push(i@));
    r
}

} // verus!
