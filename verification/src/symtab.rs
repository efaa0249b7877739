//! The symbol table: a mapping from symbol name to an optional resolved
//! address.
//!
//! `Some(a)` means resolved (a built-in, a label, or an
//! already-allocated variable); `None` means referenced but not yet
//! allocated.  The table is an association list with distinct keys; its
//! mathematical model is a `Map` from name to entry.

use vstd::prelude::*;

verus! {

/// The map an association list denotes; later entries win.
pub open spec fn assoc_map(ks: Seq<Seq<char>>, vs: Seq<Option<usize>>) -> Map<
    Seq<char>,
    Option<usize>,
>
    recommends
        ks.len() == vs.len(),
    decreases ks.len(),
{
    if ks.len() == 0 {
        Map::empty()
    } else {
        assoc_map(ks.drop_last(), vs.drop_last()).insert(ks.last(), vs.last())
    }
}

pub proof fn lemma_assoc_contains(ks: Seq<Seq<char>>, vs: Seq<Option<usize>>, k: Seq<char>)
    requires
        ks.len() == vs.len(),
    ensures
        assoc_map(ks, vs).dom().contains(k) <==> exists|i: int| 0 <= i < ks.len() && ks[i] == k,
    decreases ks.len(),
{
    if ks.len() > 0 {
        lemma_assoc_contains(ks.drop_last(), vs.drop_last(), k);
        if ks.last() == k {
            assert(ks[ks.len() - 1] == k);
        } else if assoc_map(ks, vs).dom().contains(k) {
            let i = choose|i: int| 0 <= i < ks.len() - 1 && ks.drop_last()[i] == k;
            assert(ks[i] == k);
        } else {
            assert(forall|i: int| 0 <= i < ks.len() - 1 ==> ks.drop_last()[i] == #[trigger] ks[i]);
        }
    }
}

pub proof fn lemma_assoc_get(ks: Seq<Seq<char>>, vs: Seq<Option<usize>>, i: int)
    requires
        ks.len() == vs.len(),
        0 <= i < ks.len(),
        forall|a: int, b: int| 0 <= a < b < ks.len() ==> ks[a] != ks[b],
    ensures
        assoc_map(ks, vs).dom().contains(ks[i]),
        assoc_map(ks, vs)[ks[i]] == vs[i],
    decreases ks.len(),
{
    if i == ks.len() - 1 {
    } else {
        assert(ks.drop_last()[i] == ks[i]);
        lemma_assoc_get(ks.drop_last(), vs.drop_last(), i);
        assert(ks.last() == ks[ks.len() - 1]);
        assert(ks[i] != ks[ks.len() - 1]);
    }
}

pub proof fn lemma_assoc_update(ks: Seq<Seq<char>>, vs: Seq<Option<usize>>, i: int, v: Option<usize>)
    requires
        ks.len() == vs.len(),
        0 <= i < ks.len(),
        forall|a: int, b: int| 0 <= a < b < ks.len() ==> ks[a] != ks[b],
    ensures
        assoc_map(ks, vs.update(i, v)) == assoc_map(ks, vs).insert(ks[i], v),
    decreases ks.len(),
{
    let vs2 = vs.update(i, v);
    if i == ks.len() - 1 {
        assert(vs2.drop_last() =~= vs.drop_last());
        assert(vs2.last() == v);
        assert(assoc_map(ks, vs2) =~= assoc_map(ks, vs).insert(ks[i], v));
    } else {
        assert(vs2.drop_last() =~= vs.drop_last().update(i, v));
        assert(ks.drop_last()[i] == ks[i]);
        lemma_assoc_update(ks.drop_last(), vs.drop_last(), i, v);
        assert(vs2.last() == vs.last());
        assert(ks[i] != ks.last());
        assert(assoc_map(ks, vs2) =~= assoc_map(ks, vs).insert(ks[i], v));
    }
}

pub proof fn lemma_assoc_push(ks: Seq<Seq<char>>, vs: Seq<Option<usize>>, k: Seq<char>, v: Option<
    usize,
>)
    requires
        ks.len() == vs.len(),
    ensures
        assoc_map(ks.push(k), vs.push(v)) == assoc_map(ks, vs).insert(k, v),
{
    assert(ks.push(k).drop_last() =~= ks);
    assert(vs.push(v).drop_last() =~= vs);
    assert(ks.push(k).last() == k);
    assert(vs.push(v).last() == v);
}

/// The sequence of the views of a sequence of character vectors.
pub open spec fn views_of(ks: Seq<Vec<char>>) -> Seq<Seq<char>> {
    Seq::new(ks.len(), |i: int| ks[i]@)
}

/// Compares two character vectors by contents.
pub fn chars_eq(a: &Vec<char>, b: &Vec<char>) -> (r: bool)
    ensures
        r == (a@ == b@),
{
    if a.len() != b.len() {
        return false;
    }
    let mut i: usize = 0;
    while i < a.len()
        invariant
            i <= a.len(),
            a.len() == b.len(),
            forall|j: int| 0 <= j < i ==> a@[j] == b@[j],
        decreases a.len() - i,
    {
        if a[i] != b[i] {
            return false;
        }
        i = i + 1;
    }
    proof {
        assert(a@ =~= b@);
    }
    true
}

pub struct SymbolTable {
    keys: Vec<Vec<char>>,
    vals: Vec<Option<usize>>,
}

impl View for SymbolTable {
    type V = Map<Seq<char>, Option<usize>>;

    closed spec fn view(&self) -> Map<Seq<char>, Option<usize>> {
        assoc_map(views_of(self.keys@), self.vals@)
    }
}

impl SymbolTable {
    /// Keys are as many as values, and distinct.
    pub closed spec fn wf(&self) -> bool {
        &&& self.keys@.len() == self.vals@.len()
        &&& forall|a: int, b: int|
            0 <= a < b < self.keys@.len() ==> views_of(self.keys@)[a] != views_of(self.keys@)[b]
    }

    pub fn new() -> (s: Self)
        ensures
            s.wf(),
            s@ == Map::<Seq<char>, Option<usize>>::empty(),
    {
        let s = SymbolTable { keys: Vec::new(), vals: Vec::new() };
        proof {
            assert(views_of(s.keys@) =~= Seq::<Seq<char>>::empty());
        }
        s
    }

    fn find(&self, name: &Vec<char>) -> (r: Option<usize>)
        requires
            self.wf(),
        ensures
            match r {
                Some(i) => i < self.keys@.len() && views_of(self.keys@)[i as int] == name@,
                None => forall|i: int|
                    0 <= i < self.keys@.len() ==> views_of(self.keys@)[i] != name@,
            },
    {
        let mut i: usize = 0;
        while i < self.keys.len()
            invariant
                i <= self.keys@.len(),
                forall|j: int| 0 <= j < i ==> views_of(self.keys@)[j] != name@,
            decreases self.keys@.len() - i,
        {
            if chars_eq(&self.keys[i], name) {
                return Some(i);
            }
            i = i + 1;
        }
        None
    }

    /// Looks a name up: `None` when the name was never inserted, else
    /// the stored entry.
    pub fn get(&self, name: &Vec<char>) -> (r: Option<Option<usize>>)
        requires
            self.wf(),
        ensures
            match r {
                Some(v) => self@.dom().contains(name@) && self@[name@] == v,
                None => !self@.dom().contains(name@),
            },
    {
        proof {
            lemma_assoc_contains(views_of(self.keys@), self.vals@, name@);
        }
        match self.find(name) {
            Some(i) => {
                proof {
                    lemma_assoc_get(views_of(self.keys@), self.vals@, i as int);
                }
                Some(self.vals[i])
            },
            None => None,
        }
    }

    /// Binds a name, overwriting any earlier entry.
    pub fn insert(&mut self, name: Vec<char>, val: Option<usize>)
        requires
            old(self).wf(),
        ensures
            final(self).wf(),
            final(self)@ == old(self)@.insert(name@, val),
    {
        proof {
            lemma_assoc_contains(views_of(self.keys@), self.vals@, name@);
        }
        match self.find(&name) {
            Some(i) => {
                proof {
                    lemma_assoc_update(views_of(self.keys@), self.vals@, i as int, val);
                }
                self.vals.set(i, val);
                proof {
                    assert(views_of(self.keys@) =~= views_of(old(self).keys@));
                    assert(self.vals@ == old(self).vals@.update(i as int, val));
                    assert(self.wf());
                    assert(self@ == old(self)@.insert(name@, val));
                }
            },
            None => {
                proof {
                    lemma_assoc_push(views_of(self.keys@), self.vals@, name@, val);
                }
                let ghost n = name@;
                self.keys.push(name);
                self.vals.push(val);
                proof {
                    assert(views_of(self.keys@) =~= views_of(old(self).keys@).push(n));
                    assert(self.vals@ == old(self).vals@.push(val));
                    assert(self.wf());
                    assert(self@ == old(self)@.insert(n, val));
                }
            },
        }
    }
}

} // verus!
