use vstd::prelude::*;

verus! {

/// A set of numeric identifiers, held in increasing order without repeats.
pub struct IdSet {
    ids: Vec<usize>,
}

/// `s` is strictly increasing.
pub open spec fn strictly_increasing(s: Seq<usize>) -> bool {
    forall|i: int, j: int| 0 <= i < j < s.len() ==> s[i] < s[j]
}

impl View for IdSet {
    type V = Set<usize>;

    closed spec fn view(&self) -> Set<usize> {
        self.ids@.to_set()
    }
}

impl IdSet {
    /// The identifiers in increasing order.
    pub closed spec fn elems(&self) -> Seq<usize> {
        self.ids@
    }

    pub closed spec fn wf(&self) -> bool {
        strictly_increasing(self.ids@)
    }

    /// The ordered identifiers hold exactly the set's members, each once.
    pub proof fn lemma_view(&self)
        requires
            self.wf(),
        ensures
            strictly_increasing(self.elems()),
            self.elems().no_duplicates(),
            forall|x: usize| self@.contains(x) <==> self.elems().contains(x),
    {
        self.lemma_elems();
    }

    proof fn lemma_elems(&self)
        requires
            self.wf(),
        ensures
            self.elems().no_duplicates(),
            self@.len() == self.elems().len(),
            self@.finite(),
            forall|x: usize| self@.contains(x) <==> self.elems().contains(x),
    {
        assert(self.ids@.no_duplicates());
        self.ids@.unique_seq_to_set();
    }

    pub fn new() -> (r: IdSet)
        ensures
            r.wf(),
            r@ == Set::<usize>::empty(),
    {
        let r = IdSet { ids: Vec::new() };
        assert(r@ =~= Set::<usize>::empty());
        r
    }

    pub fn len(&self) -> (r: usize)
        requires
            self.wf(),
        ensures
            r == self@.len(),
    {
        proof { self.lemma_elems(); }
        self.ids.len()
    }

    pub fn contains(&self, x: usize) -> (r: bool)
        requires
            self.wf(),
        ensures
            r == self@.contains(x),
    {
        let mut i: usize = 0;
        while i < self.ids.len()
            invariant
                i <= self.ids@.len(),
                forall|k: int| 0 <= k < i ==> self.ids@[k] != x,
            decreases self.ids@.len() - i,
        {
            if self.ids[i] == x {
                return true;
            }
            i = i + 1;
        }
        false
    }

    /// Adds `x`; the result says whether it was absent before.
    pub fn insert(&mut self, x: usize) -> (r: bool)
        requires
            old(self).wf(),
        ensures
            final(self).wf(),
            final(self)@ == old(self)@.insert(x),
            r == !old(self)@.contains(x),
    {
        let mut i: usize = 0;
        while i < self.ids.len() && self.ids[i] < x
            invariant
                i <= self.ids@.len(),
                self.wf(),
                self.ids@ == old(self).ids@,
                forall|k: int| 0 <= k < i ==> self.ids@[k] < x,
            decreases self.ids@.len() - i,
        {
            i = i + 1;
        }
        if i < self.ids.len() && self.ids[i] == x {
            assert(self.ids@.contains(x));
            assert(self@ =~= old(self)@.insert(x));
            return false;
        }
        let ghost before = self.ids@;
        proof {
            assert forall|k: int| 0 <= k < before.len() implies before[k] != x by {
                if k >= i {
                    assert(before[k] >= before[i as int]);
                }
            }
        }
        self.ids.insert(i, x);
        assert(self.ids@ =~= before.insert(i as int, x));
        proof {
            assert forall|a: int, b: int| 0 <= a < b < self.ids@.len() implies self.ids@[a]
                < self.ids@[b] by {
                if a < i && b > i {
                    assert(self.ids@[b] == before[b - 1]);
                    assert(before[b - 1] >= before[i as int]);
                }
            }
            assert(self.ids@[i as int] == x);
            assert forall|y: usize| self@.contains(y) <==> old(self)@.insert(x).contains(y) by {
                if y == x {
                    assert(self.ids@.contains(x));
                }
                if y != x && old(self)@.contains(y) {
                    let k = choose|k: int| 0 <= k < before.len() && before[k] == y;
                    if k < i {
                        assert(self.ids@[k] == y);
                    } else {
                        assert(self.ids@[k + 1] == y);
                    }
                }
                if self@.contains(y) {
                    let k = choose|k: int| 0 <= k < self.ids@.len() && self.ids@[k] == y;
                    if k < i {
                        assert(before[k] == y);
                    } else if k > i {
                        assert(before[k - 1] == y);
                    }
                }
            }
            assert(self@ =~= old(self)@.insert(x));
            assert(!before.contains(x));
        }
        true
    }

    /// The set of the identifiers of `v`.
    pub fn from_vec(v: &Vec<usize>) -> (r: IdSet)
        ensures
            r.wf(),
            r@ == v@.to_set(),
    {
        let mut r = IdSet::new();
        let mut i: usize = 0;
        while i < v.len()
            invariant
                i <= v@.len(),
                r.wf(),
                r@ == v@.subrange(0, i as int).to_set(),
            decreases v@.len() - i,
        {
            r.insert(v[i]);
            assert(r@ =~= v@.subrange(0, i + 1).to_set()) by {
                assert forall|x: usize| r@.contains(x) <==> v@.subrange(0, i + 1).to_set().contains(x) by {
                    if x == v@[i as int] {
                        assert(v@.subrange(0, i + 1)[i as int] == x);
                    }
                    let longer = v@.subrange(0, i + 1);
                    let shorter = v@.subrange(0, i as int);
                    if longer.contains(x) && x != v@[i as int] {
                        let k = choose|k: int| 0 <= k < longer.len() && longer[k] == x;
                        assert(shorter[k] == x);
                    }
                    if shorter.contains(x) {
                        let k = choose|k: int| 0 <= k < shorter.len() && shorter[k] == x;
                        assert(longer[k] == x);
                    }
                }
            }
            i = i + 1;
        }
        assert(v@.subrange(0, v@.len() as int) =~= v@);
        r
    }

    /// The identifiers in increasing order.
    pub fn to_vec(&self) -> (r: Vec<usize>)
        requires
            self.wf(),
        ensures
            r@ == self.elems(),
            r@.to_set() == self@,
            strictly_increasing(r@),
    {
        self.ids.clone()
    }
}

} // verus!
