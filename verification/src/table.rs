use vstd::prelude::*;

verus! {

/// A name-to-value table with at most one entry per name, kept in first-set
/// order. It stands for the shell-local variables and for the process
/// environment as the session sees it.
pub struct VarTable {
    entries: Vec<(String, String)>,
}

impl VarTable {
    /// The entries as a sequence of name/value pairs of character sequences.
    pub closed spec fn pairs(self) -> Seq<(Seq<char>, Seq<char>)> {
        self.entries.deep_view()
    }

    /// The mapping the table holds.
    pub open spec fn as_map(self) -> Map<Seq<char>, Seq<char>> {
        Map::new(
            |k: Seq<char>| exists|i: int| 0 <= i < self.pairs().len() && self.pairs()[i].0 == k,
            |k: Seq<char>|
                self.pairs()[choose|i: int|
                    0 <= i < self.pairs().len() && self.pairs()[i].0 == k].1,
        )
    }

    /// No two entries share a name.
    pub open spec fn wf(self) -> bool {
        forall|i: int, j: int|
            0 <= i < j < self.pairs().len() ==> (#[trigger] self.pairs()[i]).0 != (
            #[trigger] self.pairs()[j]).0
    }

    /// Whether the table holds an entry named `k`.
    pub open spec fn has(self, k: Seq<char>) -> bool {
        exists|i: int| 0 <= i < self.pairs().len() && #[trigger] self.pairs()[i].0 == k
    }

    /// The value of the entry named `k`.
    pub open spec fn val(self, k: Seq<char>) -> Seq<char> {
        self.as_map()[k]
    }

    proof fn lemma_at(self, i: int)
        requires
            self.wf(),
            0 <= i < self.pairs().len(),
        ensures
            self.has(self.pairs()[i].0),
            self.val(self.pairs()[i].0) == self.pairs()[i].1,
    {
        let k = self.pairs()[i].0;
        assert(self.has(k));
        let j = choose|j: int| 0 <= j < self.pairs().len() && self.pairs()[j].0 == k;
        assert(self.pairs()[j].0 == k);
        if i != j {
            if i < j {
                assert(self.pairs()[i].0 != self.pairs()[j].0);
            } else {
                assert(self.pairs()[j].0 != self.pairs()[i].0);
            }
        }
        assert(self.as_map()[k] == self.pairs()[j].1);
    }


    proof fn lemma_pair_view(self, i: int)
        requires
            0 <= i < self.pairs().len(),
        ensures
            self.pairs()[i] == (self.entries@[i].0@, self.entries@[i].1@),
            self.pairs().len() == self.entries@.len(),
    {
    }


    /// Two tables agreeing on membership and values have the same mapping.
    proof fn lemma_as_map_is(self, m: Map<Seq<char>, Seq<char>>)
        requires
            forall|q: Seq<char>| #[trigger] self.has(q) <==> m.dom().contains(q),
            forall|q: Seq<char>| #[trigger] m.dom().contains(q) ==> self.val(q) == m[q],
        ensures
            self.as_map() == m,
    {
        assert forall|q: Seq<char>| #[trigger] self.as_map().dom().contains(q) implies m.dom().contains(q) by {
            assert(self.has(q));
        }
        assert forall|q: Seq<char>| #[trigger] m.dom().contains(q) implies self.as_map().dom().contains(q) by {
            assert(self.has(q));
        }
        assert forall|q: Seq<char>| #[trigger] m.dom().contains(q) implies self.as_map()[q] == m[q] by {
            assert(self.val(q) == m[q]);
        }
        assert(self.as_map() =~= m);
    }


    /// Membership in the mapping is membership in the table.
    proof fn lemma_dom(self)
        ensures
            forall|q: Seq<char>| #[trigger] self.as_map().dom().contains(q) <==> self.has(q),
    {
        assert forall|q: Seq<char>| #[trigger] self.as_map().dom().contains(q) <==> self.has(q) by {}
    }

    /// An empty table.
    pub fn new() -> (t: VarTable)
        ensures
            t.wf(),
            t.pairs() == Seq::<(Seq<char>, Seq<char>)>::empty(),
            t.as_map() == Map::<Seq<char>, Seq<char>>::empty(),
    {
        let t = VarTable { entries: Vec::new() };
        proof {
            assert(t.pairs() =~= Seq::<(Seq<char>, Seq<char>)>::empty());
            assert(t.as_map() =~= Map::<Seq<char>, Seq<char>>::empty());
        }
        t
    }


    /// The position of the entry named `k`, if the table holds one.
    fn index_of(&self, k: &str) -> (r: Option<usize>)
        ensures
            match r {
                Some(i) => i < self.pairs().len() && self.pairs()[i as int].0 == k@,
                None => !self.has(k@),
            },
    {
        let kk = k.to_owned();
        let mut i: usize = 0;
        while i < self.entries.len()
            invariant
                kk@ == k@,
                i <= self.pairs().len(),
                self.pairs().len() == self.entries@.len(),
                forall|j: int| 0 <= j < i ==> (#[trigger] self.pairs()[j]).0 != k@,
            decreases self.entries@.len() - i,
        {
            if self.entries[i].0.eq(&kk) {
                proof {
                    self.lemma_pair_view(i as int);
                }
                return Some(i);
            }
            i = i + 1;
            proof {
                self.lemma_pair_view(i - 1);
            }
        }
        proof {
            if self.has(k@) {
                let j = choose|j: int|
                    0 <= j < self.pairs().len() && #[trigger] self.pairs()[j].0 == k@;
                assert(self.pairs()[j].0 != k@);
            }
        }
        None
    }

    /// Whether the table holds an entry named `k`.
    pub fn contains(&self, k: &str) -> (r: bool)
        requires
            self.wf(),
        ensures
            r == self.has(k@),
    {
        match self.index_of(k) {
            Some(i) => {
                proof {
                    self.lemma_at(i as int);
                }
                true
            },
            None => false,
        }
    }

    /// The value of the entry named `k`, if the table holds one.
    pub fn get(&self, k: &str) -> (r: Option<String>)
        requires
            self.wf(),
        ensures
            match r {
                Some(v) => self.has(k@) && v@ == self.val(k@),
                None => !self.has(k@),
            },
    {
        match self.index_of(k) {
            Some(i) => {
                proof {
                    self.lemma_at(i as int);
                    self.lemma_pair_view(i as int);
                }
                Some(self.entries[i].1.clone())
            },
            None => None,
        }
    }

    /// Sets the entry named `k` to `v`: in place when one exists, appended
    /// otherwise. Every other entry is kept as it was.
    pub fn set(&mut self, k: &str, v: &str)
        requires
            old(self).wf(),
        ensures
            final(self).wf(),
            final(self).as_map() == old(self).as_map().insert(k@, v@),
            final(self).has(k@),
            final(self).val(k@) == v@,
            forall|q: Seq<char>| q != k@ ==> (final(self).has(q) <==> old(self).has(q)),
            forall|q: Seq<char>|
                q != k@ && old(self).has(q) ==> #[trigger] final(self).val(q) == old(self).val(q),
            old(self).has(k@) ==> exists|i: int|
                0 <= i < old(self).pairs().len() && (#[trigger] old(self).pairs()[i]).0 == k@
                    && final(self).pairs() == old(self).pairs().update(i, (k@, v@)),
            !old(self).has(k@) ==> final(self).pairs() == old(self).pairs().push((k@, v@)),
    {
        let ghost old_self = *self;
        match self.index_of(k) {
            Some(i) => {
                let name = self.entries[i].0.clone();
                self.entries.set(i, (name, v.to_owned()));
                proof {
                    assert forall|j: int| 0 <= j < self.pairs().len() implies self.pairs()[j]
                        == (if j == i { (k@, v@) } else { old_self.pairs()[j] }) by {
                        self.lemma_pair_view(j);
                        old_self.lemma_pair_view(j);
                    }
                    assert(self.pairs() =~= old_self.pairs().update(i as int, (k@, v@)));
                    assert forall|a: int, b: int|
                        0 <= a < b < self.pairs().len() implies (#[trigger] self.pairs()[a]).0 != (
                    #[trigger] self.pairs()[b]).0 by {
                        assert(old_self.pairs()[a].0 != old_self.pairs()[b].0);
                    }
                    self.lemma_at(i as int);
                    assert forall|q: Seq<char>| q != k@ implies (self.has(q) <==> old_self.has(
                        q,
                    )) by {
                        if self.has(q) {
                            let j = choose|j: int|
                                0 <= j < self.pairs().len() && #[trigger] self.pairs()[j].0 == q;
                            assert(old_self.pairs()[j].0 == q);
                            assert(old_self.has(q));
                        }
                        if old_self.has(q) {
                            let j = choose|j: int|
                                0 <= j < old_self.pairs().len() && #[trigger] old_self.pairs()[j].0
                                    == q;
                            assert(self.pairs()[j].0 == q);
                            assert(self.has(q));
                        }
                    }
                    assert forall|q: Seq<char>| q != k@ && old_self.has(q) implies #[trigger] self
                        .val(q) == old_self.val(q) by {
                        let j = choose|j: int|
                            0 <= j < old_self.pairs().len() && #[trigger] old_self.pairs()[j].0
                                == q;
                        assert(self.pairs()[j].0 == q);
                        self.lemma_at(j);
                        old_self.lemma_at(j);
                    }
                    old_self.lemma_dom();
                    self.lemma_as_map_is(old_self.as_map().insert(k@, v@));
                }
            },
            None => {
                self.entries.push((k.to_owned(), v.to_owned()));
                proof {
                    assert forall|j: int| 0 <= j < self.pairs().len() implies self.pairs()[j]
                        == (if j == self.pairs().len() - 1 { (k@, v@) } else { old_self.pairs()[j] }) by {
                        self.lemma_pair_view(j);
                        if j < self.pairs().len() - 1 {
                            old_self.lemma_pair_view(j);
                        }
                    }
                    assert(self.pairs() =~= old_self.pairs().push((k@, v@)));
                    assert forall|a: int, b: int|
                        0 <= a < b < self.pairs().len() implies (#[trigger] self.pairs()[a]).0 != (
                    #[trigger] self.pairs()[b]).0 by {
                        if b < self.pairs().len() - 1 {
                            assert(old_self.pairs()[a].0 != old_self.pairs()[b].0);
                        } else {
                            assert(self.pairs()[a].0 == old_self.pairs()[a].0);
                            if old_self.pairs()[a].0 == k@ {
                                assert(old_self.has(k@));
                            }
                        }
                    }
                    self.lemma_at(self.pairs().len() - 1);
                    assert forall|q: Seq<char>| q != k@ implies (self.has(q) <==> old_self.has(q)) by {
                        if self.has(q) {
                            let j = choose|j: int|
                                0 <= j < self.pairs().len() && #[trigger] self.pairs()[j].0 == q;
                            assert(j < self.pairs().len() - 1);
                            assert(old_self.pairs()[j].0 == q);
                        }
                        if old_self.has(q) {
                            let j = choose|j: int|
                                0 <= j < old_self.pairs().len() && #[trigger] old_self.pairs()[j].0 == q;
                            assert(self.pairs()[j].0 == q);
                        }
                    }
                    assert forall|q: Seq<char>| q != k@ && old_self.has(q) implies #[trigger] self.val(q)
                        == old_self.val(q) by {
                        let j = choose|j: int|
                            0 <= j < old_self.pairs().len() && #[trigger] old_self.pairs()[j].0 == q;
                        assert(self.pairs()[j].0 == q);
                        self.lemma_at(j);
                        old_self.lemma_at(j);
                    }
                    old_self.lemma_dom();
                    self.lemma_as_map_is(old_self.as_map().insert(k@, v@));
                }
            },
        }
    }

    /// Removes the entry named `k`, if any, keeping the order of the rest.
    /// Returns the removed value.
    pub fn remove(&mut self, k: &str) -> (r: Option<String>)
        requires
            old(self).wf(),
        ensures
            final(self).wf(),
            final(self).as_map() == old(self).as_map().remove(k@),
            !final(self).has(k@),
            forall|q: Seq<char>| q != k@ ==> (final(self).has(q) <==> old(self).has(q)),
            forall|q: Seq<char>|
                q != k@ && old(self).has(q) ==> #[trigger] final(self).val(q) == old(self).val(q),
            match r {
                Some(v) => old(self).has(k@) && v@ == old(self).val(k@),
                None => !old(self).has(k@),
            },
    {
        let ghost old_self = *self;
        match self.index_of(k) {
            Some(i) => {
                proof {
                    old_self.lemma_at(i as int);
                    old_self.lemma_pair_view(i as int);
                }
                let pair = self.entries.remove(i);
                proof {
                    assert forall|j: int| 0 <= j < self.pairs().len() implies self.pairs()[j]
                        == (if j < i { old_self.pairs()[j] } else { old_self.pairs()[j + 1] }) by {
                        self.lemma_pair_view(j);
                        if j < i {
                            old_self.lemma_pair_view(j);
                        } else {
                            old_self.lemma_pair_view(j + 1);
                        }
                    }
                    assert(self.pairs() =~= old_self.pairs().remove(i as int));
                    assert forall|a: int, b: int|
                        0 <= a < b < self.pairs().len() implies (#[trigger] self.pairs()[a]).0 != (
                    #[trigger] self.pairs()[b]).0 by {
                        let a0 = if a < i { a } else { a + 1 };
                        let b0 = if b < i { b } else { b + 1 };
                        assert(self.pairs()[a] == old_self.pairs()[a0]);
                        assert(self.pairs()[b] == old_self.pairs()[b0]);
                        assert(old_self.pairs()[a0].0 != old_self.pairs()[b0].0);
                    }
                    assert forall|q: Seq<char>| self.has(q) implies q != k@ && old_self.has(q) by {
                        let j = choose|j: int|
                            0 <= j < self.pairs().len() && #[trigger] self.pairs()[j].0 == q;
                        let j0 = if j < i { j } else { j + 1 };
                        assert(old_self.pairs()[j0].0 == q);
                        if q == k@ {
                            if j0 < i {
                                assert(old_self.pairs()[j0].0 != old_self.pairs()[i as int].0);
                            } else {
                                assert(old_self.pairs()[i as int].0 != old_self.pairs()[j0].0);
                            }
                        }
                    }
                    assert forall|q: Seq<char>| q != k@ && old_self.has(q) implies self.has(q) by {
                        let j = choose|j: int|
                            0 <= j < old_self.pairs().len() && #[trigger] old_self.pairs()[j].0 == q;
                        if j < i {
                            assert(self.pairs()[j].0 == q);
                        } else {
                            assert(j != i);
                            assert(self.pairs()[j - 1].0 == q);
                        }
                    }
                    assert forall|q: Seq<char>| q != k@ && old_self.has(q) implies #[trigger] self.val(q)
                        == old_self.val(q) by {
                        let j = choose|j: int|
                            0 <= j < old_self.pairs().len() && #[trigger] old_self.pairs()[j].0 == q;
                        old_self.lemma_at(j);
                        if j < i {
                            assert(self.pairs()[j].0 == q);
                            self.lemma_at(j);
                        } else {
                            assert(self.pairs()[j - 1].0 == q);
                            self.lemma_at(j - 1);
                        }
                    }
                    old_self.lemma_dom();
                    self.lemma_as_map_is(old_self.as_map().remove(k@));
                }
                Some(pair.1)
            },
            None => {
                proof {
                    assert forall|q: Seq<char>| q != k@ implies (self.has(q) <==> old_self.has(q)) by {}
                    old_self.lemma_dom();
                    self.lemma_as_map_is(old_self.as_map().remove(k@));
                }
                None
            },
        }
    }

    /// How many entries the table holds.
    pub fn len(&self) -> (n: usize)
        ensures
            n == self.pairs().len(),
    {
        self.entries.len()
    }

    /// The name and value of the entry at `i`, in table order.
    pub fn entry_at(&self, i: usize) -> (r: (String, String))
        requires
            i < self.pairs().len(),
        ensures
            r.0@ == self.pairs()[i as int].0,
            r.1@ == self.pairs()[i as int].1,
    {
        let e = &self.entries[i];
        (e.0.clone(), e.1.clone())
    }
}

} // verus!
