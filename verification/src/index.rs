use vstd::prelude::*;

verus! {

/// The deduplication index: the mapping from a registered source URL
/// to the identifier of the one item that owns it. It is mutated only
/// in lock step with the registry.
pub struct DedupIndex {
    pub entries: Vec<(String, usize)>,
}

impl DedupIndex {
    /// The index invariant: no URL occurs twice.
    pub open spec fn wf(self) -> bool {
        forall|i: int, j: int|
            0 <= i < j < self.entries@.len() ==> self.entries@[i].0@ != self.entries@[j].0@
    }

    /// Some entry maps URL `u`.
    pub open spec fn contains_url(self, u: Seq<char>) -> bool {
        exists|i: int| 0 <= i < self.entries@.len() && self.entries@[i].0@ == u
    }

    /// The position of the entry mapping `u`; meaningful only when
    /// `contains_url(u)` holds.
    pub open spec fn pos_of(self, u: Seq<char>) -> int {
        choose|i: int| 0 <= i < self.entries@.len() && self.entries@[i].0@ == u
    }

    /// The identifier `u` maps to; meaningful only when
    /// `contains_url(u)` holds.
    pub open spec fn id_of(self, u: Seq<char>) -> usize {
        self.entries@[self.pos_of(u)].1
    }

    /// In a well-formed index, at most one position maps `u`.
    pub proof fn lemma_url_unique(self, u: Seq<char>, i: int, j: int)
        requires
            self.wf(),
            0 <= i < self.entries@.len(),
            0 <= j < self.entries@.len(),
            self.entries@[i].0@ == u,
            self.entries@[j].0@ == u,
        ensures
            i == j,
    {
    }

    pub fn new() -> (r: DedupIndex)
        ensures
            r.entries@ == Seq::<(String, usize)>::empty(),
            r.wf(),
    {
        let r = DedupIndex { entries: Vec::new() };
        proof {
            assert(r.entries@ =~= Seq::<(String, usize)>::empty());
        }
        r
    }

    /// The position of the entry for `url`, by linear scan.
    fn find(&self, url: &String) -> (r: Option<usize>)
        requires
            self.wf(),
        ensures
            match r {
                Some(i) => self.contains_url(url@) && 0 <= i < self.entries@.len()
                    && self.entries@[i as int].0@ == url@ && i as int == self.pos_of(url@),
                None => !self.contains_url(url@),
            },
    {
        let n = self.entries.len();
        let mut i: usize = 0;
        while i < n
            invariant
                self.wf(),
                n == self.entries@.len(),
                i <= n,
                forall|k: int| 0 <= k < i ==> self.entries@[k].0@ != url@,
            decreases n - i,
        {
            if self.entries[i].0.eq(url) {
                proof {
                    let ix = self.pos_of(url@);
                    assert(self.entries@[i as int].0@ == url@);
                    assert(0 <= ix < self.entries@.len() && self.entries@[ix].0@ == url@);
                    self.lemma_url_unique(url@, ix, i as int);
                }
                return Some(i);
            }
            i = i + 1;
        }
        None
    }

    /// Whether `url` is already registered.
    pub fn contains(&self, url: &String) -> (r: bool)
        requires
            self.wf(),
        ensures
            r == self.contains_url(url@),
    {
        match self.find(url) {
            Some(_) => true,
            None => false,
        }
    }

    /// The identifier registered for `url`, if any.
    pub fn get(&self, url: &String) -> (r: Option<usize>)
        requires
            self.wf(),
        ensures
            match r {
                Some(id) => self.contains_url(url@) && id == self.id_of(url@),
                None => !self.contains_url(url@),
            },
    {
        match self.find(url) {
            Some(i) => Some(self.entries[i].1),
            None => None,
        }
    }

    /// Registers `url` as owned by `id`. The URL must be fresh: the
    /// caller checks first, under the same critical section.
    pub fn put(&mut self, url: String, id: usize)
        requires
            old(self).wf(),
            !old(self).contains_url(url@),
        ensures
            final(self).entries@ == old(self).entries@.push((url, id)),
            final(self).wf(),
            final(self).contains_url(url@),
            final(self).id_of(url@) == id,
    {
        let ghost s = self.entries@;
        self.entries.push((url, id));
        proof {
            let t = self.entries@;
            assert(t.last().0 == url && t.last().1 == id);
            assert(forall|k: int| 0 <= k < s.len() ==> t[k] == s[k]);
            assert forall|i: int, j: int| 0 <= i < j < t.len() implies t[i].0@ != t[j].0@ by {
                if j == t.len() - 1 {
                    assert(t[i] == s[i]);
                    assert(!old(self).contains_url(url@));
                }
            }
            let ix = self.pos_of(url@);
            assert(t[t.len() - 1].0@ == url@);
            assert(0 <= ix < t.len() && t[ix].0@ == url@);
            self.lemma_url_unique(url@, ix, t.len() - 1);
        }
    }

    /// Unregisters `url`, returning the identifier it mapped to.
    pub fn remove(&mut self, url: &String) -> (r: Option<usize>)
        requires
            old(self).wf(),
        ensures
            final(self).wf(),
            match r {
                Some(id) => {
                    &&& old(self).contains_url(url@)
                    &&& id == old(self).id_of(url@)
                    &&& final(self).entries@ == old(self).entries@.remove(old(self).pos_of(url@))
                    &&& !final(self).contains_url(url@)
                },
                None => !old(self).contains_url(url@) && *final(self) == *old(self),
            },
            forall|u: Seq<char>| #[trigger] final(self).contains_url(u) <==> (old(
                self,
            ).contains_url(u) && u != url@),
    {
        let pos = match self.find(url) {
            Some(i) => i,
            None => {
                proof {
                    assert forall|u: Seq<char>| #[trigger]
                        self.contains_url(u) <==> (self.contains_url(u) && u != url@) by {
                        if self.contains_url(u) && u == url@ {
                            assert(self.contains_url(url@));
                        }
                    }
                }
                return None;
            },
        };
        let ghost s = self.entries@;
        let ghost ix = self.pos_of(url@);
        let entry = self.entries.remove(pos);
        proof {
            let t = self.entries@;
            assert(forall|k: int| 0 <= k < pos ==> t[k] == s[k]);
            assert(forall|k: int| pos <= k < t.len() ==> t[k] == s[k + 1]);
            assert forall|i: int, j: int| 0 <= i < j < t.len() implies t[i].0@ != t[j].0@ by {
                let si = if i < pos { i } else { i + 1 };
                let sj = if j < pos { j } else { j + 1 };
                assert(t[i] == s[si] && t[j] == s[sj]);
            }
            assert forall|k: int| 0 <= k < t.len() implies t[k].0@ != url@ by {
                let sk = if k < pos { k } else { k + 1 };
                assert(t[k] == s[sk]);
                if s[sk].0@ == url@ {
                    old(self).lemma_url_unique(url@, ix, sk);
                }
            }
            assert forall|u: Seq<char>| #[trigger]
                final(self).contains_url(u) <==> (old(self).contains_url(u) && u != url@) by {
                if old(self).contains_url(u) && u != url@ {
                    let k = choose|k: int| 0 <= k < s.len() && s[k].0@ == u;
                    if k < ix {
                        assert(t[k].0@ == u);
                    } else {
                        assert(k > ix);
                        assert(t[k - 1].0@ == u);
                    }
                }
                if final(self).contains_url(u) {
                    let k = choose|k: int| 0 <= k < t.len() && t[k].0@ == u;
                    let sk = if k < pos { k } else { k + 1 };
                    assert(s[sk].0@ == u);
                }
            }
        }
        Some(entry.1)
    }

    /// Empties the index unconditionally.
    pub fn clear(&mut self)
        ensures
            final(self).entries@ == Seq::<(String, usize)>::empty(),
            final(self).wf(),
    {
        self.entries.clear();
        proof {
            assert(self.entries@ =~= Seq::<(String, usize)>::empty());
        }
    }
}

} // verus!
