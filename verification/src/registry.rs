use vstd::prelude::*;

use crate::errors::DlError;
use crate::items::{DownloadItem, DownloadStatus};

verus! {

/// The items of `s` whose status is not `Completed`, in order.
pub open spec fn retain_active(s: Seq<DownloadItem>) -> Seq<DownloadItem>
    decreases s.len(),
{
    if s.len() == 0 {
        Seq::empty()
    } else {
        let rest = retain_active(s.drop_last());
        if s.last().status == DownloadStatus::Completed {
            rest
        } else {
            rest.push(s.last())
        }
    }
}

/// The items of `s` whose status is `Completed`, in order.
pub open spec fn completed_of(s: Seq<DownloadItem>) -> Seq<DownloadItem>
    decreases s.len(),
{
    if s.len() == 0 {
        Seq::empty()
    } else {
        let rest = completed_of(s.drop_last());
        if s.last().status == DownloadStatus::Completed {
            rest.push(s.last())
        } else {
            rest
        }
    }
}

/// Items strictly ordered by identifier.
pub open spec fn sorted_by_id(s: Seq<DownloadItem>) -> bool {
    forall|i: int, j: int| 0 <= i < j < s.len() ==> s[i].id < s[j].id
}

/// Every item of `retain_active(s)` is an item of `s`, none of them is
/// `Completed`, and the strict ordering by identifier survives.
pub proof fn lemma_retain_active_props(s: Seq<DownloadItem>)
    ensures
        forall|k: int| 0 <= k < retain_active(s).len() ==> #[trigger] retain_active(s)[k].status
            != DownloadStatus::Completed,
        forall|k: int|
            0 <= k < retain_active(s).len() ==> exists|i: int|
                0 <= i < s.len() && #[trigger] retain_active(s)[k] == s[i],
        sorted_by_id(s) ==> sorted_by_id(retain_active(s)),
    decreases s.len(),
{
    if s.len() > 0 {
        lemma_retain_active_props(s.drop_last());
        let rest = retain_active(s.drop_last());
        assert(forall|i: int| 0 <= i < s.drop_last().len() ==> s.drop_last()[i] == s[i]);
        if sorted_by_id(s) {
            assert(sorted_by_id(s.drop_last()));
            if s.last().status != DownloadStatus::Completed {
                assert forall|k: int|
                    0 <= k < rest.len() implies rest[k].id < s.last().id by {
                    let dl = s.drop_last();
                    let i = choose|i: int| 0 <= i < dl.len() && rest[k] == dl[i];
                    assert(s[i].id < s.last().id);
                }
            }
        }
    }
}

/// Every item of `completed_of(s)` is a `Completed` item of `s`.
pub proof fn lemma_completed_of_props(s: Seq<DownloadItem>)
    ensures
        forall|k: int| 0 <= k < completed_of(s).len() ==> #[trigger] completed_of(s)[k].status
            == DownloadStatus::Completed,
        forall|k: int|
            0 <= k < completed_of(s).len() ==> exists|i: int|
                0 <= i < s.len() && #[trigger] completed_of(s)[k] == s[i],
    decreases s.len(),
{
    if s.len() > 0 {
        lemma_completed_of_props(s.drop_last());
        assert(forall|i: int| 0 <= i < s.drop_last().len() ==> s.drop_last()[i] == s[i]);
    }
}

/// On a sequence with no `Completed` item, retaining the active items
/// keeps everything and removes nothing.
pub proof fn lemma_retain_active_noop(s: Seq<DownloadItem>)
    requires
        forall|i: int| 0 <= i < s.len() ==> #[trigger] s[i].status != DownloadStatus::Completed,
    ensures
        retain_active(s) == s,
        completed_of(s) == Seq::<DownloadItem>::empty(),
    decreases s.len(),
{
    if s.len() == 0 {
        assert(retain_active(s) =~= s);
    } else {
        assert(forall|i: int| 0 <= i < s.drop_last().len() ==> s.drop_last()[i] == s[i]);
        lemma_retain_active_noop(s.drop_last());
        assert(retain_active(s) =~= s);
    }
}

/// The authoritative mapping from identifier to item, kept as a vector
/// in strictly increasing identifier order.
pub struct Registry {
    pub items: Vec<DownloadItem>,
}

impl Registry {
    /// The registry invariant: identifiers strictly increase, so each
    /// occurs at most once and `items` is sorted for listing.
    pub open spec fn wf(self) -> bool {
        sorted_by_id(self.items@)
    }

    /// Some registered item carries identifier `id`.
    pub open spec fn contains_id(self, id: usize) -> bool {
        exists|i: int| 0 <= i < self.items@.len() && self.items@[i].id == id
    }

    /// The position of the item carrying `id`; meaningful only when
    /// `contains_id(id)` holds.
    pub open spec fn index_of(self, id: usize) -> int {
        choose|i: int| 0 <= i < self.items@.len() && self.items@[i].id == id
    }

    /// The item registered under `id`; meaningful only when
    /// `contains_id(id)` holds.
    pub open spec fn spec_get(self, id: usize) -> DownloadItem {
        self.items@[self.index_of(id)]
    }

    /// In a well-formed registry, at most one position carries `id`.
    pub proof fn lemma_id_unique(self, id: usize, i: int, j: int)
        requires
            self.wf(),
            0 <= i < self.items@.len(),
            0 <= j < self.items@.len(),
            self.items@[i].id == id,
            self.items@[j].id == id,
        ensures
            i == j,
    {
    }

    pub fn new() -> (r: Registry)
        ensures
            r.items@ == Seq::<DownloadItem>::empty(),
            r.wf(),
    {
        let r = Registry { items: Vec::new() };
        proof {
            assert(r.items@ =~= Seq::<DownloadItem>::empty());
        }
        r
    }

    /// The position of the item carrying `id`, by linear scan.
    pub fn find(&self, id: usize) -> (r: Option<usize>)
        requires
            self.wf(),
        ensures
            match r {
                Some(i) => self.contains_id(id) && 0 <= i < self.items@.len()
                    && self.items@[i as int].id == id && i as int == self.index_of(id),
                None => !self.contains_id(id),
            },
    {
        let n = self.items.len();
        let mut i: usize = 0;
        while i < n
            invariant
                self.wf(),
                n == self.items@.len(),
                i <= n,
                forall|k: int| 0 <= k < i ==> self.items@[k].id != id,
            decreases n - i,
        {
            if self.items[i].id == id {
                proof {
                    let ix = self.index_of(id);
                    assert(self.items@[i as int].id == id);
                    assert(0 <= ix < self.items@.len() && self.items@[ix].id == id);
                    self.lemma_id_unique(id, ix, i as int);
                }
                return Some(i);
            }
            i = i + 1;
        }
        None
    }

    /// An ordered snapshot of every registered item, ascending by
    /// identifier.
    pub fn list(&self) -> (r: Vec<DownloadItem>)
        ensures
            r@.len() == self.items@.len(),
            forall|i: int| 0 <= i < r@.len() ==> #[trigger] r@[i].like(self.items@[i]),
            self.wf() ==> forall|i: int, j: int| 0 <= i < j < r@.len() ==> r@[i].id < r@[j].id,
    {
        let n = self.items.len();
        let mut r: Vec<DownloadItem> = Vec::new();
        let mut i: usize = 0;
        while i < n
            invariant
                n == self.items@.len(),
                i <= n,
                r@.len() == i,
                forall|k: int| 0 <= k < i ==> #[trigger] r@[k].like(self.items@[k]),
            decreases n - i,
        {
            r.push(self.items[i].clone());
            i = i + 1;
        }
        proof {
            if self.wf() {
                assert forall|a: int, b: int| 0 <= a < b < r@.len() implies r@[a].id
                    < r@[b].id by {
                    assert(r@[a].like(self.items@[a]));
                    assert(r@[b].like(self.items@[b]));
                }
            }
        }
        r
    }

    /// Inserts `item` under its identifier; refuses an identifier that
    /// is already registered.
    pub fn insert(&mut self, item: DownloadItem) -> (r: Result<(), DlError>)
        requires
            old(self).wf(),
        ensures
            final(self).wf(),
            match r {
                Ok(()) => !old(self).contains_id(item.id) && exists|k: int|
                    0 <= k <= old(self).items@.len()
                        && final(self).items@ == old(self).items@.insert(k, item),
                Err(e) => e == DlError::DuplicateId && old(self).contains_id(item.id)
                    && *final(self) == *old(self),
            },
            final(self).contains_id(item.id),
    {
        let n = self.items.len();
        let mut pos: usize = 0;
        while pos < n && self.items[pos].id < item.id
            invariant
                *self == *old(self),
                self.wf(),
                n == self.items@.len(),
                pos <= n,
                forall|k: int| 0 <= k < pos ==> self.items@[k].id < item.id,
            decreases n - pos,
        {
            pos = pos + 1;
        }
        if pos < n && self.items[pos].id == item.id {
            proof {
                assert(self.contains_id(item.id));
            }
            return Err(DlError::DuplicateId);
        }
        proof {
            assert forall|k: int| 0 <= k < n implies self.items@[k].id != item.id by {
                if k >= pos {
                    if pos < n {
                        assert(self.items@[pos as int].id > item.id);
                        if k > pos {
                            assert(self.items@[pos as int].id < self.items@[k].id);
                        }
                    }
                }
            }
        }
        self.items.insert(pos, item);
        proof {
            let s = old(self).items@;
            let t = self.items@;
            assert(t == s.insert(pos as int, item));
            assert forall|i: int, j: int| 0 <= i < j < t.len() implies t[i].id < t[j].id by {
                assert(forall|k: int| 0 <= k < pos ==> t[k] == s[k]);
                assert(t[pos as int] == item);
                assert(forall|k: int| pos < k < t.len() ==> t[k] == s[k - 1]);
                if pos < s.len() {
                    assert(s[pos as int].id > item.id);
                }
            }
            assert(self.contains_id(item.id)) by {
                assert(self.items@[pos as int].id == item.id);
            }
        }
        Ok(())
    }

    /// A copy of the item registered under `id`.
    pub fn get(&self, id: usize) -> (r: Result<DownloadItem, DlError>)
        requires
            self.wf(),
        ensures
            match r {
                Ok(item) => self.contains_id(id) && item.like(self.spec_get(id)),
                Err(e) => e == DlError::NotFound && !self.contains_id(id),
            },
    {
        match self.find(id) {
            Some(i) => Ok(self.items[i].clone()),
            None => Err(DlError::NotFound),
        }
    }

    /// Overwrites the entry that carries `item.id`.
    pub fn replace(&mut self, item: DownloadItem) -> (r: Result<(), DlError>)
        requires
            old(self).wf(),
        ensures
            final(self).wf(),
            match r {
                Ok(()) => old(self).contains_id(item.id)
                    && final(self).items@ == old(self).items@.update(old(self).index_of(item.id), item),
                Err(e) => e == DlError::NotFound && !old(self).contains_id(item.id)
                    && *final(self) == *old(self),
            },
    {
        let pos = match self.find(item.id) {
            Some(i) => i,
            None => {
                return Err(DlError::NotFound);
            },
        };
        let ghost s = self.items@;
        let ghost ix = self.index_of(item.id);
        self.items.remove(pos);
        self.items.insert(pos, item);
        proof {
            assert(self.items@ =~= s.update(ix, item));
            let t = self.items@;
            assert forall|i: int, j: int| 0 <= i < j < t.len() implies t[i].id < t[j].id by {
                assert(s[ix].id == item.id);
            }
        }
        Ok(())
    }

    /// Removes and returns the item registered under `id`.
    pub fn remove(&mut self, id: usize) -> (r: Result<DownloadItem, DlError>)
        requires
            old(self).wf(),
        ensures
            final(self).wf(),
            match r {
                Ok(item) => {
                    &&& old(self).contains_id(id)
                    &&& item == old(self).spec_get(id)
                    &&& item.id == id
                    &&& final(self).items@ == old(self).items@.remove(old(self).index_of(id))
                    &&& !final(self).contains_id(id)
                },
                Err(e) => e == DlError::NotFound && !old(self).contains_id(id)
                    && *final(self) == *old(self),
            },
    {
        let pos = match self.find(id) {
            Some(i) => i,
            None => {
                return Err(DlError::NotFound);
            },
        };
        let ghost s = self.items@;
        let ghost ix = self.index_of(id);
        let item = self.items.remove(pos);
        proof {
            let t = self.items@;
            assert(forall|k: int| 0 <= k < pos ==> t[k] == s[k]);
            assert(forall|k: int| pos <= k < t.len() ==> t[k] == s[k + 1]);
            assert forall|k: int| 0 <= k < t.len() implies t[k].id != id by {
                if k < pos {
                    assert(s[k].id < s[ix].id);
                } else {
                    assert(s[ix].id < s[k + 1].id);
                }
            }
        }
        Ok(item)
    }

    /// Empties the registry unconditionally.
    pub fn clear(&mut self)
        ensures
            final(self).items@ == Seq::<DownloadItem>::empty(),
            final(self).wf(),
    {
        self.items.clear();
        proof {
            assert(self.items@ =~= Seq::<DownloadItem>::empty());
        }
    }

    /// Removes every `Completed` item, returning the removed items in
    /// registry order.
    pub fn remove_completed(&mut self) -> (r: Vec<DownloadItem>)
        requires
            old(self).wf(),
        ensures
            final(self).items@ == retain_active(old(self).items@),
            r@ == completed_of(old(self).items@),
            final(self).wf(),
    {
        let mut src: Vec<DownloadItem> = Vec::new();
        core::mem::swap(&mut self.items, &mut src);
        let ghost s0 = src@;
        let n = src.len();
        let mut kept: Vec<DownloadItem> = Vec::new();
        let mut removed: Vec<DownloadItem> = Vec::new();
        let mut i: usize = 0;
        while i < n
            invariant
                n == s0.len(),
                i <= n,
                src@ == s0.subrange(i as int, n as int),
                kept@ == retain_active(s0.subrange(0, i as int)),
                removed@ == completed_of(s0.subrange(0, i as int)),
            decreases n - i,
        {
            let item = src.remove(0);
            proof {
                assert(item == s0[i as int]);
                assert(src@ =~= s0.subrange(i + 1, n as int));
                assert(s0.subrange(0, i + 1).drop_last() =~= s0.subrange(0, i as int));
                assert(s0.subrange(0, i + 1).last() == s0[i as int]);
            }
            if item.is_completed() {
                removed.push(item);
            } else {
                kept.push(item);
            }
            i = i + 1;
        }
        proof {
            assert(s0.subrange(0, n as int) =~= s0);
            lemma_retain_active_props(s0);
        }
        self.items = kept;
        removed
    }
}

} // verus!
