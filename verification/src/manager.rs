use vstd::prelude::*;

use crate::errors::DlError;
use crate::index::DedupIndex;
use crate::items::{DownloadInfo, DownloadInput, DownloadItem, DownloadStatus};
use crate::queue::{BoundedQueue, QueueError};
use crate::registry::{completed_of, retain_active, Registry};

verus! {

/// The item built when a request is admitted: status `Initial`, no
/// failure, the next free identifier.
pub open spec fn spec_new_item(input: DownloadInput, info: DownloadInfo, id: usize) -> DownloadItem {
    DownloadItem { input, info, status: DownloadStatus::Initial, id, failure: None }
}

/// `item` after a worker transition: same request, same resolved
/// information, same identifier, new status and failure.
pub open spec fn transitioned(
    item: DownloadItem,
    status: DownloadStatus,
    failure: Option<String>,
) -> DownloadItem {
    DownloadItem { input: item.input, info: item.info, status, id: item.id, failure }
}

/// The index holds an entry pairing `item`'s URL with `item`'s
/// identifier.
pub open spec fn pair_in_index(ix: DedupIndex, item: DownloadItem) -> bool {
    exists|j: int|
        0 <= j < ix.entries@.len() && ix.entries@[j].0@ == item.input.url@ && ix.entries@[j].1
            == item.id
}

/// The registry holds an item whose URL and identifier are exactly
/// `url` and `id`.
pub open spec fn entry_has_item(reg: Registry, url: Seq<char>, id: usize) -> bool {
    exists|i: int|
        0 <= i < reg.items@.len() && reg.items@[i].input.url@ == url && reg.items@[i].id == id
}

/// What a successful `add_download` did: the request became an item
/// with the next identifier, appended to the registry, its URL
/// appended to the index, and the identifier counter advanced.
pub open spec fn add_ok(
    pre: DownloadManager,
    post: DownloadManager,
    input: DownloadInput,
    info: DownloadInfo,
) -> bool {
    &&& !pre.index.contains_url(input.url@)
    &&& post.registry.items@ == pre.registry.items@.push(
        spec_new_item(input, info, pre.next_id),
    )
    &&& post.index.entries@.len() == pre.index.entries@.len() + 1
    &&& post.index.entries@.subrange(0, pre.index.entries@.len() as int) == pre.index.entries@
    &&& post.index.entries@.last().0@ == input.url@
    &&& post.index.entries@.last().1 == pre.next_id
    &&& post.next_id == pre.next_id + 1
    &&& post.directory == pre.directory
}

/// What a successful `remove_download` did: the item left the
/// registry, and its URL — and only its URL — left the index.
pub open spec fn remove_ok(
    pre: DownloadManager,
    post: DownloadManager,
    id: usize,
    item: DownloadItem,
) -> bool {
    &&& pre.registry.contains_id(id)
    &&& item == pre.registry.spec_get(id)
    &&& item.id == id
    &&& post.registry.items@ == pre.registry.items@.remove(pre.registry.index_of(id))
    &&& !post.registry.contains_id(id)
    &&& post.index.entries@ == pre.index.entries@.remove(pre.index.pos_of(item.input.url@))
    &&& (forall|u: Seq<char>| #[trigger]
        post.index.contains_url(u) <==> (pre.index.contains_url(u) && u != item.input.url@))
    &&& post.next_id == pre.next_id
    &&& post.directory == pre.directory
}

/// What `remove_completed` did: exactly the `Completed` items left
/// the registry, and the index afterwards pairs the surviving items
/// one for one.
pub open spec fn remove_completed_ok(
    pre: DownloadManager,
    post: DownloadManager,
    removed: Seq<DownloadItem>,
) -> bool {
    &&& post.registry.items@ == retain_active(pre.registry.items@)
    &&& removed == completed_of(pre.registry.items@)
    &&& post.index.entries@.len() == post.registry.items@.len()
    &&& (forall|j: int|
        0 <= j < post.index.entries@.len() ==> (#[trigger] post.index.entries@[j]).0@
            == post.registry.items@[j].input.url@ && post.index.entries@[j].1
            == post.registry.items@[j].id)
    &&& post.next_id == pre.next_id
    &&& post.directory == pre.directory
}

/// The identifiers of the items of `s` whose status is `Initial`, in
/// registry order: exactly what a bulk queue operation enqueues.
pub open spec fn initial_ids(s: Seq<DownloadItem>) -> Seq<usize>
    decreases s.len(),
{
    if s.len() == 0 {
        Seq::empty()
    } else {
        let rest = initial_ids(s.drop_last());
        if s.last().status == DownloadStatus::Initial {
            rest.push(s.last().id)
        } else {
            rest
        }
    }
}

/// `initial_ids` distributes over concatenation.
pub proof fn lemma_initial_ids_concat(a: Seq<DownloadItem>, b: Seq<DownloadItem>)
    ensures
        initial_ids(a + b) == initial_ids(a) + initial_ids(b),
    decreases b.len(),
{
    if b.len() == 0 {
        assert(a + b =~= a);
        assert(initial_ids(a) + initial_ids(b) =~= initial_ids(a));
    } else {
        lemma_initial_ids_concat(a, b.drop_last());
        assert((a + b).drop_last() =~= a + b.drop_last());
        assert((a + b).last() == b.last());
        if b.last().status == DownloadStatus::Initial {
            assert(initial_ids(a + b) =~= initial_ids(a) + initial_ids(b));
        } else {
            assert(initial_ids(a + b) =~= initial_ids(a) + initial_ids(b));
        }
    }
}

/// `initial_ids(s)` holds the identifier of every `Initial` item of
/// `s` and nothing else.
pub proof fn lemma_initial_ids_membership(s: Seq<DownloadItem>)
    ensures
        forall|k: int|
            0 <= k < initial_ids(s).len() ==> exists|i: int|
                0 <= i < s.len() && s[i].status == DownloadStatus::Initial && s[i].id
                    == #[trigger] initial_ids(s)[k],
        forall|i: int|
            0 <= i < s.len() && (#[trigger] s[i]).status == DownloadStatus::Initial ==> initial_ids(
                s,
            ).contains(s[i].id),
    decreases s.len(),
{
    if s.len() > 0 {
        lemma_initial_ids_membership(s.drop_last());
        let dl = s.drop_last();
        assert(forall|i: int| 0 <= i < dl.len() ==> dl[i] == s[i]);
        let rest = initial_ids(dl);
        assert forall|i: int|
            0 <= i < s.len() && (#[trigger] s[i]).status == DownloadStatus::Initial implies
            initial_ids(s).contains(s[i].id) by {
            if i < s.len() - 1 {
                assert(dl[i].status == DownloadStatus::Initial);
                assert(rest.contains(dl[i].id));
                let k = choose|k: int| 0 <= k < rest.len() && rest[k] == dl[i].id;
                assert(initial_ids(s)[k] == s[i].id);
            } else {
                assert(initial_ids(s).last() == s[i].id);
            }
        }
        assert forall|k: int| 0 <= k < initial_ids(s).len() implies exists|i: int|
            0 <= i < s.len() && s[i].status == DownloadStatus::Initial && s[i].id
                == #[trigger] initial_ids(s)[k] by {
            if s.last().status == DownloadStatus::Initial && k == initial_ids(s).len() - 1 {
                assert(s[s.len() - 1].status == DownloadStatus::Initial && s[s.len() - 1].id
                    == initial_ids(s)[k]);
            } else {
                assert(initial_ids(s)[k] == rest[k]);
                let i = choose|i: int|
                    0 <= i < dl.len() && dl[i].status == DownloadStatus::Initial && dl[i].id
                        == rest[k];
                assert(s[i].status == DownloadStatus::Initial && s[i].id == initial_ids(s)[k]);
            }
        }
    }
}

/// The item that an accepted `update_download` of `d` stores: `d`
/// itself when the URL is unchanged, and a freshly admitted item at
/// the same identifier when the URL changed and `resolved` carries
/// the new source information.
pub open spec fn stored_update(
    pre: DownloadManager,
    d: DownloadItem,
    resolved: Option<DownloadInfo>,
) -> DownloadItem {
    if pre.update_decision(d) == Ok::<bool, DlError>(true) {
        spec_new_item(d.input, resolved->0, d.id)
    } else {
        d
    }
}

/// What a successful `update_download` did: the stored item replaced
/// the registered one in place, and on a URL change the index dropped
/// the old URL and gained the new one, mapped to the same identifier.
pub open spec fn update_ok(
    pre: DownloadManager,
    post: DownloadManager,
    d: DownloadItem,
    resolved: Option<DownloadInfo>,
) -> bool {
    let ix = pre.registry.index_of(d.id);
    let old_url = pre.registry.spec_get(d.id).input.url@;
    let changed = old_url != d.input.url@;
    let stored = stored_update(pre, d, resolved);
    &&& pre.update_decision(d) == Ok::<bool, DlError>(changed)
    &&& post.registry.items@ == pre.registry.items@.update(ix, stored)
    &&& (changed ==> {
        &&& post.index.contains_url(d.input.url@)
        &&& post.index.id_of(d.input.url@) == d.id
        &&& !post.index.contains_url(old_url)
        &&& (forall|u: Seq<char>|
            u != d.input.url@ && u != old_url ==> (#[trigger] post.index.contains_url(u)
                <==> pre.index.contains_url(u)))
    })
    &&& (!changed ==> post.index == pre.index)
    &&& post.next_id == pre.next_id
    &&& post.directory == pre.directory
}

/// One value owning every piece of shared state: the registry, the
/// deduplication index, the identifier counter, and the configured
/// download directory. The embedding program guards a
/// `DownloadManager` with one lock and calls one operation per
/// critical section.
pub struct DownloadManager {
    pub registry: Registry,
    pub index: DedupIndex,
    pub next_id: usize,
    pub directory: String,
}

impl DownloadManager {
    /// Registry and index agree: every item's URL is indexed under its
    /// identifier, and every index entry describes a registered item.
    pub open spec fn consistent(self) -> bool {
        &&& (forall|i: int|
            0 <= i < self.registry.items@.len() ==> pair_in_index(
                self.index,
                #[trigger] self.registry.items@[i],
            ))
        &&& (forall|j: int|
            0 <= j < self.index.entries@.len() ==> entry_has_item(
                self.registry,
                (#[trigger] self.index.entries@[j]).0@,
                self.index.entries@[j].1,
            ))
    }

    /// The manager invariant: both structures well formed and in
    /// lock-step, every item well formed, every identifier below the
    /// counter.
    pub open spec fn wf(self) -> bool {
        &&& self.registry.wf()
        &&& self.index.wf()
        &&& self.consistent()
        &&& (forall|i: int|
            0 <= i < self.registry.items@.len() ==> (#[trigger] self.registry.items@[i]).wf())
        &&& (forall|i: int|
            0 <= i < self.registry.items@.len() ==> (#[trigger] self.registry.items@[i]).id
                < self.next_id)
    }

    /// No two registered items share a URL: the deduplication index
    /// admits one owner per URL, and identifiers are unique, so two
    /// distinct positions always differ in URL.
    pub proof fn lemma_urls_unique(self, i: int, j: int)
        requires
            self.wf(),
            0 <= i < self.registry.items@.len(),
            0 <= j < self.registry.items@.len(),
            i != j,
        ensures
            self.registry.items@[i].input.url@ != self.registry.items@[j].input.url@,
    {
        let items = self.registry.items@;
        if items[i].input.url@ == items[j].input.url@ {
            assert(pair_in_index(self.index, items[i]));
            assert(pair_in_index(self.index, items[j]));
            let ji = choose|k: int|
                0 <= k < self.index.entries@.len() && self.index.entries@[k].0@
                    == items[i].input.url@ && self.index.entries@[k].1 == items[i].id;
            let jj = choose|k: int|
                0 <= k < self.index.entries@.len() && self.index.entries@[k].0@
                    == items[j].input.url@ && self.index.entries@[k].1 == items[j].id;
            self.index.lemma_url_unique(items[i].input.url@, ji, jj);
            assert(items[i].id == items[j].id);
            if i < j {
                assert(items[i].id < items[j].id);
            } else {
                assert(items[j].id < items[i].id);
            }
        }
    }

    /// A URL is indexed exactly when some registered item carries it,
    /// and then the index maps it to that item's identifier.
    pub proof fn lemma_url_of_item(self, u: Seq<char>)
        requires
            self.wf(),
        ensures
            self.index.contains_url(u) <==> exists|i: int|
                0 <= i < self.registry.items@.len()
                    && (#[trigger] self.registry.items@[i]).input.url@ == u,
            self.index.contains_url(u) ==> {
                &&& self.registry.contains_id(self.index.id_of(u))
                &&& self.registry.spec_get(self.index.id_of(u)).input.url@ == u
            },
    {
        let items = self.registry.items@;
        let entries = self.index.entries@;
        if self.index.contains_url(u) {
            let p = self.index.pos_of(u);
            assert(0 <= p < entries.len() && entries[p].0@ == u);
            assert(entry_has_item(self.registry, entries[p].0@, entries[p].1));
            let i = choose|i: int|
                0 <= i < items.len() && items[i].input.url@ == entries[p].0@ && items[i].id
                    == entries[p].1;
            assert(items[i].input.url@ == u);
            assert(self.registry.contains_id(self.index.id_of(u)));
            let ix = self.registry.index_of(self.index.id_of(u));
            self.registry.lemma_id_unique(self.index.id_of(u), i, ix);
        }
        if exists|i: int|
            0 <= i < items.len() && (#[trigger] items[i]).input.url@ == u {
            let i = choose|i: int| 0 <= i < items.len() && (#[trigger] items[i]).input.url@ == u;
            assert(pair_in_index(self.index, items[i]));
        }
    }

    /// A fresh manager: nothing registered, identifiers starting at
    /// zero, writing into `directory`.
    pub fn new(directory: String) -> (r: DownloadManager)
        ensures
            r.wf(),
            r.registry.items@ == Seq::<DownloadItem>::empty(),
            r.index.entries@ == Seq::<(String, usize)>::empty(),
            r.next_id == 0,
            r.directory == directory,
    {
        DownloadManager {
            registry: Registry::new(),
            index: DedupIndex::new(),
            next_id: 0,
            directory,
        }
    }

    /// An ordered snapshot of every registered item, ascending by
    /// identifier. Never fails.
    pub fn get_downloads(&self) -> (r: Vec<DownloadItem>)
        ensures
            r@.len() == self.registry.items@.len(),
            forall|i: int| 0 <= i < r@.len() ==> (#[trigger] r@[i]).like(self.registry.items@[i]),
            self.wf() ==> forall|i: int, j: int| 0 <= i < j < r@.len() ==> r@[i].id < r@[j].id,
    {
        self.registry.list()
    }

    /// Admits a request whose source information is already resolved:
    /// refuses a URL that is registered already, otherwise assigns the
    /// next identifier and registers the new item in registry and
    /// index under one critical section.
    pub fn add_download(&mut self, input: DownloadInput, info: DownloadInfo) -> (r: Result<
        DownloadItem,
        DlError,
    >)
        requires
            old(self).wf(),
            old(self).next_id < usize::MAX,
        ensures
            final(self).wf(),
            match r {
                Ok(item) => add_ok(*old(self), *final(self), input, info)
                    && item.like(spec_new_item(input, info, old(self).next_id)),
                Err(e) => e == DlError::DuplicateUrl && old(self).index.contains_url(input.url@)
                    && *final(self) == *old(self),
            },
    {
        if self.index.contains(&input.url) {
            return Err(DlError::DuplicateUrl);
        }
        let id = self.next_id;
        let url_copy = input.url.clone();
        let item = DownloadItem::new(input, info, id);
        let result = item.clone();
        let ghost s = self.registry.items@;
        let ghost stored = item;
        let ins = self.registry.insert(item);
        if ins.is_err() {
            proof {
                assert(old(self).registry.contains_id(id));
                let i = choose|i: int| 0 <= i < s.len() && s[i].id == id;
                assert(s[i].id < old(self).next_id);
                assert(false);
            }
            return Err(DlError::DuplicateUrl);
        }
        proof {
            let t = self.registry.items@;
            let k = choose|k: int| 0 <= k <= s.len() && t == s.insert(k, stored);
            s.insert_ensures(k, stored);
            if k < s.len() {
                assert(t[k] == stored);
                assert(t[k + 1] == s[k]);
                assert(t[k].id < t[k + 1].id);
                assert(s[k].id < old(self).next_id);
                assert(false);
            }
            assert(t =~= s.push(stored));
        }
        self.index.put(url_copy, id);
        self.next_id = id + 1;
        proof {
            let pre = *old(self);
            let post = *self;
            let items = post.registry.items@;
            let entries = post.index.entries@;
            assert(entries.subrange(0, pre.index.entries@.len() as int) =~= pre.index.entries@);
            assert forall|i: int|
                0 <= i < items.len() implies pair_in_index(
                post.index,
                #[trigger] items[i],
            ) by {
                if i < items.len() - 1 {
                    assert(pair_in_index(pre.index, pre.registry.items@[i]));
                    let j = choose|j: int|
                        0 <= j < pre.index.entries@.len() && pre.index.entries@[j].0@
                            == items[i].input.url@ && pre.index.entries@[j].1 == items[i].id;
                    assert(entries[j] == pre.index.entries@[j]);
                } else {
                    assert(entries.last().0@ == items[i].input.url@);
                }
            }
            assert forall|j: int|
                0 <= j < entries.len() implies entry_has_item(
                post.registry,
                (#[trigger] entries[j]).0@,
                entries[j].1,
            ) by {
                if j < entries.len() - 1 {
                    assert(entries[j] == pre.index.entries@[j]);
                    assert(entry_has_item(pre.registry, entries[j].0@, entries[j].1));
                    let i = choose|i: int|
                        0 <= i < pre.registry.items@.len() && pre.registry.items@[i].input.url@
                            == entries[j].0@ && pre.registry.items@[i].id == entries[j].1;
                    assert(items[i] == pre.registry.items@[i]);
                } else {
                    assert(items.last().input.url@ == entries[j].0@);
                    assert(items.last().id == entries[j].1);
                }
            }
        }
        Ok(result)
    }

    /// Removes the item registered under `id` from registry and index
    /// in one critical section; refuses an unknown identifier.
    pub fn remove_download(&mut self, id: usize) -> (r: Result<DownloadItem, DlError>)
        requires
            old(self).wf(),
        ensures
            final(self).wf(),
            match r {
                Ok(item) => remove_ok(*old(self), *final(self), id, item),
                Err(e) => e == DlError::NotFound && !old(self).registry.contains_id(id)
                    && *final(self) == *old(self),
            },
    {
        let item = match self.registry.remove(id) {
            Ok(item) => item,
            Err(_) => {
                return Err(DlError::NotFound);
            },
        };
        proof {
            assert(pair_in_index(old(self).index, item));
            assert(old(self).index.contains_url(item.input.url@));
        }
        let removed = self.index.remove(&item.input.url);
        if removed.is_none() {
            proof {
                assert(false);
            }
            return Err(DlError::NotFound);
        }
        proof {
            let pre = *old(self);
            let post = *self;
            let s = pre.registry.items@;
            let items = post.registry.items@;
            let entries = post.index.entries@;
            let ix = pre.registry.index_of(id);
            let p = pre.index.pos_of(item.input.url@);
            assert(forall|k: int| 0 <= k < ix ==> items[k] == s[k]);
            assert(forall|k: int| ix <= k < items.len() ==> items[k] == s[k + 1]);
            assert(forall|k: int| 0 <= k < p ==> entries[k] == pre.index.entries@[k]);
            assert(forall|k: int|
                p <= k < entries.len() ==> entries[k] == pre.index.entries@[k + 1]);
            assert forall|i: int|
                0 <= i < items.len() implies pair_in_index(
                post.index,
                #[trigger] items[i],
            ) by {
                let si = if i < ix { i } else { i + 1 };
                assert(items[i] == s[si]);
                assert(pair_in_index(pre.index, s[si]));
                let j = choose|j: int|
                    0 <= j < pre.index.entries@.len() && pre.index.entries@[j].0@
                        == s[si].input.url@ && pre.index.entries@[j].1 == s[si].id;
                pre.lemma_urls_unique(si, ix);
                assert(s[si].input.url@ != item.input.url@);
                if j == p {
                    assert(pre.index.entries@[p].0@ == item.input.url@);
                    assert(false);
                }
                if j < p {
                    assert(entries[j] == pre.index.entries@[j]);
                } else {
                    assert(entries[j - 1] == pre.index.entries@[j]);
                }
            }
            assert forall|j: int|
                0 <= j < entries.len() implies entry_has_item(
                post.registry,
                (#[trigger] entries[j]).0@,
                entries[j].1,
            ) by {
                let sj = if j < p { j } else { j + 1 };
                assert(entries[j] == pre.index.entries@[sj]);
                assert(entry_has_item(pre.registry, pre.index.entries@[sj].0@, pre.index.entries@[sj].1));
                let i = choose|i: int|
                    0 <= i < s.len() && s[i].input.url@ == pre.index.entries@[sj].0@ && s[i].id
                        == pre.index.entries@[sj].1;
                if i == ix {
                    assert(s[ix].input.url@ == entries[j].0@);
                    assert(entries[j].0@ == item.input.url@);
                    assert(pre.index.contains_url(entries[j].0@)) by {
                        assert(pre.index.entries@[sj].0@ == entries[j].0@);
                    }
                    assert(!post.index.contains_url(entries[j].0@));
                    assert(post.index.contains_url(entries[j].0@)) by {
                        assert(post.index.entries@[j].0@ == entries[j].0@);
                    }
                    assert(false);
                }
                let ti = if i < ix { i } else { i - 1 };
                assert(items[ti] == s[i]);
            }
        }
        Ok(item)
    }

    /// How an `update_download` of `d` will be treated: refused for a
    /// URL registered to another item, refused for an unknown
    /// identifier, and otherwise accepted — with re-resolution exactly
    /// when the URL differs from the one registered for `d.id`.
    pub open spec fn update_decision(self, d: DownloadItem) -> Result<bool, DlError> {
        if self.index.contains_url(d.input.url@) && self.index.id_of(d.input.url@) != d.id {
            Err(DlError::DuplicateUrl)
        } else if !self.registry.contains_id(d.id) {
            Err(DlError::NotFound)
        } else {
            Ok(self.registry.spec_get(d.id).input.url@ != d.input.url@)
        }
    }

    /// Checks how an update of `d` would be treated, without changing
    /// anything: `Ok(true)` means the caller must resolve the new URL
    /// before committing the update.
    pub fn needs_resolve(&self, download: &DownloadItem) -> (r: Result<bool, DlError>)
        requires
            self.wf(),
        ensures
            r == self.update_decision(*download),
    {
        match self.index.get(&download.input.url) {
            Some(id) => {
                if id != download.id {
                    return Err(DlError::DuplicateUrl);
                }
            },
            None => {},
        }
        match self.registry.find(download.id) {
            None => Err(DlError::NotFound),
            Some(pos) => {
                let same = self.registry.items[pos].input.url.eq(&download.input.url);
                Ok(!same)
            },
        }
    }

    /// Stores a caller-edited item over the registered one: as given
    /// when the URL is unchanged, and as a freshly admitted item —
    /// status `Initial`, no failure, newly resolved information —
    /// when the URL changed. The index follows the URL change in the
    /// same critical section.
    pub fn update_download(&mut self, download: DownloadItem, resolved: Option<DownloadInfo>) -> (r:
        Result<DownloadItem, DlError>)
        requires
            old(self).wf(),
            download.wf(),
            old(self).update_decision(download) == Ok::<bool, DlError>(true) ==> resolved is Some,
        ensures
            final(self).wf(),
            match r {
                Ok(item) => update_ok(*old(self), *final(self), download, resolved) && item.like(
                    stored_update(*old(self), download, resolved),
                ),
                Err(e) => old(self).update_decision(download) == Err::<bool, DlError>(e)
                    && *final(self) == *old(self),
            },
    {
        match self.index.get(&download.input.url) {
            Some(id) => {
                if id != download.id {
                    return Err(DlError::DuplicateUrl);
                }
            },
            None => {},
        }
        let pos = match self.registry.find(download.id) {
            Some(pos) => pos,
            None => {
                return Err(DlError::NotFound);
            },
        };
        let did = download.id;
        let ghost pre = *old(self);
        let ghost ix = pre.registry.index_of(did);
        let ghost old_item = pre.registry.spec_get(did);
        let url_changed = !self.registry.items[pos].input.url.eq(&download.input.url);
        let stored: DownloadItem = if url_changed {
            let info = match resolved {
                Some(info) => info,
                None => {
                    proof {
                        assert(false);
                    }
                    return Err(DlError::NotFound);
                },
            };
            let old_url = self.registry.items[pos].input.url.clone();
            proof {
                assert(pair_in_index(pre.index, old_item));
                assert(pre.index.contains_url(old_url@));
            }
            let removed = self.index.remove(&old_url);
            if removed.is_none() {
                proof {
                    assert(false);
                }
                return Err(DlError::NotFound);
            }
            proof {
                if self.index.contains_url(download.input.url@) {
                    assert(pre.index.contains_url(download.input.url@));
                    pre.lemma_url_of_item(download.input.url@);
                    let i = choose|i: int|
                        0 <= i < pre.registry.items@.len()
                            && (#[trigger] pre.registry.items@[i]).input.url@
                            == download.input.url@;
                    let j = pre.index.pos_of(download.input.url@);
                    assert(pre.index.entries@[j].0@ == download.input.url@);
                    assert(pre.index.id_of(download.input.url@) == did);
                    assert(pre.registry.spec_get(did).input.url@ == download.input.url@);
                    assert(old_item.input.url@ != download.input.url@);
                    assert(false);
                }
            }
            let url_copy = download.input.url.clone();
            self.index.put(url_copy, did);
            DownloadItem::new(download.input, info, did)
        } else {
            download
        };
        let result = stored.clone();
        let ghost mid = *self;
        let rep = self.registry.replace(stored);
        if rep.is_err() {
            proof {
                assert(mid.registry.contains_id(did));
                assert(false);
            }
            return Err(DlError::NotFound);
        }
        proof {
            let post = *self;
            let s = pre.registry.items@;
            let items = post.registry.items@;
            assert(mid.registry == pre.registry);
            assert(mid.registry.index_of(stored.id) == ix) by {
                let k = mid.registry.index_of(stored.id);
                assert(0 <= k < s.len() && s[k].id == stored.id);
                pre.registry.lemma_id_unique(did, k, ix);
            }
            assert(items == s.update(ix, stored));
            assert(forall|k: int| 0 <= k < items.len() && k != ix ==> items[k] == s[k]);
            assert(items[ix] == stored);
            assert(stored.wf());
            assert(stored.id == old_item.id);
            assert(pre.update_decision(download) == Ok::<bool, DlError>(url_changed));
            let entries = post.index.entries@;
            let old_entries = pre.index.entries@;
            if url_changed {
                let p = pre.index.pos_of(old_item.input.url@);
                let mid_entries = old_entries.remove(p);
                assert(entries == mid_entries.push((stored.input.url, did)));
                assert(entries.last().0@ == download.input.url@ && entries.last().1 == did);
                assert(forall|k: int| 0 <= k < mid_entries.len() ==> entries[k] == mid_entries[k]);
                assert(forall|k: int| 0 <= k < p ==> mid_entries[k] == old_entries[k]);
                assert(forall|k: int|
                    p <= k < mid_entries.len() ==> mid_entries[k] == old_entries[k + 1]);
                // The old URL is gone from the index.
                assert forall|k: int|
                    0 <= k < entries.len() implies (#[trigger] entries[k]).0@
                    != old_item.input.url@ by {
                    if k < entries.len() - 1 {
                        let sk = if k < p {
                            k
                        } else {
                            k + 1
                        };
                        assert(entries[k] == old_entries[sk]);
                        if old_entries[sk].0@ == old_item.input.url@ {
                            pre.index.lemma_url_unique(old_item.input.url@, sk, p);
                        }
                    }
                }
                assert(!post.index.contains_url(old_item.input.url@));
                // URLs other than the old and the new keep their fate.
                assert forall|u: Seq<char>|
                    u != download.input.url@ && u != old_item.input.url@ implies (
                #[trigger] post.index.contains_url(u) <==> pre.index.contains_url(u)) by {
                    if post.index.contains_url(u) {
                        let k = choose|k: int| 0 <= k < entries.len() && entries[k].0@ == u;
                        assert(k < entries.len() - 1);
                        let sk = if k < p {
                            k
                        } else {
                            k + 1
                        };
                        assert(old_entries[sk].0@ == u);
                        assert(pre.index.contains_url(u));
                    }
                    if pre.index.contains_url(u) {
                        let k = choose|k: int|
                            0 <= k < old_entries.len() && old_entries[k].0@ == u;
                        assert(k != p);
                        let tk = if k < p {
                            k
                        } else {
                            k - 1
                        };
                        assert(entries[tk].0@ == u);
                        assert(post.index.contains_url(u));
                    }
                }
                // Registry and index stay in lock step.
                assert forall|i: int|
                    0 <= i < items.len() implies pair_in_index(
                    post.index,
                    #[trigger] items[i],
                ) by {
                    if i == ix {
                        assert(entries[entries.len() - 1].0@ == items[ix].input.url@);
                        assert(entries[entries.len() - 1].1 == items[ix].id);
                    } else {
                        assert(items[i] == s[i]);
                        assert(pair_in_index(pre.index, s[i]));
                        let j = choose|j: int|
                            0 <= j < old_entries.len() && old_entries[j].0@ == s[i].input.url@
                                && old_entries[j].1 == s[i].id;
                        pre.lemma_urls_unique(i, ix);
                        assert(s[i].input.url@ != old_item.input.url@);
                        if j == p {
                            assert(old_entries[p].0@ == old_item.input.url@);
                            assert(false);
                        }
                        let tj = if j < p {
                            j
                        } else {
                            j - 1
                        };
                        assert(entries[tj] == old_entries[j]);
                    }
                }
                assert forall|j: int|
                    0 <= j < entries.len() implies entry_has_item(
                    post.registry,
                    (#[trigger] entries[j]).0@,
                    entries[j].1,
                ) by {
                    if j == entries.len() - 1 {
                        assert(items[ix].input.url@ == entries[j].0@);
                        assert(items[ix].id == entries[j].1);
                    } else {
                        let sj = if j < p {
                            j
                        } else {
                            j + 1
                        };
                        assert(entries[j] == old_entries[sj]);
                        assert(entry_has_item(pre.registry, old_entries[sj].0@, old_entries[sj].1));
                        let i = choose|i: int|
                            0 <= i < s.len() && s[i].input.url@ == old_entries[sj].0@ && s[i].id
                                == old_entries[sj].1;
                        if i == ix {
                            assert(old_entries[sj].0@ == old_item.input.url@);
                            pre.index.lemma_url_unique(old_item.input.url@, sj, p);
                            assert(false);
                        }
                        assert(items[i] == s[i]);
                    }
                }
            } else {
                assert(stored.input.url@ == old_item.input.url@);
                assert forall|i: int|
                    0 <= i < items.len() implies pair_in_index(
                    post.index,
                    #[trigger] items[i],
                ) by {
                    if i == ix {
                        assert(pair_in_index(pre.index, old_item));
                        let j = choose|j: int|
                            0 <= j < old_entries.len() && old_entries[j].0@
                                == old_item.input.url@ && old_entries[j].1 == old_item.id;
                        assert(entries[j].0@ == items[ix].input.url@);
                        assert(entries[j].1 == items[ix].id);
                    } else {
                        assert(items[i] == s[i]);
                        assert(pair_in_index(pre.index, s[i]));
                    }
                }
                assert forall|j: int|
                    0 <= j < entries.len() implies entry_has_item(
                    post.registry,
                    (#[trigger] entries[j]).0@,
                    entries[j].1,
                ) by {
                    assert(entry_has_item(pre.registry, old_entries[j].0@, old_entries[j].1));
                    let i = choose|i: int|
                        0 <= i < s.len() && s[i].input.url@ == old_entries[j].0@ && s[i].id
                            == old_entries[j].1;
                    if i == ix {
                        assert(items[ix].input.url@ == entries[j].0@);
                        assert(items[ix].id == entries[j].1);
                    } else {
                        assert(items[i] == s[i]);
                    }
                }
            }
        }
        Ok(result)
    }

    /// Empties registry and index unconditionally, in one critical
    /// section. The identifier counter keeps its value: identifiers
    /// are never reused.
    pub fn clear_downloads(&mut self)
        ensures
            final(self).wf(),
            final(self).registry.items@ == Seq::<DownloadItem>::empty(),
            final(self).index.entries@ == Seq::<(String, usize)>::empty(),
            final(self).next_id == old(self).next_id,
            final(self).directory == old(self).directory,
    {
        self.registry.clear();
        self.index.clear();
    }

    /// The configured download directory.
    pub fn get_directory(&self) -> (r: String)
        ensures
            r == self.directory,
    {
        self.directory.clone()
    }

    /// Replaces the configured download directory.
    pub fn set_directory(&mut self, directory: String)
        ensures
            final(self).directory == directory,
            final(self).registry == old(self).registry,
            final(self).index == old(self).index,
            final(self).next_id == old(self).next_id,
    {
        self.directory = directory;
    }

    /// Removes every `Completed` item from registry and index in one
    /// critical section; always succeeds, possibly as a no-op. Returns
    /// the removed items.
    pub fn remove_completed(&mut self) -> (r: Vec<DownloadItem>)
        requires
            old(self).wf(),
        ensures
            final(self).wf(),
            remove_completed_ok(*old(self), *final(self), r@),
    {
        let ghost s = old(self).registry.items@;
        let removed = self.registry.remove_completed();
        self.index.clear();
        let ghost post_items = self.registry.items@;
        proof {
            crate::registry::lemma_retain_active_props(s);
            assert forall|a: int, b: int|
                0 <= a < b < post_items.len() implies post_items[a].input.url@
                != post_items[b].input.url@ by {
                let ia = choose|i: int| 0 <= i < s.len() && post_items[a] == s[i];
                let ib = choose|i: int| 0 <= i < s.len() && post_items[b] == s[i];
                assert(post_items[a].id < post_items[b].id);
                if ia == ib {
                    assert(false);
                }
                old(self).lemma_urls_unique(ia, ib);
            }
            assert forall|a: int|
                0 <= a < post_items.len() implies (#[trigger] post_items[a]).wf()
                && post_items[a].id < old(self).next_id by {
                let ia = choose|i: int| 0 <= i < s.len() && post_items[a] == s[i];
                assert(s[ia].wf());
            }
        }
        let ghost reg_snapshot = self.registry;
        let n = self.registry.items.len();
        let mut j: usize = 0;
        while j < n
            invariant
                self.registry == reg_snapshot,
                self.next_id == old(self).next_id,
                self.directory == old(self).directory,
                post_items == self.registry.items@,
                n == post_items.len(),
                j <= n,
                self.index.wf(),
                self.index.entries@.len() == j,
                forall|k: int|
                    0 <= k < j ==> (#[trigger] self.index.entries@[k]).0@
                        == post_items[k].input.url@ && self.index.entries@[k].1
                        == post_items[k].id,
                forall|a: int, b: int|
                    0 <= a < b < post_items.len() ==> post_items[a].input.url@
                        != post_items[b].input.url@,
            decreases n - j,
        {
            let url = self.registry.items[j].input.url.clone();
            let id = self.registry.items[j].id;
            proof {
                if self.index.contains_url(url@) {
                    let k = choose|k: int|
                        0 <= k < self.index.entries@.len() && self.index.entries@[k].0@ == url@;
                    assert(post_items[k].input.url@ == post_items[j as int].input.url@);
                    assert(false);
                }
            }
            self.index.put(url, id);
            j = j + 1;
        }
        proof {
            let post = *self;
            assert forall|i: int|
                0 <= i < post_items.len() implies pair_in_index(
                post.index,
                #[trigger] post_items[i],
            ) by {
                assert(post.index.entries@[i].0@ == post_items[i].input.url@);
                assert(post.index.entries@[i].1 == post_items[i].id);
            }
            assert forall|j2: int|
                0 <= j2 < post.index.entries@.len() implies entry_has_item(
                post.registry,
                (#[trigger] post.index.entries@[j2]).0@,
                post.index.entries@[j2].1,
            ) by {
                assert(post_items[j2].input.url@ == post.index.entries@[j2].0@);
                assert(post_items[j2].id == post.index.entries@[j2].1);
            }
        }
        removed
    }

    /// The worker's first step for a dequeued identifier: the item
    /// moves to `Downloading` with its failure cleared, and a snapshot
    /// to publish is returned. An identifier removed between enqueue
    /// and dequeue is reported as `NotFound` and nothing changes.
    pub fn start_download(&mut self, id: usize) -> (r: Result<DownloadItem, DlError>)
        requires
            old(self).wf(),
        ensures
            final(self).wf(),
            match r {
                Ok(item) => {
                    let ix = old(self).registry.index_of(id);
                    let updated = transitioned(
                        old(self).registry.spec_get(id),
                        DownloadStatus::Downloading,
                        None,
                    );
                    &&& old(self).registry.contains_id(id)
                    &&& final(self).registry.items@ == old(self).registry.items@.update(ix, updated)
                    &&& item.like(updated)
                    &&& final(self).index == old(self).index
                    &&& final(self).next_id == old(self).next_id
                    &&& final(self).directory == old(self).directory
                },
                Err(e) => e == DlError::NotFound && !old(self).registry.contains_id(id)
                    && *final(self) == *old(self),
            },
    {
        let pos = match self.registry.find(id) {
            Some(p) => p,
            None => {
                return Err(DlError::NotFound);
            },
        };
        let mut item = self.registry.items.remove(pos);
        item.set_status(DownloadStatus::Downloading);
        item.clear_failure();
        let result = item.clone();
        let ghost updated = item;
        self.registry.items.insert(pos, item);
        proof {
            self.lemma_transition_wf(*old(self), id, pos as int, updated);
        }
        Ok(result)
    }

    /// The worker's last step: `Completed` with no failure message, or
    /// `Failed` carrying one. Returns a snapshot to publish.
    pub fn finish_download(&mut self, id: usize, failure: Option<String>) -> (r: Result<
        DownloadItem,
        DlError,
    >)
        requires
            old(self).wf(),
            failure matches Some(m) ==> m@.len() > 0,
        ensures
            final(self).wf(),
            match r {
                Ok(item) => {
                    let ix = old(self).registry.index_of(id);
                    let status = if failure is Some {
                        DownloadStatus::Failed
                    } else {
                        DownloadStatus::Completed
                    };
                    let updated = transitioned(old(self).registry.spec_get(id), status, failure);
                    &&& old(self).registry.contains_id(id)
                    &&& final(self).registry.items@ == old(self).registry.items@.update(ix, updated)
                    &&& item.like(updated)
                    &&& final(self).index == old(self).index
                    &&& final(self).next_id == old(self).next_id
                    &&& final(self).directory == old(self).directory
                },
                Err(e) => e == DlError::NotFound && !old(self).registry.contains_id(id)
                    && *final(self) == *old(self),
            },
    {
        let pos = match self.registry.find(id) {
            Some(p) => p,
            None => {
                return Err(DlError::NotFound);
            },
        };
        let mut item = self.registry.items.remove(pos);
        match failure {
            Some(msg) => {
                item.set_status(DownloadStatus::Failed);
                item.set_failure(msg);
            },
            None => {
                item.set_status(DownloadStatus::Completed);
                item.clear_failure();
            },
        }
        let result = item.clone();
        let ghost updated = item;
        self.registry.items.insert(pos, item);
        proof {
            self.lemma_transition_wf(*old(self), id, pos as int, updated);
        }
        Ok(result)
    }

    /// Re-establishes the manager invariant after a worker transition
    /// replaced the item at `ix` with `updated`, which differs only in
    /// status and failure and satisfies the item invariant.
    proof fn lemma_transition_wf(self, pre: DownloadManager, id: usize, ix: int, updated: DownloadItem)
        requires
            pre.wf(),
            pre.registry.contains_id(id),
            ix == pre.registry.index_of(id),
            updated.input == pre.registry.spec_get(id).input,
            updated.info == pre.registry.spec_get(id).info,
            updated.id == pre.registry.spec_get(id).id,
            updated.wf(),
            self.registry.items@ == pre.registry.items@.remove(ix).insert(ix, updated),
            self.index == pre.index,
            self.next_id == pre.next_id,
        ensures
            self.wf(),
            self.registry.items@ == pre.registry.items@.update(ix, updated),
    {
        let s = pre.registry.items@;
        let items = self.registry.items@;
        assert(items =~= s.update(ix, updated));
        assert(forall|k: int| 0 <= k < items.len() && k != ix ==> items[k] == s[k]);
        assert(items[ix] == updated);
        assert(updated.id == s[ix].id);
        assert forall|i: int, j: int| 0 <= i < j < items.len() implies items[i].id
            < items[j].id by {
            assert(s[i].id < s[j].id);
        }
        assert forall|i: int|
            0 <= i < items.len() implies pair_in_index(self.index, #[trigger] items[i]) by {
            if i == ix {
                assert(pair_in_index(pre.index, s[ix]));
                assert(updated.input.url@ == s[ix].input.url@);
            } else {
                assert(pair_in_index(pre.index, s[i]));
            }
        }
        assert forall|j: int|
            0 <= j < self.index.entries@.len() implies entry_has_item(
            self.registry,
            (#[trigger] self.index.entries@[j]).0@,
            self.index.entries@[j].1,
        ) by {
            let e = pre.index.entries@[j];
            assert(entry_has_item(pre.registry, e.0@, e.1));
            let i = choose|i: int|
                0 <= i < s.len() && s[i].input.url@ == e.0@ && s[i].id == e.1;
            if i == ix {
                assert(items[ix].input.url@ == e.0@ && items[ix].id == e.1);
            } else {
                assert(items[i] == s[i]);
            }
        }
    }

    /// Enqueues one identifier for execution. The identifier is not
    /// validated here: the worker looks it up at execution time.
    pub fn queue_download(&self, id: usize, queue: &mut BoundedQueue) -> (r: Result<
        (),
        QueueError,
    >)
        requires
            old(queue).wf(),
        ensures
            final(queue).wf(),
            final(queue).cap == old(queue).cap,
            match r {
                Ok(()) => old(queue).buf@.len() < old(queue).cap
                    && final(queue).buf@ == old(queue).buf@.push(id),
                Err(e) => e == QueueError::Full && old(queue).buf@.len() == old(queue).cap
                    && *final(queue) == *old(queue),
            },
    {
        queue.enqueue(id)
    }

    /// Enqueues the identifier of every item whose status is `Initial`
    /// at the time of this snapshot, in registry order. When the queue
    /// fills up part way, the identifiers enqueued so far stay queued
    /// and the operation reports the full queue.
    pub fn queue_downloads(&self, queue: &mut BoundedQueue) -> (r: Result<(), QueueError>)
        requires
            old(queue).wf(),
        ensures
            final(queue).wf(),
            final(queue).cap == old(queue).cap,
            ({
                let want = initial_ids(self.registry.items@);
                let room = old(queue).cap - old(queue).buf@.len();
                if want.len() <= room {
                    r is Ok && final(queue).buf@ == old(queue).buf@ + want
                } else {
                    r == Err::<(), QueueError>(QueueError::Full) && final(queue).buf@ == old(
                        queue,
                    ).buf@ + want.subrange(0, room)
                }
            }),
    {
        let ghost s = self.registry.items@;
        let n = self.registry.items.len();
        let mut i: usize = 0;
        loop
            invariant
                s == self.registry.items@,
                n == s.len(),
                i <= n,
                queue.wf(),
                queue.cap == old(queue).cap,
                queue.buf@ == old(queue).buf@ + initial_ids(s.subrange(0, i as int)),
            decreases n - i,
        {
            if i >= n {
                proof {
                    assert(s.subrange(0, n as int) =~= s);
                }
                return Ok(());
            }
            let ghost prefix = s.subrange(0, i as int);
            proof {
                assert(s.subrange(0, i + 1).drop_last() =~= prefix);
                assert(s.subrange(0, i + 1).last() == s[i as int]);
            }
            if self.registry.items[i].is_initial() {
                let id = self.registry.items[i].id;
                match queue.enqueue(id) {
                    Ok(()) => {
                        proof {
                            assert(queue.buf@ =~= old(queue).buf@ + initial_ids(
                                s.subrange(0, i + 1),
                            ));
                        }
                    },
                    Err(e) => {
                        proof {
                            let want = initial_ids(s);
                            let suffix = s.subrange(i as int, n as int);
                            lemma_initial_ids_concat(prefix, suffix);
                            assert(prefix + suffix =~= s);
                            let single = s.subrange(i as int, i + 1);
                            let rest = s.subrange(i + 1, n as int);
                            lemma_initial_ids_concat(single, rest);
                            assert(single + rest =~= suffix);
                            assert(single.drop_last() =~= Seq::<DownloadItem>::empty());
                            assert(initial_ids(Seq::<DownloadItem>::empty())
                                =~= Seq::<usize>::empty());
                            assert(single.last() == s[i as int]);
                            assert(s[i as int].status == DownloadStatus::Initial);
                            assert(initial_ids(single) =~= Seq::<usize>::empty().push(
                                s[i as int].id,
                            ));
                            assert(initial_ids(single).len() == 1);
                            assert(want == initial_ids(prefix) + initial_ids(suffix));
                            assert(initial_ids(suffix).len() >= 1);
                            let room = old(queue).cap - old(queue).buf@.len();
                            assert(initial_ids(prefix).len() == room);
                            assert(want.len() > room);
                            assert(want.subrange(0, room) =~= initial_ids(prefix));
                        }
                        return Err(e);
                    },
                }
            }
            i = i + 1;
        }
    }
}

} // verus!
