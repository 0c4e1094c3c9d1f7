use vstd::prelude::*;

use crate::items::{spec_filename, DownloadInfo, DownloadInput, DownloadItem, DownloadStatus};
use crate::manager::{
    add_ok, initial_ids, lemma_initial_ids_membership, remove_completed_ok, remove_ok,
    spec_new_item, DownloadManager,
};
use crate::queue::BoundedQueue;
use crate::registry::{lemma_retain_active_noop, lemma_retain_active_props, retain_active};

verus! {

/// However the manager got into its current state, no two registered
/// items share a URL: every operation preserves `wf`, and under `wf`
/// distinct registry positions always carry distinct URLs.
pub proof fn law_no_shared_url(m: DownloadManager, i: int, j: int)
    requires
        m.wf(),
        0 <= i < m.registry.items@.len(),
        0 <= j < m.registry.items@.len(),
        i != j,
    ensures
        m.registry.items@[i].input.url@ != m.registry.items@[j].input.url@,
{
    m.lemma_urls_unique(i, j);
}

/// An `add_download` followed immediately by `remove_download` of the
/// identifier it assigned leaves the deduplication index free of the
/// URL, the registry free of the identifier, and both structures with
/// exactly their earlier contents.
pub proof fn law_add_then_remove(
    m0: DownloadManager,
    m1: DownloadManager,
    m2: DownloadManager,
    input: DownloadInput,
    info: DownloadInfo,
    removed: DownloadItem,
)
    requires
        m0.wf(),
        m1.wf(),
        add_ok(m0, m1, input, info),
        remove_ok(m1, m2, m0.next_id, removed),
    ensures
        !m2.registry.contains_id(m0.next_id),
        !m2.index.contains_url(input.url@),
        m2.registry.items@ == m0.registry.items@,
        m2.index.entries@ == m0.index.entries@,
{
    let item = spec_new_item(input, info, m0.next_id);
    let n = m0.registry.items@.len() as int;
    assert(m1.registry.items@[n] == item);
    let ix = m1.registry.index_of(m0.next_id);
    m1.registry.lemma_id_unique(m0.next_id, ix, n);
    assert(removed == item);
    assert(m2.registry.items@ =~= m0.registry.items@);
    let en = m0.index.entries@.len() as int;
    let p = m1.index.pos_of(item.input.url@);
    assert(0 <= p < m1.index.entries@.len() && m1.index.entries@[p].0@ == input.url@);
    if p < en {
        assert(m1.index.entries@[p] == m1.index.entries@.subrange(0, en)[p]);
        assert(m0.index.entries@[p].0@ == input.url@);
        assert(m0.index.contains_url(input.url@));
        assert(false);
    }
    assert(m2.index.entries@ =~= m0.index.entries@);
    if m2.registry.contains_id(m0.next_id) {
        let i = choose|i: int|
            0 <= i < m2.registry.items@.len() && m2.registry.items@[i].id == m0.next_id;
        assert(m0.registry.items@[i].id < m0.next_id);
        assert(false);
    }
}

/// An item is `Failed` exactly when it carries a failure message, and
/// a carried message is never empty — for every item of a well-formed
/// manager, in every reachable state.
pub proof fn law_failed_iff_failure(m: DownloadManager, i: int)
    requires
        m.wf(),
        0 <= i < m.registry.items@.len(),
    ensures
        m.registry.items@[i].status == DownloadStatus::Failed <==> m.registry.items@[i].failure
            is Some,
        m.registry.items@[i].failure matches Some(msg) ==> msg@.len() > 0,
{
    assert(m.registry.items@[i].wf());
}

/// `remove_completed` is idempotent: run twice with no state change
/// in between, the second run removes nothing and leaves registry and
/// index as the first run left them.
pub proof fn law_remove_completed_idempotent(
    m0: DownloadManager,
    m1: DownloadManager,
    m2: DownloadManager,
    r1: Seq<DownloadItem>,
    r2: Seq<DownloadItem>,
)
    requires
        remove_completed_ok(m0, m1, r1),
        remove_completed_ok(m1, m2, r2),
    ensures
        r2 == Seq::<DownloadItem>::empty(),
        m2.registry.items@ == m1.registry.items@,
        m2.index.entries@.len() == m1.index.entries@.len(),
        forall|j: int|
            0 <= j < m2.index.entries@.len() ==> (#[trigger] m2.index.entries@[j]).0@
                == m1.index.entries@[j].0@ && m2.index.entries@[j].1 == m1.index.entries@[j].1,
{
    let s = m0.registry.items@;
    lemma_retain_active_props(s);
    lemma_retain_active_noop(retain_active(s));
}

/// A bulk queue operation that appended `initial_ids` enqueued
/// exactly the identifiers whose status was `Initial` in the
/// snapshot: every appended identifier belongs to an `Initial` item,
/// and every `Initial` item's identifier was appended.
pub proof fn law_queue_all_exact(m: DownloadManager, q0: BoundedQueue, q1: BoundedQueue)
    requires
        q1.buf@ == q0.buf@ + initial_ids(m.registry.items@),
    ensures
        forall|k: int|
            q0.buf@.len() <= k < q1.buf@.len() ==> exists|i: int|
                0 <= i < m.registry.items@.len() && m.registry.items@[i].status
                    == DownloadStatus::Initial && m.registry.items@[i].id == #[trigger] q1.buf@[k],
        forall|i: int|
            0 <= i < m.registry.items@.len() && (#[trigger] m.registry.items@[i]).status
                == DownloadStatus::Initial ==> exists|k: int|
                q0.buf@.len() <= k < q1.buf@.len() && q1.buf@[k] == m.registry.items@[i].id,
{
    let s = m.registry.items@;
    let ids = initial_ids(s);
    let base = q0.buf@.len() as int;
    lemma_initial_ids_membership(s);
    assert forall|k: int|
        base <= k < q1.buf@.len() implies exists|i: int|
        0 <= i < s.len() && s[i].status == DownloadStatus::Initial && s[i].id
            == #[trigger] q1.buf@[k] by {
        assert(q1.buf@[k] == ids[k - base]);
    }
    assert forall|i: int|
        0 <= i < s.len() && (#[trigger] s[i]).status == DownloadStatus::Initial implies exists|k: int|
        base <= k < q1.buf@.len() && q1.buf@[k] == s[i].id by {
        assert(ids.contains(s[i].id));
        let k0 = choose|k0: int| 0 <= k0 < ids.len() && ids[k0] == s[i].id;
        assert(q1.buf@[base + k0] == s[i].id);
    }
}

/// Two items whose category, author, title and extension read the
/// same sanitize to the same file name: a collision is decided by
/// those four fields alone.
pub proof fn law_filename_collision(a: DownloadItem, b: DownloadItem)
    requires
        a.input.sub@ == b.input.sub@,
        a.input.op@ == b.input.op@,
        a.info.title@ == b.info.title@,
        a.info.extension@ == b.info.extension@,
    ensures
        spec_filename(a) == spec_filename(b),
{
}

} // verus!
