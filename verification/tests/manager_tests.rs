use audio_downloader::{
    BoundedQueue, DedupIndex, DlError, DownloadInfo, DownloadInput, DownloadItem, DownloadManager,
    DownloadStatus, QueueError, Registry,
};

fn input(url: &str) -> DownloadInput {
    DownloadInput::new(url.to_string(), "Author".to_string(), "Cat".to_string())
}

fn info(title: &str) -> DownloadInfo {
    DownloadInfo::new(
        format!("http://audio/{title}"),
        title.to_string(),
        "mp3".to_string(),
        Vec::new(),
    )
}

fn manager() -> DownloadManager {
    DownloadManager::new(".".to_string())
}

#[test]
fn add_assigns_increasing_ids_and_lists_sorted() {
    let mut m = manager();
    let a = m.add_download(input("http://x/1"), info("a")).unwrap();
    let b = m.add_download(input("http://x/2"), info("b")).unwrap();
    let c = m.add_download(input("http://x/3"), info("c")).unwrap();
    assert_eq!((*a.id(), *b.id(), *c.id()), (0, 1, 2));
    let list = m.get_downloads();
    assert_eq!(list.len(), 3);
    assert_eq!(*list[0].id(), 0);
    assert_eq!(*list[1].id(), 1);
    assert_eq!(*list[2].id(), 2);
    assert_eq!(list[1].url(), "http://x/2");
}

#[test]
fn duplicate_url_is_rejected_and_registry_unchanged() {
    let mut m = manager();
    m.add_download(input("http://x/same"), info("a")).unwrap();
    let second = m.add_download(input("http://x/same"), info("b"));
    assert_eq!(second.unwrap_err(), DlError::DuplicateUrl);
    assert_eq!(m.get_downloads().len(), 1);
}

#[test]
fn add_then_remove_frees_url_and_id() {
    let mut m = manager();
    let a = m.add_download(input("http://x/1"), info("a")).unwrap();
    let removed = m.remove_download(*a.id()).unwrap();
    assert_eq!(removed.url(), "http://x/1");
    assert_eq!(m.get_downloads().len(), 0);
    // The URL is free again, and the identifier is never reused.
    let again = m.add_download(input("http://x/1"), info("a")).unwrap();
    assert_eq!(*again.id(), 1);
}

#[test]
fn remove_unknown_id_reports_not_found() {
    let mut m = manager();
    assert_eq!(m.remove_download(99).unwrap_err(), DlError::NotFound);
}

#[test]
fn clear_empties_but_keeps_counter() {
    let mut m = manager();
    m.add_download(input("http://x/1"), info("a")).unwrap();
    m.clear_downloads();
    assert_eq!(m.get_downloads().len(), 0);
    let b = m.add_download(input("http://x/1"), info("a")).unwrap();
    assert_eq!(*b.id(), 1);
}

#[test]
fn remove_completed_removes_exactly_completed() {
    let mut m = manager();
    let a = m.add_download(input("http://x/1"), info("a")).unwrap();
    let b = m.add_download(input("http://x/2"), info("b")).unwrap();
    let c = m.add_download(input("http://x/3"), info("c")).unwrap();
    m.start_download(*a.id()).unwrap();
    m.finish_download(*a.id(), None).unwrap();
    m.start_download(*c.id()).unwrap();
    m.finish_download(*c.id(), Some("Failed to download: offline".to_string())).unwrap();
    let removed = m.remove_completed();
    assert_eq!(removed.len(), 1);
    assert_eq!(*removed[0].id(), *a.id());
    let left = m.get_downloads();
    assert_eq!(left.len(), 2);
    assert_eq!(*left[0].id(), *b.id());
    assert_eq!(*left[1].id(), *c.id());
    // The completed item's URL is free again.
    m.add_download(input("http://x/1"), info("a")).unwrap();
}

#[test]
fn remove_completed_twice_is_idempotent() {
    let mut m = manager();
    let a = m.add_download(input("http://x/1"), info("a")).unwrap();
    m.add_download(input("http://x/2"), info("b")).unwrap();
    m.start_download(*a.id()).unwrap();
    m.finish_download(*a.id(), None).unwrap();
    let first = m.remove_completed();
    assert_eq!(first.len(), 1);
    let listed = m.get_downloads();
    let second = m.remove_completed();
    assert_eq!(second.len(), 0);
    let listed_again = m.get_downloads();
    assert_eq!(listed.len(), listed_again.len());
    assert_eq!(*listed[0].id(), *listed_again[0].id());
}

#[test]
fn update_unknown_id_reports_not_found() {
    let mut m = manager();
    let ghost_item = DownloadItem::new(input("http://x/9"), info("z"), 42);
    assert_eq!(m.needs_resolve(&ghost_item).unwrap_err(), DlError::NotFound);
    assert_eq!(m.update_download(ghost_item, None).unwrap_err(), DlError::NotFound);
}

#[test]
fn update_to_anothers_url_is_rejected() {
    let mut m = manager();
    m.add_download(input("http://x/1"), info("a")).unwrap();
    let b = m.add_download(input("http://x/2"), info("b")).unwrap();
    let edited = DownloadItem::new(input("http://x/1"), info("b"), *b.id());
    assert_eq!(m.needs_resolve(&edited).unwrap_err(), DlError::DuplicateUrl);
    assert_eq!(m.update_download(edited, None).unwrap_err(), DlError::DuplicateUrl);
}

#[test]
fn update_with_same_url_stores_item_as_given() {
    let mut m = manager();
    let a = m.add_download(input("http://x/1"), info("a")).unwrap();
    m.start_download(*a.id()).unwrap();
    m.finish_download(*a.id(), Some("Failed to download: offline".to_string())).unwrap();
    // Only the labels change: no re-resolution, status stays Failed.
    let mut edited = DownloadItem::new(
        DownloadInput::new("http://x/1".to_string(), "NewOp".to_string(), "NewSub".to_string()),
        info("a"),
        *a.id(),
    );
    edited.set_status(DownloadStatus::Failed);
    edited.set_failure("Failed to download: offline".to_string());
    assert_eq!(m.needs_resolve(&edited).unwrap(), false);
    let stored = m.update_download(edited, None).unwrap();
    assert_eq!(stored.op(), "NewOp");
    assert_eq!(stored.status, DownloadStatus::Failed);
    let listed = m.get_downloads();
    assert_eq!(listed[0].status, DownloadStatus::Failed);
    assert_eq!(listed[0].op(), "NewOp");
}

#[test]
fn update_with_new_url_resets_and_moves_index() {
    let mut m = manager();
    let a = m.add_download(input("http://x/old"), info("a")).unwrap();
    m.start_download(*a.id()).unwrap();
    m.finish_download(*a.id(), Some("Failed to download: offline".to_string())).unwrap();
    let mut edited = DownloadItem::new(input("http://x/new"), info("a"), *a.id());
    edited.set_status(DownloadStatus::Failed);
    edited.set_failure("Failed to download: offline".to_string());
    assert_eq!(m.needs_resolve(&edited).unwrap(), true);
    let stored = m.update_download(edited, Some(info("fresh"))).unwrap();
    assert_eq!(stored.url(), "http://x/new");
    assert_eq!(stored.title(), "fresh");
    assert_eq!(stored.status, DownloadStatus::Initial);
    assert!(stored.failure.is_none());
    // The old URL is free, the new one is taken.
    m.add_download(input("http://x/old"), info("other")).unwrap();
    assert_eq!(
        m.add_download(input("http://x/new"), info("dup")).unwrap_err(),
        DlError::DuplicateUrl
    );
}

#[test]
fn queue_all_enqueues_exactly_initial_items() {
    let mut m = manager();
    let a = m.add_download(input("http://x/1"), info("a")).unwrap();
    let b = m.add_download(input("http://x/2"), info("b")).unwrap();
    let c = m.add_download(input("http://x/3"), info("c")).unwrap();
    let d = m.add_download(input("http://x/4"), info("d")).unwrap();
    // a completes, c fails, d is mid-download: only b stays Initial.
    m.start_download(*a.id()).unwrap();
    m.finish_download(*a.id(), None).unwrap();
    m.start_download(*c.id()).unwrap();
    m.finish_download(*c.id(), Some("Failed to download: offline".to_string())).unwrap();
    m.start_download(*d.id()).unwrap();
    let mut q = BoundedQueue::new(12);
    m.queue_downloads(&mut q).unwrap();
    assert_eq!(q.len(), 1);
    assert_eq!(q.dequeue(), Some(*b.id()));
    assert_eq!(q.dequeue(), None);
}

#[test]
fn queue_full_applies_backpressure_without_dropping() {
    let mut m = manager();
    let mut ids = Vec::new();
    for k in 0..5 {
        let it = m.add_download(input(&format!("http://x/{k}")), info("t")).unwrap();
        ids.push(*it.id());
    }
    let mut q = BoundedQueue::new(2);
    // Five pending items do not fit: the bulk operation reports the
    // full queue instead of dropping work, and the first two stay
    // queued.
    assert_eq!(m.queue_downloads(&mut q).unwrap_err(), QueueError::Full);
    assert_eq!(q.len(), 2);
    // One enqueue is refused until the dispatch loop drains a slot.
    assert_eq!(m.queue_download(ids[2], &mut q).unwrap_err(), QueueError::Full);
    assert_eq!(q.dequeue(), Some(ids[0]));
    m.queue_download(ids[2], &mut q).unwrap();
    assert_eq!(q.dequeue(), Some(ids[1]));
    assert_eq!(q.dequeue(), Some(ids[2]));
    assert_eq!(q.dequeue(), None);
}

#[test]
fn worker_lifecycle_publishes_downloading_then_completed() {
    let mut m = manager();
    let a = m
        .add_download(
            input("http://x/1"),
            DownloadInfo::new(
                "http://audio/1.mp3".to_string(),
                "Hello World".to_string(),
                "mp3".to_string(),
                Vec::new(),
            ),
        )
        .unwrap();
    let mut q = BoundedQueue::new(12);
    m.queue_download(*a.id(), &mut q).unwrap();
    let id = q.dequeue().unwrap();
    let downloading = m.start_download(id).unwrap();
    assert_eq!(downloading.status, DownloadStatus::Downloading);
    assert_eq!(downloading.filename(), "[Cat] [Author] Hello World.mp3");
    let completed = m.finish_download(id, None).unwrap();
    assert_eq!(completed.status, DownloadStatus::Completed);
    assert!(completed.failure.is_none());
    assert!(m.get_downloads()[0].is_completed());
}

#[test]
fn worker_failure_sets_failed_with_message() {
    let mut m = manager();
    let a = m.add_download(input("http://x/1"), info("a")).unwrap();
    m.start_download(*a.id()).unwrap();
    let failed = m
        .finish_download(*a.id(), Some("Failed to create file: exists".to_string()))
        .unwrap();
    assert_eq!(failed.status, DownloadStatus::Failed);
    assert_eq!(failed.failure.as_deref(), Some("Failed to create file: exists"));
    assert!(!m.get_downloads()[0].is_completed());
}

#[test]
fn worker_tolerates_id_removed_after_enqueue() {
    let mut m = manager();
    let a = m.add_download(input("http://x/1"), info("a")).unwrap();
    let mut q = BoundedQueue::new(12);
    m.queue_download(*a.id(), &mut q).unwrap();
    m.remove_download(*a.id()).unwrap();
    let id = q.dequeue().unwrap();
    assert_eq!(m.start_download(id).unwrap_err(), DlError::NotFound);
    assert_eq!(m.get_downloads().len(), 0);
}

#[test]
fn directory_is_readable_and_writable() {
    let mut m = DownloadManager::new("/tmp/a".to_string());
    assert_eq!(m.get_directory(), "/tmp/a");
    m.set_directory("/tmp/b".to_string());
    assert_eq!(m.get_directory(), "/tmp/b");
}

#[test]
fn registry_insert_refuses_duplicate_id() {
    let mut r = Registry::new();
    let five = DownloadItem::new(input("http://x/5"), info("a"), 5);
    let five_again = DownloadItem::new(input("http://x/55"), info("b"), 5);
    let two = DownloadItem::new(input("http://x/2"), info("c"), 2);
    r.insert(five).unwrap();
    assert_eq!(r.insert(five_again).unwrap_err(), DlError::DuplicateId);
    r.insert(two).unwrap();
    let listed = r.list();
    assert_eq!(*listed[0].id(), 2);
    assert_eq!(*listed[1].id(), 5);
}

#[test]
fn registry_get_replace_remove() {
    let mut r = Registry::new();
    assert_eq!(r.get(1).unwrap_err(), DlError::NotFound);
    let one = DownloadItem::new(input("http://x/1"), info("a"), 1);
    r.insert(one).unwrap();
    assert_eq!(r.get(1).unwrap().url(), "http://x/1");
    let other = DownloadItem::new(input("http://x/one"), info("b"), 1);
    r.replace(other).unwrap();
    assert_eq!(r.get(1).unwrap().url(), "http://x/one");
    let missing = DownloadItem::new(input("http://x/2"), info("c"), 2);
    assert_eq!(r.replace(missing).unwrap_err(), DlError::NotFound);
    let removed = r.remove(1).unwrap();
    assert_eq!(removed.url(), "http://x/one");
    assert_eq!(r.remove(1).unwrap_err(), DlError::NotFound);
    r.clear();
    assert_eq!(r.list().len(), 0);
}

#[test]
fn dedup_index_maps_urls_to_ids() {
    let mut ix = DedupIndex::new();
    let url = "http://x/1".to_string();
    assert!(!ix.contains(&url));
    assert_eq!(ix.get(&url), None);
    ix.put(url.clone(), 3);
    assert!(ix.contains(&url));
    assert_eq!(ix.get(&url), Some(3));
    assert_eq!(ix.remove(&url), Some(3));
    assert!(!ix.contains(&url));
    assert_eq!(ix.remove(&url), None);
    ix.put(url.clone(), 4);
    ix.clear();
    assert!(!ix.contains(&url));
}

#[test]
fn empty_registry_lists_nothing_and_queues_nothing() {
    let m = manager();
    assert_eq!(m.get_downloads().len(), 0);
    let mut q = BoundedQueue::new(2);
    m.queue_downloads(&mut q).unwrap();
    assert_eq!(q.len(), 0);
    assert_eq!(q.dequeue(), None);
}

#[test]
fn queue_all_skips_everything_when_nothing_is_initial() {
    let mut m = manager();
    let a = m.add_download(input("http://x/1"), info("a")).unwrap();
    m.start_download(*a.id()).unwrap();
    m.finish_download(*a.id(), None).unwrap();
    let mut q = BoundedQueue::new(1);
    // One slot is enough: nothing is Initial, so nothing is enqueued.
    m.queue_downloads(&mut q).unwrap();
    assert_eq!(q.len(), 0);
}
