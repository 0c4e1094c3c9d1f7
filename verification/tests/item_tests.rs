use audio_downloader::{DlError, DownloadInfo, DownloadInput, DownloadItem, DownloadStatus, ResolveError};

fn item(sub: &str, op: &str, title: &str, ext: &str) -> DownloadItem {
    let input = DownloadInput::new("http://x/1".to_string(), op.to_string(), sub.to_string());
    let info = DownloadInfo::new(
        "http://audio/1".to_string(),
        title.to_string(),
        ext.to_string(),
        Vec::new(),
    );
    DownloadItem::new(input, info, 0)
}

#[test]
fn filename_formats_fields() {
    let it = item("Cat", "Author", "Hello World", "mp3");
    assert_eq!(it.filename(), "[Cat] [Author] Hello World.mp3");
}

#[test]
fn filename_strips_illegal_chars() {
    let it = item("C<a>t", "Au:th\"or", "He/l\\lo?W*or|ld", "mp3");
    assert_eq!(it.filename(), "[Cat] [Author] HelloWorld.mp3");
}

#[test]
fn filename_trims_whitespace() {
    let it = item("Cat", "Author", "Padded Title", "mp3 ");
    assert_eq!(it.filename(), "[Cat] [Author] Padded Title.mp3");
}

#[test]
fn filename_collision_from_equal_fields() {
    let a = item("Cat", "Author", "Same:Title", "mp3");
    let b = item("Cat", "Author", "Same/Title", "mp3");
    assert_eq!(a.filename(), b.filename());
}

#[test]
fn getters_reflect_fields() {
    let input = DownloadInput::new("http://x/1".to_string(), "Op".to_string(), "Sub".to_string());
    assert_eq!(input.url(), "http://x/1");
    let mut headers = Vec::new();
    headers.push(("referer".to_string(), "http://x/".to_string()));
    let info = DownloadInfo::new(
        "http://audio/1".to_string(),
        "Title".to_string(),
        "m4a".to_string(),
        headers,
    );
    let it = DownloadItem::new(input, info, 7);
    assert_eq!(it.url(), "http://x/1");
    assert_eq!(it.op(), "Op");
    assert_eq!(it.sub(), "Sub");
    assert_eq!(it.audio(), "http://audio/1");
    assert_eq!(it.title(), "Title");
    assert_eq!(it.extension(), "m4a");
    assert_eq!(*it.id(), 7);
    assert_eq!(it.headers().len(), 1);
    assert_eq!(it.headers()[0].0, "referer");
    assert_eq!(it.headers()[0].1, "http://x/");
}

#[test]
fn new_item_starts_initial_without_failure() {
    let it = item("S", "O", "T", "mp3");
    assert!(it.is_initial());
    assert!(!it.is_completed());
    assert!(it.failure.is_none());
    assert_eq!(it.status, DownloadStatus::Initial);
}

#[test]
fn setters_change_status_and_failure() {
    let mut it = item("S", "O", "T", "mp3");
    it.set_status(DownloadStatus::Completed);
    assert!(it.is_completed());
    it.set_status(DownloadStatus::Failed);
    it.set_failure("boom".to_string());
    assert_eq!(it.failure.as_deref(), Some("boom"));
    it.clear_failure();
    assert!(it.failure.is_none());
}

#[test]
fn error_messages_are_nonempty() {
    let errors = [
        DlError::DuplicateId,
        DlError::DuplicateUrl,
        DlError::NotFound,
        DlError::AlreadyExists,
        DlError::ResolveFailed,
        DlError::FetchFailed,
        DlError::WriteFailed,
        DlError::TagWriteFailed,
    ];
    for e in errors {
        assert!(!e.message().is_empty());
    }
    let resolve_errors = [
        ResolveError::NoHostname,
        ResolveError::UnsupportedHost,
        ResolveError::NoAudioUrl,
        ResolveError::BadAudioEscape,
        ResolveError::NoTitle,
    ];
    for e in resolve_errors {
        assert!(!e.message().is_empty());
    }
}
