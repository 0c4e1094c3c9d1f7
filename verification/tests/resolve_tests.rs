use audio_downloader::{resolve_from_page, DownloadInput, HostKind, ResolveError, ResolvePlan};

fn input(url: &str) -> DownloadInput {
    DownloadInput::new(url.to_string(), "Author".to_string(), "Cat".to_string())
}

#[test]
fn vocaroo_resolves_from_url_alone() {
    let plan = input("https://vocaroo.com/1abcd").resolve_plan().unwrap();
    match plan {
        ResolvePlan::Ready(info) => {
            assert_eq!(info.audio, "https://media1.vocaroo.com/mp3/1abcd");
            assert_eq!(info.title, "Vocaroo /1abcd");
            assert_eq!(info.extension, "mp3");
            assert_eq!(info.headers.len(), 1);
            assert_eq!(info.headers[0].0, "referer");
            assert_eq!(info.headers[0].1, "https://vocaroo.com/");
        },
        ResolvePlan::FetchPage(_) => panic!("vocaroo needs no page fetch"),
    }
}

#[test]
fn soundgasm_and_whyp_need_their_page() {
    match input("https://soundgasm.net/u/someone/title").resolve_plan().unwrap() {
        ResolvePlan::FetchPage(h) => assert_eq!(h, HostKind::Soundgasm),
        ResolvePlan::Ready(_) => panic!("soundgasm needs a page fetch"),
    }
    match input("https://whyp.it/tracks/1/xyz").resolve_plan().unwrap() {
        ResolvePlan::FetchPage(h) => assert_eq!(h, HostKind::Whyp),
        ResolvePlan::Ready(_) => panic!("whyp needs a page fetch"),
    }
}

#[test]
fn hostname_with_port_is_still_classified() {
    match input("http://www.soundgasm.net:8080/u/a/b").resolve_plan().unwrap() {
        ResolvePlan::FetchPage(h) => assert_eq!(h, HostKind::Soundgasm),
        ResolvePlan::Ready(_) => panic!("soundgasm needs a page fetch"),
    }
}

#[test]
fn unsupported_host_is_refused() {
    let err = input("https://example.com/x").resolve_plan().unwrap_err();
    assert_eq!(err, ResolveError::UnsupportedHost);
}

#[test]
fn url_without_authority_has_no_hostname() {
    assert_eq!(input("mailto:someone").resolve_plan().unwrap_err(), ResolveError::NoHostname);
    assert_eq!(
        input("soundgasm.net/u/a/b").resolve_plan().unwrap_err(),
        ResolveError::NoHostname
    );
}

#[test]
fn soundgasm_page_yields_audio_extension_and_clean_title() {
    let html = "<html><head><script>var a = \"https://media.soundgasm.net/sounds/abc123.m4a\";</script></head><body><div class=\"jp-title\"> [F4M] My Good Title </div></body></html>"
    .to_string();
    let info = resolve_from_page(HostKind::Soundgasm, &html).unwrap();
    assert_eq!(info.audio, "https://media.soundgasm.net/sounds/abc123.m4a");
    assert_eq!(info.extension, "m4a");
    assert_eq!(info.title, "My Good Title");
    assert_eq!(info.headers.len(), 0);
}

#[test]
fn whyp_page_unescapes_audio_url_and_sets_referer() {
    let html = "<html><head><script>var a = \"https:\\u002F\\u002Fcdn.whyp.it\\u002Ftracks\\u002F123\\u002Fxyz.mp3\";</script></head><body><h1>Whyp Song</h1></body></html>"
    .to_string();
    let info = resolve_from_page(HostKind::Whyp, &html).unwrap();
    // The JSON escapes decode to slashes: the wrapper must really
    // unescape, not hand the match back.
    assert_eq!(info.audio, "https://cdn.whyp.it/tracks/123/xyz.mp3");
    assert_eq!(info.extension, "mp3");
    assert_eq!(info.title, "Whyp Song");
    assert_eq!(info.headers.len(), 1);
    assert_eq!(info.headers[0].0, "referer");
    assert_eq!(info.headers[0].1, "https://whyp.it/");
}

#[test]
fn page_without_audio_url_is_refused() {
    let html = "<html><body><div class=\"jp-title\">T</div></body></html>".to_string();
    assert_eq!(
        resolve_from_page(HostKind::Soundgasm, &html).unwrap_err(),
        ResolveError::NoAudioUrl
    );
}

#[test]
fn invalid_escape_in_audio_url_is_refused() {
    let html = "<html><body><script>var a = \"https:\\u002F\\u002Fcdn.whyp.it\\u002Fbad\\qthing\";</script><h1>T</h1></body></html>"
    .to_string();
    assert_eq!(
        resolve_from_page(HostKind::Whyp, &html).unwrap_err(),
        ResolveError::BadAudioEscape
    );
}

#[test]
fn page_without_title_is_refused() {
    let html = "<html><body><script>var a = \"https://media.soundgasm.net/sounds/abc123.m4a\";</script></body></html>"
    .to_string();
    assert_eq!(resolve_from_page(HostKind::Soundgasm, &html).unwrap_err(), ResolveError::NoTitle);
}

#[test]
fn title_keeps_inner_text_of_nested_markup() {
    let html = "<html><body><script>var a = \"https://media.soundgasm.net/sounds/x.mp3\";</script><div class=\"jp-title\">A <b>bold</b> title</div></body></html>"
    .to_string();
    let info = resolve_from_page(HostKind::Soundgasm, &html).unwrap();
    assert_eq!(info.title, "A bold title");
}
