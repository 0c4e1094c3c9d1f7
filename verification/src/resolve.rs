use vstd::prelude::*;
use vstd::string::StringExecFns;

use crate::errors::ResolveError;
use crate::items::{DownloadInfo, DownloadInput};
use crate::strutil::{chars_of, contains_seq, contains_sub, spec_trim, string_from_chars, trim_chars};

verus! {

/// The first position at or after `i` where `stop` holds, or the end
/// of `s`.
pub open spec fn scan_until(s: Seq<char>, i: int, stop: spec_fn(char) -> bool) -> int
    decreases s.len() - i,
{
    if i >= s.len() {
        s.len() as int
    } else if stop(s[i]) {
        i
    } else {
        scan_until(s, i + 1, stop)
    }
}

/// `scan_until` lands between `i` and the end, passes no stop
/// character, and stops on one when it stops short of the end.
pub proof fn lemma_scan_until(s: Seq<char>, i: int, stop: spec_fn(char) -> bool)
    requires
        0 <= i <= s.len(),
    ensures
        i <= scan_until(s, i, stop) <= s.len(),
        forall|k: int| i <= k < scan_until(s, i, stop) ==> !stop(s[k]),
        scan_until(s, i, stop) < s.len() ==> stop(s[scan_until(s, i, stop)]),
    decreases s.len() - i,
{
    if i < s.len() && !stop(s[i]) {
        lemma_scan_until(s, i + 1, stop);
    }
}

/// A character that ends a URL scheme run: the scheme is the maximal
/// run free of these, and must be followed by a colon.
pub open spec fn is_scheme_stop(c: char) -> bool {
    c == ':' || c == '/' || c == '?' || c == '#'
}

/// A character that ends the authority component of a URL.
pub open spec fn is_auth_stop(c: char) -> bool {
    c == '/' || c == '?' || c == '#'
}

/// A character that ends the path component of a URL.
pub open spec fn is_path_stop(c: char) -> bool {
    c == '?' || c == '#'
}

/// Where the scheme prefix (scheme name and colon) of `u` ends: right
/// after the colon when `u` starts with a nonempty run of scheme
/// characters followed by one, and at the start otherwise.
pub open spec fn spec_scheme_end(u: Seq<char>) -> int {
    let k = scan_until(u, 0, |c: char| is_scheme_stop(c));
    if 1 <= k && k < u.len() && u[k] == ':' {
        k + 1
    } else {
        0
    }
}

/// Whether `u` carries a `//`-introduced authority component after
/// its optional scheme.
pub open spec fn spec_has_authority(u: Seq<char>) -> bool {
    let p = spec_scheme_end(u);
    p + 2 <= u.len() && u[p] == '/' && u[p + 1] == '/'
}

/// The hostname of `u`: the authority run after `//`; meaningful only
/// when `spec_has_authority(u)` holds.
pub open spec fn spec_host(u: Seq<char>) -> Seq<char> {
    let p = spec_scheme_end(u);
    let h = scan_until(u, p + 2, |c: char| is_auth_stop(c));
    u.subrange(p + 2, h)
}

/// The path of `u`: everything between the authority and the query or
/// fragment; meaningful only when `spec_has_authority(u)` holds.
pub open spec fn spec_path(u: Seq<char>) -> Seq<char> {
    let p = spec_scheme_end(u);
    let h = scan_until(u, p + 2, |c: char| is_auth_stop(c));
    u.subrange(h, scan_until(u, h, |c: char| is_path_stop(c)))
}

/// The first position at or after `from` holding a scheme stop.
fn scan_scheme(v: &Vec<char>, from: usize) -> (r: usize)
    requires
        from <= v@.len(),
    ensures
        r == scan_until(v@, from as int, |c: char| is_scheme_stop(c)),
        from <= r <= v@.len(),
{
    let n = v.len();
    let mut i = from;
    loop
        invariant
            from <= i <= n,
            n == v@.len(),
            scan_until(v@, from as int, |c: char| is_scheme_stop(c)) == scan_until(
                v@,
                i as int,
                |c: char| is_scheme_stop(c),
            ),
        decreases n - i,
    {
        if i == n {
            return i;
        }
        let c = v[i];
        if c == ':' || c == '/' || c == '?' || c == '#' {
            return i;
        }
        i = i + 1;
    }
}

/// The first position at or after `from` holding an authority stop.
fn scan_auth(v: &Vec<char>, from: usize) -> (r: usize)
    requires
        from <= v@.len(),
    ensures
        r == scan_until(v@, from as int, |c: char| is_auth_stop(c)),
        from <= r <= v@.len(),
{
    let n = v.len();
    let mut i = from;
    loop
        invariant
            from <= i <= n,
            n == v@.len(),
            scan_until(v@, from as int, |c: char| is_auth_stop(c)) == scan_until(
                v@,
                i as int,
                |c: char| is_auth_stop(c),
            ),
        decreases n - i,
    {
        if i == n {
            return i;
        }
        let c = v[i];
        if c == '/' || c == '?' || c == '#' {
            return i;
        }
        i = i + 1;
    }
}

/// The first position at or after `from` holding a path stop.
fn scan_path(v: &Vec<char>, from: usize) -> (r: usize)
    requires
        from <= v@.len(),
    ensures
        r == scan_until(v@, from as int, |c: char| is_path_stop(c)),
        from <= r <= v@.len(),
{
    let n = v.len();
    let mut i = from;
    loop
        invariant
            from <= i <= n,
            n == v@.len(),
            scan_until(v@, from as int, |c: char| is_path_stop(c)) == scan_until(
                v@,
                i as int,
                |c: char| is_path_stop(c),
            ),
        decreases n - i,
    {
        if i == n {
            return i;
        }
        let c = v[i];
        if c == '?' || c == '#' {
            return i;
        }
        i = i + 1;
    }
}

/// Copies `v[a..b]`.
pub fn copy_range(v: &Vec<char>, a: usize, b: usize) -> (r: Vec<char>)
    requires
        a <= b <= v@.len(),
    ensures
        r@ == v@.subrange(a as int, b as int),
{
    let mut r: Vec<char> = Vec::new();
    let mut i = a;
    while i < b
        invariant
            a <= i <= b <= v@.len(),
            r@ == v@.subrange(a as int, i as int),
        decreases b - i,
    {
        r.push(v[i]);
        i = i + 1;
        proof {
            assert(r@ =~= v@.subrange(a as int, i as int));
        }
    }
    r
}

/// Splits a URL into hostname and path, the way the admission logic
/// reads it: an optional `scheme:`, then a mandatory `//` introducing
/// the hostname, which runs to the next `/`, `?` or `#`; the path
/// runs from there to the next `?` or `#`. A URL without `//` has no
/// hostname.
pub fn split_url(url: &String) -> (r: Option<(Vec<char>, Vec<char>)>)
    ensures
        match r {
            Some(hp) => spec_has_authority(url@) && hp.0@ == spec_host(url@) && hp.1@ == spec_path(
                url@,
            ),
            None => !spec_has_authority(url@),
        },
{
    let v = chars_of(url.as_str());
    let n = v.len();
    let k = scan_scheme(&v, 0);
    let p: usize = if 1 <= k && k < n && v[k] == ':' {
        k + 1
    } else {
        0
    };
    proof {
        assert(p as int == spec_scheme_end(url@));
    }
    if n < 2 || p > n - 2 {
        proof {
            assert(spec_scheme_end(url@) + 2 > url@.len());
        }
        return None;
    }
    if !(v[p] == '/' && v[p + 1] == '/') {
        return None;
    }
    proof {
        lemma_scan_until(v@, p + 2, |c: char| is_auth_stop(c));
    }
    let h = scan_auth(&v, p + 2);
    let host = copy_range(&v, p + 2, h);
    proof {
        lemma_scan_until(v@, h as int, |c: char| is_path_stop(c));
    }
    let e = scan_path(&v, h);
    let path = copy_range(&v, h, e);
    Some((host, path))
}

/// The source sites the resolver understands.
#[derive(Debug, Copy, Clone, PartialEq, Eq, Structural)]
pub enum HostKind {
    Soundgasm,
    Whyp,
    Vocaroo,
}

/// Which source site a hostname belongs to, by substring, first match
/// winning.
pub open spec fn spec_classify(host: Seq<char>) -> Option<HostKind> {
    if contains_seq(host, "soundgasm.net"@) {
        Some(HostKind::Soundgasm)
    } else if contains_seq(host, "whyp.it"@) {
        Some(HostKind::Whyp)
    } else if contains_seq(host, "vocaroo.com"@) {
        Some(HostKind::Vocaroo)
    } else {
        None
    }
}

/// Classifies a hostname, or reports it unsupported.
pub fn classify_host(host: &Vec<char>) -> (r: Option<HostKind>)
    ensures
        r == spec_classify(host@),
{
    if contains_sub(host, &chars_of("soundgasm.net")) {
        Some(HostKind::Soundgasm)
    } else if contains_sub(host, &chars_of("whyp.it")) {
        Some(HostKind::Whyp)
    } else if contains_sub(host, &chars_of("vocaroo.com")) {
        Some(HostKind::Vocaroo)
    } else {
        None
    }
}

/// A character an embedded audio URL may contain: anything but line
/// or page breaks, tabs and double quotes.
pub open spec fn is_audio_char(c: char) -> bool {
    c != '\r' && c != '\n' && c != '\t' && c != '\u{c}' && c != '\u{b}' && c != '"'
}

/// An audio URL of the expected shape starts at `i` in `h`: the
/// site's literal prefix, followed by at least one audio character.
pub open spec fn audio_match_at(h: Seq<char>, pre: Seq<char>, i: int) -> bool {
    &&& crate::strutil::is_match_at(h, pre, i)
    &&& i + pre.len() < h.len()
    &&& is_audio_char(h[i + pre.len()])
}

/// Where the maximal run of audio characters starting at `from` ends.
pub open spec fn audio_scan(h: Seq<char>, from: int) -> int {
    scan_until(h, from, |c: char| !is_audio_char(c))
}

/// Whether `c` may stand in an embedded audio URL.
fn is_audio_char_exec(c: char) -> (r: bool)
    ensures
        r == is_audio_char(c),
{
    c != '\r' && c != '\n' && c != '\t' && c != '\u{c}' && c != '\u{b}' && c != '"'
}

/// The end of the maximal audio-character run starting at `from`.
fn scan_audio(v: &Vec<char>, from: usize) -> (r: usize)
    requires
        from <= v@.len(),
    ensures
        r == audio_scan(v@, from as int),
        from <= r <= v@.len(),
{
    let n = v.len();
    let mut i = from;
    loop
        invariant
            from <= i <= n,
            n == v@.len(),
            audio_scan(v@, from as int) == scan_until(v@, i as int, |c: char| !is_audio_char(c)),
        decreases n - i,
    {
        if i == n {
            return i;
        }
        if !is_audio_char_exec(v[i]) {
            return i;
        }
        i = i + 1;
    }
}

/// The leftmost audio URL of the expected shape embedded in `html`:
/// the prefix together with the maximal run of audio characters that
/// follows it.
pub fn find_audio(html: &Vec<char>, prefix: &Vec<char>) -> (r: Option<Vec<char>>)
    ensures
        match r {
            Some(m) => exists|i: int|
                {
                    &&& #[trigger] audio_match_at(html@, prefix@, i)
                    &&& (forall|j: int| 0 <= j < i ==> !audio_match_at(html@, prefix@, j))
                    &&& m@ == html@.subrange(i, audio_scan(html@, i + prefix@.len() as int))
                },
            None => forall|j: int| !audio_match_at(html@, prefix@, j),
        },
{
    let n = html.len();
    let pn = prefix.len();
    if pn >= n {
        proof {
            assert forall|j: int| !audio_match_at(html@, prefix@, j) by {
                if audio_match_at(html@, prefix@, j) {
                    assert(j >= 0 && j + pn < n);
                }
            }
        }
        return None;
    }
    let last = n - pn - 1;
    let mut i: usize = 0;
    loop
        invariant
            pn == prefix@.len(),
            n == html@.len(),
            pn < n,
            last == n - pn - 1,
            i <= last + 1,
            forall|j: int| 0 <= j < i ==> !audio_match_at(html@, prefix@, j),
        decreases last + 1 - i,
    {
        if i > last {
            proof {
                assert forall|j: int| !audio_match_at(html@, prefix@, j) by {
                    if audio_match_at(html@, prefix@, j) {
                        assert(0 <= j && j + pn < n);
                    }
                }
            }
            return None;
        }
        if crate::strutil::match_at(html, prefix, i) && is_audio_char_exec(html[i + pn]) {
            proof {
                lemma_scan_until(html@, i + pn, |c: char| !is_audio_char(c));
            }
            let end = scan_audio(html, i + pn);
            proof {
                assert(audio_scan(html@, i + pn) > i + pn) by {
                    assert(is_audio_char(html@[i + pn]));
                }
            }
            let m = copy_range(html, i, end);
            proof {
                assert(audio_match_at(html@, prefix@, i as int));
                assert(m@ == html@.subrange(
                    i as int,
                    audio_scan(html@, i as int + prefix@.len() as int),
                ));
            }
            return Some(m);
        }
        i = i + 1;
    }
}

/// The characters after the last dot of `s`; all of `s` when it has
/// no dot, and empty when it ends in one.
pub open spec fn after_last_dot(s: Seq<char>) -> Seq<char>
    decreases s.len(),
{
    if s.len() == 0 {
        s
    } else if s.last() == '.' {
        Seq::empty()
    } else {
        after_last_dot(s.drop_last()).push(s.last())
    }
}

/// With no dot anywhere, everything is after the last dot.
proof fn lemma_after_last_dot_none(s: Seq<char>)
    requires
        forall|k: int| 0 <= k < s.len() ==> s[k] != '.',
    ensures
        after_last_dot(s) == s,
    decreases s.len(),
{
    if s.len() == 0 {
        assert(after_last_dot(s) =~= s);
    } else {
        assert(forall|k: int| 0 <= k < s.drop_last().len() ==> s.drop_last()[k] != '.');
        lemma_after_last_dot_none(s.drop_last());
        assert(after_last_dot(s) =~= s);
    }
}

/// With the last dot at `d`, what follows `d` is after the last dot.
proof fn lemma_after_last_dot_at(s: Seq<char>, d: int)
    requires
        0 <= d < s.len(),
        s[d] == '.',
        forall|k: int| d < k < s.len() ==> s[k] != '.',
    ensures
        after_last_dot(s) == s.subrange(d + 1, s.len() as int),
    decreases s.len(),
{
    if d == s.len() - 1 {
        assert(after_last_dot(s) =~= s.subrange(d + 1, s.len() as int));
    } else {
        let dl = s.drop_last();
        assert(forall|k: int| d < k < dl.len() ==> dl[k] != '.');
        lemma_after_last_dot_at(dl, d);
        assert(after_last_dot(s) =~= s.subrange(d + 1, s.len() as int));
    }
}

/// The file extension implied by an audio URL: what follows its last
/// dot, or the whole URL when it has none.
pub fn extension_of(audio: &String) -> (r: String)
    ensures
        r@ == after_last_dot(audio@),
{
    let v = chars_of(audio.as_str());
    let n = v.len();
    let mut j = n;
    while j > 0 && v[j - 1] != '.'
        invariant
            j <= n,
            n == v@.len(),
            forall|k: int| j <= k < n ==> v@[k] != '.',
        decreases j,
    {
        j = j - 1;
    }
    proof {
        if j == 0 {
            lemma_after_last_dot_none(v@);
            assert(v@.subrange(0, n as int) =~= v@);
        } else {
            lemma_after_last_dot_at(v@, j - 1);
        }
    }
    let tail = copy_range(&v, j, n);
    crate::strutil::string_from_chars(&tail)
}

/// Where the first `]` or line break at or after `i` stands.
pub open spec fn close_scan(s: Seq<char>, i: int) -> int {
    scan_until(s, i, |c: char| c == ']' || c == '\n')
}

/// Where a bracketed segment starting at `p` ends: `s[p]` is `[`,
/// at least one following character is neither line break nor the
/// closing `]`, and the close is the nearest `]` with no line break
/// before it.
pub open spec fn bracket_end_at(s: Seq<char>, p: int) -> Option<int> {
    if p + 1 < s.len() && s[p] == '[' && s[p + 1] != '\n' {
        let j = close_scan(s, p + 2);
        if p + 2 <= j && j < s.len() && s[j] == ']' {
            Some(j)
        } else {
            None
        }
    } else {
        None
    }
}

/// `s` from position `p` on, with every bracketed segment removed,
/// leftmost first.
pub open spec fn strip_brackets_from(s: Seq<char>, p: int) -> Seq<char>
    decreases s.len() - p,
{
    if p < 0 || p >= s.len() {
        Seq::empty()
    } else if bracket_end_at(s, p) is Some {
        strip_brackets_from(s, bracket_end_at(s, p)->0 + 1)
    } else {
        seq![s[p]] + strip_brackets_from(s, p + 1)
    }
}

/// `s` with every bracketed segment removed, the way the resolver
/// cleans a page title.
pub open spec fn strip_brackets(s: Seq<char>) -> Seq<char> {
    strip_brackets_from(s, 0)
}

/// The end of the first `]`-or-line-break run, as an index.
fn scan_close(v: &Vec<char>, from: usize) -> (r: usize)
    requires
        from <= v@.len(),
    ensures
        r == close_scan(v@, from as int),
        from <= r <= v@.len(),
{
    let n = v.len();
    let mut i = from;
    loop
        invariant
            from <= i <= n,
            n == v@.len(),
            close_scan(v@, from as int) == scan_until(
                v@,
                i as int,
                |c: char| c == ']' || c == '\n',
            ),
        decreases n - i,
    {
        if i == n {
            return i;
        }
        let c = v[i];
        if c == ']' || c == '\n' {
            return i;
        }
        i = i + 1;
    }
}

/// Removes every bracketed segment from `v`, leftmost first.
pub fn strip_brackets_chars(v: &Vec<char>) -> (out: Vec<char>)
    ensures
        out@ == strip_brackets(v@),
{
    let n = v.len();
    let mut out: Vec<char> = Vec::new();
    let mut p: usize = 0;
    while p < n
        invariant
            p <= n,
            n == v@.len(),
            strip_brackets(v@) == out@ + strip_brackets_from(v@, p as int),
        decreases n - p,
    {
        let mut skipped = false;
        if v[p] == '[' && p + 1 < n && v[p + 1] != '\n' {
            let j = scan_close(v, p + 2);
            if j < n && v[j] == ']' {
                proof {
                    lemma_scan_until(v@, p + 2, |c: char| c == ']' || c == '\n');
                    assert(bracket_end_at(v@, p as int) == Some(j as int));
                    assert(strip_brackets_from(v@, p as int) == strip_brackets_from(
                        v@,
                        j + 1,
                    ));
                }
                p = j + 1;
                skipped = true;
            }
        }
        if !skipped {
            proof {
                assert(bracket_end_at(v@, p as int) is None);
                assert(strip_brackets_from(v@, p as int) == seq![v@[p as int]]
                    + strip_brackets_from(v@, p + 1));
                assert(out@ + seq![v@[p as int]] + strip_brackets_from(v@, p + 1) =~= out@
                    + strip_brackets_from(v@, p as int));
            }
            out.push(v[p]);
            p = p + 1;
        }
    }
    proof {
        assert(strip_brackets_from(v@, n as int) =~= Seq::<char>::empty());
        assert(out@ =~= strip_brackets(v@));
    }
    out
}

/// What the resolver matched on, named by its result: the matched
/// text wrapped in double quotes and read as a JSON string literal.
pub uninterp spec fn json_string_of(s: Seq<char>) -> Option<Seq<char>>;

/// Relies on `serde_json::from_str::<String>`: the argument, wrapped
/// in double quotes, parsed as a JSON string literal; the outcome is
/// a function of the characters alone.
#[verifier::external_body]
fn json_unquote(s: &String) -> (r: Option<String>)
    ensures
        r is Some <==> json_string_of(s@) is Some,
        r matches Some(t) ==> json_string_of(s@) == Some(t@),
{
    serde_json::from_str::<String>(&format!("\"{}\"", s)).ok()
}

/// The concatenated text of the first element of the parsed document
/// that matches the selector, named by its result.
pub uninterp spec fn html_first_text_of(selector: Seq<char>, html: Seq<char>) -> Option<Seq<char>>;

/// Relies on scraper — `Selector::parse`, `Html::parse_document`,
/// `Html::select` and `ElementRef::text` — for one query: the text of
/// the first element matching the selector, a function of the two
/// strings alone. `None` covers an unparsable selector as well as a
/// page without a match.
#[verifier::external_body]
fn html_first_text(selector: &str, html: &String) -> (r: Option<String>)
    ensures
        r is Some <==> html_first_text_of(selector@, html@) is Some,
        r matches Some(t) ==> html_first_text_of(selector@, html@) == Some(t@),
{
    let sel = match scraper::Selector::parse(selector) {
        Ok(sel) => sel,
        Err(_) => return None,
    };
    let doc = scraper::Html::parse_document(html);
    match doc.select(&sel).next() {
        Some(el) => Some(el.text().collect()),
        None => None,
    }
}

/// The literal prefix an embedded audio URL of this site starts with.
pub open spec fn audio_prefix_of(host: HostKind) -> Seq<char> {
    if host == HostKind::Soundgasm {
        "https://media.soundgasm.net/sounds/"@
    } else {
        "https:\\u002F\\u002Fcdn.whyp.it\\u002F"@
    }
}

/// The CSS selector under which this site keeps its page title.
pub open spec fn title_selector_of(host: HostKind) -> Seq<char> {
    if host == HostKind::Soundgasm {
        "div.jp-title"@
    } else {
        "h1"@
    }
}

/// How a request is to be resolved: immediately, or by fetching the
/// source page first.
#[derive(Debug)]
pub enum ResolvePlan {
    /// The URL alone determines the download information.
    Ready(DownloadInfo),
    /// The page behind the URL must be fetched; its text then goes to
    /// `resolve_from_page` for this site.
    FetchPage(HostKind),
}

impl DownloadInput {
    /// Decides from the URL alone how this request resolves: a
    /// Vocaroo URL resolves immediately, the other supported sites
    /// need their page fetched, and anything else is refused.
    pub fn resolve_plan(&self) -> (r: Result<ResolvePlan, ResolveError>)
        ensures
            match r {
                Ok(plan) => spec_has_authority(self.url@) && (match plan {
                    ResolvePlan::FetchPage(h) => spec_classify(spec_host(self.url@)) == Some(h)
                        && (h == HostKind::Soundgasm || h == HostKind::Whyp),
                    ResolvePlan::Ready(info) => {
                        &&& spec_classify(spec_host(self.url@)) == Some(HostKind::Vocaroo)
                        &&& info.audio@ == "https://media1.vocaroo.com/mp3"@ + spec_path(self.url@)
                        &&& info.title@ == "Vocaroo "@ + spec_path(self.url@)
                        &&& info.extension@ == "mp3"@
                        &&& info.headers@.len() == 1
                        &&& info.headers@[0].0@ == "referer"@
                        &&& info.headers@[0].1@ == "https://vocaroo.com/"@
                    },
                }),
                Err(e) => {
                    ||| (e == ResolveError::NoHostname && !spec_has_authority(self.url@))
                    ||| (e == ResolveError::UnsupportedHost && spec_has_authority(self.url@)
                        && spec_classify(spec_host(self.url@)) is None)
                },
            },
    {
        let hp = match split_url(&self.url) {
            Some(hp) => hp,
            None => {
                return Err(ResolveError::NoHostname);
            },
        };
        let host = hp.0;
        let path = hp.1;
        match classify_host(&host) {
            None => Err(ResolveError::UnsupportedHost),
            Some(HostKind::Vocaroo) => {
                let path_s = string_from_chars(&path);
                let audio = "https://media1.vocaroo.com/mp3".to_owned().concat(path_s.as_str());
                let title = "Vocaroo ".to_owned().concat(path_s.as_str());
                let mut headers: Vec<(String, String)> = Vec::new();
                headers.push(("referer".to_owned(), "https://vocaroo.com/".to_owned()));
                Ok(ResolvePlan::Ready(DownloadInfo::new(audio, title, "mp3".to_owned(), headers)))
            },
            Some(h) => Ok(ResolvePlan::FetchPage(h)),
        }
    }
}

/// Derives the download information of a fetched source page: the
/// leftmost embedded audio URL of the site's shape, JSON-unescaped;
/// the extension after the audio URL's last dot; and the page title,
/// bracketed segments removed and white space trimmed. Whyp downloads
/// carry a referer header.
pub fn resolve_from_page(host: HostKind, html: &String) -> (r: Result<DownloadInfo, ResolveError>)
    requires
        host == HostKind::Soundgasm || host == HostKind::Whyp,
    ensures
        match r {
            Ok(info) => ({
                let pre = audio_prefix_of(host);
                let sel = title_selector_of(host);
                &&& exists|i: int|
                    {
                        &&& #[trigger] audio_match_at(html@, pre, i)
                        &&& (forall|j: int| 0 <= j < i ==> !audio_match_at(html@, pre, j))
                        &&& json_string_of(
                            html@.subrange(i, audio_scan(html@, i + pre.len() as int)),
                        ) == Some(info.audio@)
                    }
                &&& info.extension@ == after_last_dot(info.audio@)
                &&& html_first_text_of(sel, html@) is Some
                &&& info.title@ == spec_trim(strip_brackets(html_first_text_of(sel, html@)->0))
                &&& (host == HostKind::Soundgasm ==> info.headers@.len() == 0)
                &&& (host == HostKind::Whyp ==> info.headers@.len() == 1 && info.headers@[0].0@
                    == "referer"@ && info.headers@[0].1@ == "https://whyp.it/"@)
            }),
            Err(e) => ({
                let pre = audio_prefix_of(host);
                let sel = title_selector_of(host);
                ||| (e == ResolveError::NoAudioUrl && (forall|j: int|
                    !audio_match_at(html@, pre, j)))
                ||| (e == ResolveError::BadAudioEscape && exists|i: int|
                    #[trigger] audio_match_at(html@, pre, i) && json_string_of(
                        html@.subrange(i, audio_scan(html@, i + pre.len() as int)),
                    ) is None)
                ||| (e == ResolveError::NoTitle && html_first_text_of(sel, html@) is None)
            }),
        },
{
    let hv = chars_of(html.as_str());
    let prefix = match host {
        HostKind::Soundgasm => chars_of("https://media.soundgasm.net/sounds/"),
        _ => chars_of("https:\\u002F\\u002Fcdn.whyp.it\\u002F"),
    };
    proof {
        assert(prefix@ == audio_prefix_of(host));
    }
    let m = match find_audio(&hv, &prefix) {
        Some(m) => m,
        None => {
            return Err(ResolveError::NoAudioUrl);
        },
    };
    let ghost gi = choose|i: int|
        {
            &&& #[trigger] audio_match_at(hv@, prefix@, i)
            &&& (forall|j: int| 0 <= j < i ==> !audio_match_at(hv@, prefix@, j))
            &&& m@ == hv@.subrange(i, audio_scan(hv@, i + prefix@.len() as int))
        };
    let ms = string_from_chars(&m);
    let audio = match json_unquote(&ms) {
        Some(a) => a,
        None => {
            proof {
                assert(audio_match_at(html@, audio_prefix_of(host), gi));
            }
            return Err(ResolveError::BadAudioEscape);
        },
    };
    let ext = extension_of(&audio);
    let sel: &str = match host {
        HostKind::Soundgasm => "div.jp-title",
        _ => "h1",
    };
    proof {
        assert(sel@ == title_selector_of(host));
    }
    let raw_title = match html_first_text(sel, html) {
        Some(t) => t,
        None => {
            return Err(ResolveError::NoTitle);
        },
    };
    let tv = chars_of(raw_title.as_str());
    let stripped = strip_brackets_chars(&tv);
    let trimmed = trim_chars(&stripped);
    let title = string_from_chars(&trimmed);
    let mut headers: Vec<(String, String)> = Vec::new();
    match host {
        HostKind::Whyp => {
            headers.push(("referer".to_owned(), "https://whyp.it/".to_owned()));
        },
        _ => {},
    }
    let info = DownloadInfo::new(audio, title, ext, headers);
    proof {
        assert(audio_match_at(html@, audio_prefix_of(host), gi));
    }
    Ok(info)
}

} // verus!

