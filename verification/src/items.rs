use vstd::prelude::*;

use crate::strutil::{chars_of, push_all, spec_trim, string_from_chars, trim_chars};

verus! {

/// The life cycle of a download item. An item is created `Initial`,
/// a worker moves it to `Downloading`, and it ends `Completed` or
/// `Failed`; the two terminal states are left only by an explicit
/// caller update.
#[derive(Debug, Copy, Clone, PartialEq, Eq, Structural)]
pub enum DownloadStatus {
    Initial,
    Downloading,
    Completed,
    Failed,
}

/// A caller-submitted download request: the source page URL together
/// with an author label (`op`) and a category label (`sub`). It is
/// never mutated once folded into a `DownloadItem`.
#[derive(Debug)]
pub struct DownloadInput {
    pub url: String,
    pub op: String,
    pub sub: String,
}

impl DownloadInput {
    pub fn new(url: String, op: String, sub: String) -> (r: DownloadInput)
        ensures
            r == (DownloadInput { url, op, sub }),
    {
        DownloadInput { url, op, sub }
    }

    pub fn url(&self) -> (r: &str)
        ensures
            r@ == self.url@,
    {
        self.url.as_str()
    }
}

impl Clone for DownloadInput {
    fn clone(&self) -> (r: Self)
        ensures
            r == *self,
    {
        DownloadInput {
            url: self.url.clone(),
            op: self.op.clone(),
            sub: self.sub.clone(),
        }
    }
}

/// What the source resolver derives from a source page: the fetchable
/// audio URL, the page title, the audio file extension, and the extra
/// HTTP headers a fetch of the audio URL must carry.
#[derive(Debug)]
pub struct DownloadInfo {
    pub audio: String,
    pub title: String,
    pub extension: String,
    pub headers: Vec<(String, String)>,
}

impl DownloadInfo {
    pub fn new(audio: String, title: String, extension: String, headers: Vec<(String, String)>) -> (r:
        DownloadInfo)
        ensures
            r == (DownloadInfo { audio, title, extension, headers }),
    {
        DownloadInfo { audio, title, extension, headers }
    }

    /// `self` and `other` carry the same resolved information; the
    /// header lists are compared by contents.
    pub open spec fn like(self, other: DownloadInfo) -> bool {
        &&& self.audio == other.audio
        &&& self.title == other.title
        &&& self.extension == other.extension
        &&& self.headers@ == other.headers@
    }
}

/// Clones a header list, preserving every pair.
fn clone_headers(h: &Vec<(String, String)>) -> (r: Vec<(String, String)>)
    ensures
        r@ == h@,
{
    let n = h.len();
    let mut r: Vec<(String, String)> = Vec::new();
    let mut i: usize = 0;
    while i < n
        invariant
            n == h@.len(),
            i <= n,
            r@ == h@.subrange(0, i as int),
        decreases n - i,
    {
        let name = h[i].0.clone();
        let value = h[i].1.clone();
        r.push((name, value));
        i = i + 1;
        proof {
            assert(r@ =~= h@.subrange(0, i as int));
        }
    }
    proof {
        assert(h@.subrange(0, n as int) =~= h@);
    }
    r
}

impl Clone for DownloadInfo {
    fn clone(&self) -> (r: Self)
        ensures
            r.like(*self),
    {
        DownloadInfo {
            audio: self.audio.clone(),
            title: self.title.clone(),
            extension: self.extension.clone(),
            headers: clone_headers(&self.headers),
        }
    }
}

/// A registered download: the immutable request, the resolved source
/// information, the assigned identifier, and the execution state.
#[derive(Debug)]
pub struct DownloadItem {
    pub input: DownloadInput,
    pub info: DownloadInfo,
    pub status: DownloadStatus,
    pub id: usize,
    pub failure: Option<String>,
}

impl Clone for DownloadItem {
    fn clone(&self) -> (r: Self)
        ensures
            r.like(*self),
    {
        let failure = match &self.failure {
            Some(m) => Some(m.clone()),
            None => None,
        };
        DownloadItem {
            input: self.input.clone(),
            info: self.info.clone(),
            status: self.status,
            id: self.id,
            failure,
        }
    }
}

/// A character the file system refuses in a file name.
pub open spec fn is_illegal_char(c: char) -> bool {
    ||| c == '<'
    ||| c == '>'
    ||| c == ':'
    ||| c == '"'
    ||| c == '/'
    ||| c == '\\'
    ||| c == '?'
    ||| c == '*'
    ||| c == '|'
}

/// `s` with every character illegal in a file name dropped.
pub open spec fn strip_illegal(s: Seq<char>) -> Seq<char>
    decreases s.len(),
{
    if s.len() == 0 {
        Seq::empty()
    } else {
        let rest = strip_illegal(s.drop_last());
        if is_illegal_char(s.last()) {
            rest
        } else {
            rest.push(s.last())
        }
    }
}

/// The raw target file name before sanitization:
/// `[sub] [op] title.extension`.
pub open spec fn formatted_name(sub: Seq<char>, op: Seq<char>, title: Seq<char>, ext: Seq<char>) -> Seq<
    char,
> {
    seq!['['] + sub + seq![']', ' ', '['] + op + seq![']', ' '] + title + seq!['.'] + ext
}

/// The target file name of an item: the formatted name with illegal
/// characters dropped and surrounding white space trimmed.
pub open spec fn spec_filename(item: DownloadItem) -> Seq<char> {
    spec_trim(
        strip_illegal(
            formatted_name(
                item.input.sub@,
                item.input.op@,
                item.info.title@,
                item.info.extension@,
            ),
        ),
    )
}

impl DownloadItem {
    pub fn new(input: DownloadInput, info: DownloadInfo, id: usize) -> (r: DownloadItem)
        ensures
            r == (DownloadItem {
                input,
                info,
                status: DownloadStatus::Initial,
                id,
                failure: None,
            }),
    {
        DownloadItem { input, info, status: DownloadStatus::Initial, id, failure: None }
    }

    /// `self` and `other` are the same download: every field agrees,
    /// with the header lists compared by contents.
    pub open spec fn like(self, other: DownloadItem) -> bool {
        &&& self.input == other.input
        &&& self.info.like(other.info)
        &&& self.status == other.status
        &&& self.id == other.id
        &&& self.failure == other.failure
    }

    /// The item invariant: an item is `Failed` exactly when it carries
    /// a failure message, and a carried message is never empty.
    pub open spec fn wf(self) -> bool {
        &&& (self.status == DownloadStatus::Failed <==> self.failure is Some)
        &&& (self.failure matches Some(m) ==> m@.len() > 0)
    }

    pub fn url(&self) -> (r: &str)
        ensures
            r@ == self.input.url@,
    {
        self.input.url.as_str()
    }

    pub fn op(&self) -> (r: &str)
        ensures
            r@ == self.input.op@,
    {
        self.input.op.as_str()
    }

    pub fn sub(&self) -> (r: &str)
        ensures
            r@ == self.input.sub@,
    {
        self.input.sub.as_str()
    }

    pub fn audio(&self) -> (r: &str)
        ensures
            r@ == self.info.audio@,
    {
        self.info.audio.as_str()
    }

    pub fn title(&self) -> (r: &str)
        ensures
            r@ == self.info.title@,
    {
        self.info.title.as_str()
    }

    pub fn set_status(&mut self, status: DownloadStatus)
        ensures
            *final(self) == (DownloadItem { status, ..*old(self) }),
    {
        self.status = status;
    }

    pub fn set_failure(&mut self, failure: String)
        ensures
            *final(self) == (DownloadItem { failure: Some(failure), ..*old(self) }),
    {
        self.failure = Some(failure);
    }

    pub fn clear_failure(&mut self)
        ensures
            *final(self) == (DownloadItem { failure: None, ..*old(self) }),
    {
        self.failure = None;
    }

    pub fn is_completed(&self) -> (r: bool)
        ensures
            r == (self.status == DownloadStatus::Completed),
    {
        self.status == DownloadStatus::Completed
    }

    pub fn is_initial(&self) -> (r: bool)
        ensures
            r == (self.status == DownloadStatus::Initial),
    {
        self.status == DownloadStatus::Initial
    }

    pub fn id(&self) -> (r: &usize)
        ensures
            *r == self.id,
    {
        &self.id
    }

    pub fn headers(&self) -> (r: &Vec<(String, String)>)
        ensures
            r@ == self.info.headers@,
    {
        &self.info.headers
    }

    pub fn extension(&self) -> (r: &str)
        ensures
            r@ == self.info.extension@,
    {
        self.info.extension.as_str()
    }

    /// The name of the file a worker will write for this item,
    /// with characters illegal in file names stripped.
    pub fn filename(&self) -> (r: String)
        ensures
            r@ == spec_filename(*self),
    {
        let mut b: Vec<char> = Vec::new();
        b.push('[');
        push_all(&mut b, &chars_of(self.input.sub.as_str()));
        b.push(']');
        b.push(' ');
        b.push('[');
        push_all(&mut b, &chars_of(self.input.op.as_str()));
        b.push(']');
        b.push(' ');
        push_all(&mut b, &chars_of(self.info.title.as_str()));
        b.push('.');
        push_all(&mut b, &chars_of(self.info.extension.as_str()));
        proof {
            assert(b@ =~= formatted_name(
                self.input.sub@,
                self.input.op@,
                self.info.title@,
                self.info.extension@,
            ));
        }
        let n = b.len();
        let mut kept: Vec<char> = Vec::new();
        let mut i: usize = 0;
        while i < n
            invariant
                n == b@.len(),
                i <= n,
                kept@ == strip_illegal(b@.subrange(0, i as int)),
            decreases n - i,
        {
            let c = b[i];
            let illegal = c == '<' || c == '>' || c == ':' || c == '"' || c == '/' || c == '\\'
                || c == '?' || c == '*' || c == '|';
            if !illegal {
                kept.push(c);
            }
            i = i + 1;
            proof {
                assert(b@.subrange(0, i as int).drop_last() =~= b@.subrange(0, i - 1));
                assert(b@.subrange(0, i as int).last() == c);
            }
        }
        proof {
            assert(b@.subrange(0, n as int) =~= b@);
        }
        let trimmed = trim_chars(&kept);
        string_from_chars(&trimmed)
    }
}

} // verus!
