use vstd::prelude::*;

verus! {

/// The failure taxonomy of the manager's command surface and of a
/// worker's execution stages.
///
/// `DuplicateId` marks an identifier-invariant violation on a raw
/// registry insert; `DuplicateUrl` and `NotFound` are validation
/// errors returned to the command caller; the remaining variants
/// describe the stage at which a download's execution failed.
#[derive(Debug, Copy, Clone, PartialEq, Eq, Structural)]
pub enum DlError {
    DuplicateId,
    DuplicateUrl,
    NotFound,
    AlreadyExists,
    ResolveFailed,
    FetchFailed,
    WriteFailed,
    TagWriteFailed,
}

/// The exact wording of each error's description.
pub open spec fn spec_dl_message(e: DlError) -> Seq<char> {
    match e {
        DlError::DuplicateId => "Id already added"@,
        DlError::DuplicateUrl => "URL already added"@,
        DlError::NotFound => "Invalid id"@,
        DlError::AlreadyExists => "File already exists"@,
        DlError::ResolveFailed => "Failed to resolve source page"@,
        DlError::FetchFailed => "Failed to download"@,
        DlError::WriteFailed => "Failed to write data to file"@,
        DlError::TagWriteFailed => "Failed to write tags to file"@,
    }
}

impl DlError {
    /// A short human-readable description of the error.
    pub fn message(&self) -> (r: String)
        ensures
            r@ == spec_dl_message(*self),
            r@.len() > 0,
    {
        let m: &str = match self {
            DlError::DuplicateId => "Id already added",
            DlError::DuplicateUrl => "URL already added",
            DlError::NotFound => "Invalid id",
            DlError::AlreadyExists => "File already exists",
            DlError::ResolveFailed => "Failed to resolve source page",
            DlError::FetchFailed => "Failed to download",
            DlError::WriteFailed => "Failed to write data to file",
            DlError::TagWriteFailed => "Failed to write tags to file",
        };
        proof {
            reveal_strlit("Id already added");
            reveal_strlit("URL already added");
            reveal_strlit("Invalid id");
            reveal_strlit("File already exists");
            reveal_strlit("Failed to resolve source page");
            reveal_strlit("Failed to download");
            reveal_strlit("Failed to write data to file");
            reveal_strlit("Failed to write tags to file");
        }
        m.to_owned()
    }
}

/// Why a source URL could not be resolved into download information.
#[derive(Debug, Copy, Clone, PartialEq, Eq, Structural)]
pub enum ResolveError {
    /// The URL has no `//`-introduced authority component.
    NoHostname,
    /// The host is none of the supported source sites.
    UnsupportedHost,
    /// The fetched page contains no audio URL of the expected shape.
    NoAudioUrl,
    /// The matched audio URL is not a valid JSON-escaped string.
    BadAudioEscape,
    /// The fetched page contains no title element.
    NoTitle,
}

/// The exact wording of each resolution error's description.
pub open spec fn spec_resolve_message(e: ResolveError) -> Seq<char> {
    match e {
        ResolveError::NoHostname => "URL contains no valid hostname"@,
        ResolveError::UnsupportedHost => "URL contains invalid or unsupported host"@,
        ResolveError::NoAudioUrl => "Failed to find valid audio url"@,
        ResolveError::BadAudioEscape => "Audio url is not a valid escaped string"@,
        ResolveError::NoTitle => "Page does not contain title"@,
    }
}

impl ResolveError {
    /// A short human-readable description of the error.
    pub fn message(&self) -> (r: String)
        ensures
            r@ == spec_resolve_message(*self),
            r@.len() > 0,
    {
        let m: &str = match self {
            ResolveError::NoHostname => "URL contains no valid hostname",
            ResolveError::UnsupportedHost => "URL contains invalid or unsupported host",
            ResolveError::NoAudioUrl => "Failed to find valid audio url",
            ResolveError::BadAudioEscape => "Audio url is not a valid escaped string",
            ResolveError::NoTitle => "Page does not contain title",
        };
        proof {
            reveal_strlit("URL contains no valid hostname");
            reveal_strlit("URL contains invalid or unsupported host");
            reveal_strlit("Failed to find valid audio url");
            reveal_strlit("Audio url is not a valid escaped string");
            reveal_strlit("Page does not contain title");
        }
        m.to_owned()
    }
}

} // verus!
