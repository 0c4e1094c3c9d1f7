//! A verified core for a concurrent audio download manager.
//!
//! The library owns the registry of download items, the URL
//! deduplication index, the bounded dispatch queue model, and the
//! per-item state machine that a worker drives from `Initial`
//! through `Downloading` to a terminal `Completed` or `Failed`.
//! Network and file I/O live outside the library; every decision
//! about shared state is made here, under contract.

mod errors;
mod index;
mod items;
pub mod laws;
mod manager;
mod queue;
mod registry;
mod resolve;
mod strutil;

pub use errors::{DlError, ResolveError};
pub use index::DedupIndex;
pub use items::{DownloadInfo, DownloadInput, DownloadItem, DownloadStatus};
pub use manager::DownloadManager;
pub use queue::{BoundedQueue, QueueError};
pub use registry::Registry;
pub use resolve::{resolve_from_page, HostKind, ResolvePlan};
