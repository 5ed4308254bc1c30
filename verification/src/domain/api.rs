//! The envelopes of the HTTP API.

use vstd::prelude::*;

use crate::clock::Timestamp;
use crate::domain::progress::{Locator, ProgressEvent};
use crate::domain::publication::{DownloadState, Publication, ReadingUnit};
use crate::domain::source::MangaSummary;
use crate::ids::Uuid;

verus! {

/// That the server runs, and which build of it.
#[derive(Debug, PartialEq, Eq)]
pub struct HealthResponse {
    pub status: String,
    pub version: String,
    pub commit: Option<String>,
}

/// The body of every error.
#[derive(Debug, PartialEq, Eq)]
pub struct ApiErrorBody {
    pub message: String,
}

/// Track a title of a source.
#[derive(Debug, PartialEq, Eq)]
pub struct AddPublicationRequest {
    pub source_id: String,
    pub source_key: String,
    pub auto_download: bool,
}

/// Change how a publication is kept.
#[derive(Debug, PartialEq, Eq)]
pub struct UpdatePublicationRequest {
    pub auto_download: bool,
    pub category: Option<String>,
}

/// Change whether a category is updated.
#[derive(Clone, Copy, Debug, PartialEq, Eq, Structural)]
pub struct UpdateCategoryRequest {
    pub update_enabled: bool,
}

/// A publication in the library list, with the reader's place in it.
#[derive(Debug, PartialEq, Eq)]
pub struct PublicationWithLocator {
    pub publication: Publication,
    pub locator: Option<Locator>,
    pub unit_count: u32,
    pub unread_count: u32,
    pub downloaded_count: u32,
    pub latest_unit_at: Option<Timestamp>,
    pub locator_unit_title: Option<String>,
}

/// A publication with its units, and the reader's place in it.
#[derive(Debug, PartialEq, Eq)]
pub struct PublicationDetailResponse {
    pub publication: Publication,
    pub units: Vec<ReadingUnit>,
    pub locator: Option<Locator>,
}

/// Move the reader's place.
#[derive(Debug, PartialEq, Eq)]
pub struct SetLocatorRequest {
    pub unit_id: Uuid,
    pub page: u32,
    pub device: String,
}

/// The device of a request that names none.
pub fn default_device() -> (r: String)
    ensures
        r@ == "web"@,
{
    "web".to_owned()
}

/// Append to the journal.
#[derive(Debug, PartialEq, Eq)]
pub struct PushEventsRequest {
    pub events: Vec<ProgressEvent>,
}

/// How much of a push was taken.
#[derive(Clone, Copy, Debug, PartialEq, Eq, Structural)]
pub struct PushEventsResponse {
    pub accepted: u32,
    pub skipped: u32,
}

/// A slice of the journal, and where the next one starts.
#[derive(Debug, PartialEq, Eq)]
pub struct EventsResponse {
    pub events: Vec<ProgressEvent>,
    pub next_since: Option<i64>,
}

/// What one source found.
#[derive(Debug, PartialEq, Eq)]
pub struct SourceSearchResults {
    pub source_id: String,
    pub source_name: String,
    pub results: Vec<MangaSummary>,
    pub error: Option<String>,
}

/// Download these units.
#[derive(Debug, PartialEq, Eq)]
pub struct DownloadUnitsRequest {
    pub unit_ids: Vec<Uuid>,
}

/// Mark these units read, or unread.
#[derive(Debug, PartialEq, Eq)]
pub struct MarkUnitsRequest {
    pub unit_ids: Vec<Uuid>,
    pub read: bool,
}

/// How many units a request changed.
#[derive(Clone, Copy, Debug, PartialEq, Eq, Structural)]
pub struct BulkUnitsResponse {
    pub affected: u32,
}

/// How far a download has come.
#[derive(Clone, Copy, Debug, PartialEq, Eq, Structural)]
pub struct DownloadProgress {
    pub page: u32,
    pub total: u32,
}

/// One unit in the download queue.
#[derive(Debug, PartialEq, Eq)]
pub struct DownloadQueueEntry {
    pub unit_id: Uuid,
    pub publication_id: Uuid,
    pub publication_title: String,
    pub unit_title: String,
    pub state: DownloadState,
    pub progress: Option<DownloadProgress>,
}

/// The download queue, and what is on disk.
#[derive(Debug, PartialEq, Eq)]
pub struct DownloadsResponse {
    pub queue: Vec<DownloadQueueEntry>,
    pub server_downloaded_chapters: u32,
    pub server_downloaded_pages: u32,
}

/// What one check found for one publication.
#[derive(Debug, PartialEq, Eq)]
pub struct UpdateEvent {
    pub publication_id: Uuid,
    pub publication_title: String,
    pub unit_count: u32,
    pub first_title: String,
    pub last_title: String,
    pub created_at: Timestamp,
}

/// What recent checks found.
#[derive(Debug, PartialEq, Eq)]
pub struct UpdatesResponse {
    pub updates: Vec<UpdateEvent>,
}

/// The pages of a unit.
#[derive(Clone, Copy, Debug, PartialEq, Eq, Structural)]
pub struct PagesResponse {
    pub unit_id: Uuid,
    pub page_count: u32,
    pub downloaded: bool,
}

/// What a check of one publication found.
#[derive(Clone, Copy, Debug, PartialEq, Eq, Structural)]
pub struct RefreshResponse {
    pub new_units: u32,
    pub checked_at: Timestamp,
}

/// What a scan of the books directory changed.
#[derive(Clone, Copy, Debug, PartialEq, Eq, Structural)]
pub struct RescanResponse {
    pub added: u32,
    pub updated: u32,
    pub missing: u32,
}

}
