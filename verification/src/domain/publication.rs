//! The shelf: publications the readers track, scraped series and local files
//! alike, and their reading units.

use vstd::prelude::*;

use crate::clock::Timestamp;
use crate::domain::source::ChapterNumber;
use crate::ids::Uuid;
use crate::text::same;

verus! {

/// What a publication is made of.
#[derive(Clone, Copy, Debug, PartialEq, Eq, Structural)]
pub enum Kind {
    Comics,
    Novels,
    Pdf,
}

impl Default for Kind {
    fn default() -> (r: Self)
        ensures
            r == Kind::Comics,
    {
        Kind::Comics
    }
}

/// Where a publication comes from.
#[derive(Debug, PartialEq, Eq)]
pub enum Origin {
    /// A title of a source.
    Source { source_id: String, source_key: String },
    /// A file or a folder in the books directory.
    LocalFile { path: String },
}

impl Clone for Origin {
    fn clone(&self) -> (r: Self)
        ensures
            r == *self,
    {
        match self {
            Origin::Source { source_id, source_key } => Origin::Source {
                source_id: source_id.clone(),
                source_key: source_key.clone(),
            },
            Origin::LocalFile { path } => Origin::LocalFile { path: path.clone() },
        }
    }
}

/// A tracked publication.
#[derive(Debug, PartialEq, Eq)]
pub struct Publication {
    pub id: Uuid,
    pub kind: Kind,
    pub origin: Origin,
    pub title: String,
    pub description: Option<String>,
    pub cover_url: Option<String>,
    pub auto_download: bool,
    pub category: String,
    pub genres: Vec<String>,
    pub added_at: Timestamp,
    pub last_checked_at: Option<Timestamp>,
    /// Since when the local file has been gone.
    pub missing_since: Option<Timestamp>,
}

/// A publication's content.
#[verifier::ext_equal]
pub struct PublicationView {
    pub id: Uuid,
    pub kind: Kind,
    pub origin: Origin,
    pub title: String,
    pub description: Option<String>,
    pub cover_url: Option<String>,
    pub auto_download: bool,
    pub category: String,
    pub genres: Seq<String>,
    pub added_at: Timestamp,
    pub last_checked_at: Option<Timestamp>,
    pub missing_since: Option<Timestamp>,
}

impl View for Publication {
    type V = PublicationView;

    open spec fn view(&self) -> PublicationView {
        PublicationView {
            id: self.id,
            kind: self.kind,
            origin: self.origin,
            title: self.title,
            description: self.description,
            cover_url: self.cover_url,
            auto_download: self.auto_download,
            category: self.category,
            genres: self.genres@,
            added_at: self.added_at,
            last_checked_at: self.last_checked_at,
            missing_since: self.missing_since,
        }
    }
}

impl Clone for Publication {
    fn clone(&self) -> (r: Self)
        ensures
            r@ == self@,
    {
        Publication {
            id: self.id,
            kind: self.kind,
            origin: self.origin.clone(),
            title: self.title.clone(),
            description: self.description.clone(),
            cover_url: self.cover_url.clone(),
            auto_download: self.auto_download,
            category: self.category.clone(),
            genres: self.genres.clone(),
            added_at: self.added_at,
            last_checked_at: self.last_checked_at,
            missing_since: self.missing_since,
        }
    }
}

/// A publication as it travels: older clients know the origin as two flat fields,
/// with `local` for the source of a file.
#[derive(Debug, PartialEq, Eq)]
pub struct PublicationWire {
    pub id: Uuid,
    pub kind: Kind,
    pub source_id: String,
    pub source_key: String,
    pub file_path: Option<String>,
    pub title: String,
    pub description: Option<String>,
    pub cover_url: Option<String>,
    pub auto_download: bool,
    pub category: String,
    pub genres: Vec<String>,
    pub added_at: Timestamp,
    pub last_checked_at: Option<Timestamp>,
    pub missing_since: Option<Timestamp>,
}

/// The three flat fields stand for this origin.
pub open spec fn wire_origin(
    source_id: String,
    source_key: String,
    file_path: Option<String>,
) -> Origin {
    match file_path {
        Some(path) => Origin::LocalFile { path },
        None => if source_id@ == "local"@ {
            Origin::LocalFile { path: source_key }
        } else {
            Origin::Source { source_id, source_key }
        },
    }
}

impl PublicationWire {
    /// The publication that travels in this form.
    pub open spec fn meaning(self) -> PublicationView {
        PublicationView {
            id: self.id,
            kind: self.kind,
            origin: wire_origin(self.source_id, self.source_key, self.file_path),
            title: self.title,
            description: self.description,
            cover_url: self.cover_url,
            auto_download: self.auto_download,
            category: self.category,
            genres: self.genres@,
            added_at: self.added_at,
            last_checked_at: self.last_checked_at,
            missing_since: self.missing_since,
        }
    }

    /// Everything but the origin is carried as it is; a source keeps its two
    /// names, and a file travels as the source `local` with its path twice.
    pub open spec fn carries(self, p: PublicationView) -> bool {
        &&& self.id == p.id
        &&& self.kind == p.kind
        &&& match p.origin {
            Origin::Source { source_id, source_key } => {
                &&& self.source_id == source_id
                &&& self.source_key == source_key
                &&& self.file_path is None
            },
            Origin::LocalFile { path } => {
                &&& self.source_id@ == "local"@
                &&& self.source_key == path
                &&& self.file_path == Some(path)
            },
        }
        &&& self.title == p.title
        &&& self.description == p.description
        &&& self.cover_url == p.cover_url
        &&& self.auto_download == p.auto_download
        &&& self.category == p.category
        &&& self.genres@ == p.genres
        &&& self.added_at == p.added_at
        &&& self.last_checked_at == p.last_checked_at
        &&& self.missing_since == p.missing_since
    }

    /// Puts a publication into its travelling form.
    pub fn from_publication(p: Publication) -> (r: PublicationWire)
        ensures
            r.carries(p@),
    {
        let Publication {
            id,
            kind,
            origin,
            title,
            description,
            cover_url,
            auto_download,
            category,
            genres,
            added_at,
            last_checked_at,
            missing_since,
        } = p;
        let (source_id, source_key, file_path) = match origin {
            Origin::Source { source_id, source_key } => (source_id, source_key, None),
            Origin::LocalFile { path } => ("local".to_owned(), path.clone(), Some(path)),
        };
        PublicationWire {
            id,
            kind,
            source_id,
            source_key,
            file_path,
            title,
            description,
            cover_url,
            auto_download,
            category,
            genres,
            added_at,
            last_checked_at,
            missing_since,
        }
    }

    /// Reads a publication out of its travelling form: a path makes it a file, and
    /// so does the source `local`, whose key is then the path.
    pub fn into_publication(self) -> (r: Publication)
        ensures
            r@ == self.meaning(),
    {
        let PublicationWire {
            id,
            kind,
            source_id,
            source_key,
            file_path,
            title,
            description,
            cover_url,
            auto_download,
            category,
            genres,
            added_at,
            last_checked_at,
            missing_since,
        } = self;
        let origin = match file_path {
            Some(path) => Origin::LocalFile { path },
            None => if same(source_id.as_str(), "local") {
                Origin::LocalFile { path: source_key }
            } else {
                Origin::Source { source_id, source_key }
            },
        };
        Publication {
            id,
            kind,
            origin,
            title,
            description,
            cover_url,
            auto_download,
            category,
            genres,
            added_at,
            last_checked_at,
            missing_since,
        }
    }
}

/// A publication comes back from its travelling form as it went in. A scraped
/// title of a source called `local` does not: it comes back as a file.
pub proof fn law_wire_round_trip(p: PublicationView, w: PublicationWire)
    requires
        w.carries(p),
        p.origin matches Origin::Source { source_id, .. } ==> source_id@ != "local"@,
    ensures
        w.meaning() == p,
{
}

/// The category of a publication that names none.
pub fn default_category() -> (r: String)
    ensures
        r@ == "reading"@,
{
    "reading".to_owned()
}

/// A shelf section; publications in one that is not updated are left alone by the
/// periodic check.
#[derive(Debug, PartialEq, Eq)]
pub struct Category {
    pub id: String,
    pub name: String,
    pub position: u32,
    pub update_enabled: bool,
}

impl Clone for Category {
    fn clone(&self) -> (r: Self)
        ensures
            r == *self,
    {
        Category {
            id: self.id.clone(),
            name: self.name.clone(),
            position: self.position,
            update_enabled: self.update_enabled,
        }
    }
}

/// Where a unit stands on its way to the server's disk.
#[derive(Debug, PartialEq, Eq)]
pub enum DownloadState {
    /// Not on disk, and not asked for.
    Absent,
    Pending,
    Downloading,
    Downloaded { at: Timestamp },
    /// Something broke; another attempt may work.
    Failed { at: Timestamp, reason: String },
    /// The source does not offer the unit; another attempt changes nothing until
    /// it does.
    Unavailable { at: Timestamp, reason: String },
}

impl Clone for DownloadState {
    fn clone(&self) -> (r: Self)
        ensures
            r == *self,
    {
        match self {
            DownloadState::Absent => DownloadState::Absent,
            DownloadState::Pending => DownloadState::Pending,
            DownloadState::Downloading => DownloadState::Downloading,
            DownloadState::Downloaded { at } => DownloadState::Downloaded { at: *at },
            DownloadState::Failed { at, reason } => DownloadState::Failed {
                at: *at,
                reason: reason.clone(),
            },
            DownloadState::Unavailable { at, reason } => DownloadState::Unavailable {
                at: *at,
                reason: reason.clone(),
            },
        }
    }
}

/// A chapter of a publication, or a whole file.
#[derive(Debug, PartialEq, Eq)]
pub struct ReadingUnit {
    pub id: Uuid,
    pub publication_id: Uuid,
    pub source_key: String,
    pub title: String,
    pub number: Option<ChapterNumber>,
    pub source_order: u32,
    pub scanlator: Option<String>,
    pub fetched_at: Timestamp,
    pub published_at: Option<Timestamp>,
    pub download: DownloadState,
    pub page_count: Option<u32>,
    /// Whether the asking reader has read it; filled in for each answer.
    pub read: bool,
}

impl Clone for ReadingUnit {
    fn clone(&self) -> (r: Self)
        ensures
            r == *self,
    {
        ReadingUnit {
            id: self.id,
            publication_id: self.publication_id,
            source_key: self.source_key.clone(),
            title: self.title.clone(),
            number: self.number,
            source_order: self.source_order,
            scanlator: self.scanlator.clone(),
            fetched_at: self.fetched_at,
            published_at: self.published_at,
            download: self.download.clone(),
            page_count: self.page_count,
            read: self.read,
        }
    }
}

}
