//! Rows as they are stored, and what they are read as.

use vstd::prelude::*;

use crate::clock::{parse_rfc3339, rfc3339_parsed, Timestamp};
use crate::db::{DbError, UpdateRow};
use crate::domain::progress::ProgressEvent;
use crate::domain::publication::{Category, DownloadState, Kind, Origin, Publication, ReadingUnit};
use crate::domain::source::ChapterNumber;
use crate::domain::users::User;
use crate::ids::{hyphenated_text, parse_uuid, uuid_error, uuid_parsed, uuid_refused, uuid_text, Uuid};
use crate::links::{read_url, url_parsed};
use crate::text::{debug_text, join2, join3, quoted, same, text_opt};

verus! {

/// A stored publication, without its genres.
#[derive(Debug, PartialEq, Eq)]
pub struct PublicationRow {
    pub id: String,
    pub kind: String,
    pub source_id: Option<String>,
    pub source_key: Option<String>,
    pub file_path: Option<String>,
    pub title: String,
    pub description: Option<String>,
    pub cover_url: Option<String>,
    pub auto_download: bool,
    pub category: String,
    pub added_at: Timestamp,
    pub last_checked_at: Option<Timestamp>,
    pub missing_since: Option<Timestamp>,
}

/// A stored unit. Its number comes by its rank.
#[derive(Debug, PartialEq, Eq)]
pub struct UnitRow {
    pub id: String,
    pub publication_id: String,
    pub source_key: String,
    pub title: String,
    pub number: Option<ChapterNumber>,
    pub source_order: i64,
    pub scanlator: Option<String>,
    pub fetched_at: Timestamp,
    pub published_at: Option<Timestamp>,
    pub download_state: String,
    pub downloaded_at: Option<Timestamp>,
    pub download_error: Option<String>,
    pub page_count: Option<i64>,
}

/// A stored journal event.
#[derive(Debug, PartialEq, Eq)]
pub struct EventRow {
    pub seq: i64,
    pub id: String,
    pub publication_id: String,
    pub unit_id: String,
    pub page: i64,
    pub device: String,
    pub at: Timestamp,
}

/// A stored account, as far as readers see it.
#[derive(Debug, PartialEq, Eq)]
pub struct UserRow {
    pub id: String,
    pub username: String,
    pub display_name: String,
}

/// A stored category.
#[derive(Debug, PartialEq, Eq)]
pub struct CategoryRow {
    pub id: String,
    pub name: String,
    pub position: i64,
    pub update_enabled: bool,
}

/// What one check found, as it is stored.
#[derive(Debug, PartialEq, Eq)]
pub struct UpdateRecord {
    pub publication_id: String,
    pub unit_count: u32,
    pub first_title: String,
    pub last_title: String,
    pub created_at: String,
}

impl UpdateRecord {
    /// Reads what one check found. An identifier or a time that is none is refused, in that
    /// order, with what is wrong with it.
    pub fn read(self) -> (r: Result<UpdateRow, DbError>)
        ensures
            match uuid_parsed(self.publication_id@) {
                None => r matches Err(e) && is_corrupt(
                    e,
                    "updates.publication_id: "@ + uuid_refused(self.publication_id@),
                ),
                Some(id) => match rfc3339_parsed(self.created_at@) {
                    Err(why) => r matches Err(e) && is_corrupt(e, "updates.created_at: "@ + why),
                    Ok(t) => r == Ok::<UpdateRow, DbError>(
                        UpdateRow {
                            publication_id: id,
                            unit_count: self.unit_count,
                            first_title: self.first_title,
                            last_title: self.last_title,
                            created_at: t,
                        },
                    ),
                },
            },
    {
        let publication_id = match parse_uuid(self.publication_id.as_str()) {
            Some(id) => id,
            None => {
                let why = uuid_error(self.publication_id.as_str());
                return Err(DbError::Corrupt(join2("updates.publication_id: ", why.as_str())));
            },
        };
        match parse_rfc3339(self.created_at.as_str()) {
            Err(why) => Err(DbError::Corrupt(join2("updates.created_at: ", why.as_str()))),
            Ok(created_at) => Ok(
                UpdateRow {
                    publication_id,
                    unit_count: self.unit_count,
                    first_title: self.first_title,
                    last_title: self.last_title,
                    created_at,
                },
            ),
        }
    }
}

impl DbError {
    /// The refusal in words.
    pub open spec fn words(self) -> Seq<char> {
        match self {
            DbError::NotFound => "not found"@,
            DbError::Constraint(m) => m@,
            DbError::Corrupt(m) => "invalid stored data: "@ + m@,
            DbError::Sqlx(m) => m@,
        }
    }

    /// Puts the refusal in words.
    pub fn shown(&self) -> (r: String)
        ensures
            r@ == self.words(),
    {
        match self {
            DbError::NotFound => "not found".to_owned(),
            DbError::Constraint(m) => m.clone(),
            DbError::Corrupt(m) => join2("invalid stored data: ", m.as_str()),
            DbError::Sqlx(m) => m.clone(),
        }
    }
}

/// A stored number in the thirty-two bits it is held in.
pub open spec fn low_bits(n: i64) -> u32 {
    n as u32
}

/// A stored row cannot be read, for this reason.
pub open spec fn is_corrupt(e: DbError, why: Seq<char>) -> bool {
    e matches DbError::Corrupt(m) && m@ == why
}

/// What an identifier that is none is answered.
pub open spec fn bad_uuid_text(text: Seq<char>) -> Seq<char> {
    "invalid uuid "@ + debug_text(text)
}

/// Reads a stored identifier.
fn stored_uuid(text: &str) -> (r: Result<Uuid, DbError>)
    ensures
        match uuid_parsed(text@) {
            Some(id) => r == Ok::<Uuid, DbError>(id),
            None => r matches Err(e) && is_corrupt(e, bad_uuid_text(text@)),
        },
{
    match parse_uuid(text) {
        Some(id) => Ok(id),
        None => Err(DbError::Corrupt(join2("invalid uuid ", quoted(text).as_str()))),
    }
}

// ---- publications ----

/// The kind that a text names.
pub open spec fn kind_named(text: Seq<char>) -> Option<Kind> {
    if text == "comics"@ {
        Some(Kind::Comics)
    } else if text == "novels"@ {
        Some(Kind::Novels)
    } else if text == "pdf"@ {
        Some(Kind::Pdf)
    } else {
        None
    }
}

/// The name of a kind.
pub open spec fn kind_text(kind: Kind) -> Seq<char> {
    match kind {
        Kind::Comics => "comics"@,
        Kind::Novels => "novels"@,
        Kind::Pdf => "pdf"@,
    }
}

/// The origin that a row has: a source and its key, or a file, and never both.
pub open spec fn origin_in(row: PublicationRow) -> Option<Origin> {
    match (row.source_id, row.source_key, row.file_path) {
        (Some(source_id), Some(source_key), None) => Some(Origin::Source { source_id, source_key }),
        (None, None, Some(path)) => Some(Origin::LocalFile { path }),
        _ => None,
    }
}

/// Why a stored publication cannot be read.
pub open spec fn publication_fault(row: PublicationRow) -> Option<Seq<char>> {
    if kind_named(row.kind@) is None {
        Some("kind "@ + debug_text(row.kind@))
    } else if origin_in(row) is None {
        Some("publication "@ + row.id@ + " origin"@)
    } else if uuid_parsed(row.id@) is None {
        Some(bad_uuid_text(row.id@))
    } else {
        match row.cover_url {
            Some(c) => if url_parsed(c@) is None {
                Some("invalid url "@ + debug_text(c@))
            } else {
                None
            },
            None => None,
        }
    }
}

/// What a stored publication is read as. Its genres are stored elsewhere.
pub open spec fn publication_read(p: Publication, row: PublicationRow) -> bool {
    &&& Some(p.id) == uuid_parsed(row.id@)
    &&& Some(p.kind) == kind_named(row.kind@)
    &&& Some(p.origin) == origin_in(row)
    &&& p.title == row.title
    &&& p.description == row.description
    &&& text_opt(p.cover_url) == (match row.cover_url {
        Some(c) => Some(url_parsed(c@)->0.text),
        None => None,
    })
    &&& p.auto_download == row.auto_download
    &&& p.category == row.category
    &&& p.genres@.len() == 0
    &&& p.added_at == row.added_at
    &&& p.last_checked_at == row.last_checked_at
    &&& p.missing_since == row.missing_since
}

impl PublicationRow {
    /// Reads a stored publication.
    pub fn read(self) -> (r: Result<Publication, DbError>)
        ensures
            match publication_fault(self) {
                None => r matches Ok(p) && publication_read(p, self),
                Some(why) => r matches Err(e) && is_corrupt(e, why),
            },
    {
        let kind = if same(self.kind.as_str(), "comics") {
            Kind::Comics
        } else if same(self.kind.as_str(), "novels") {
            Kind::Novels
        } else if same(self.kind.as_str(), "pdf") {
            Kind::Pdf
        } else {
            return Err(DbError::Corrupt(join2("kind ", quoted(self.kind.as_str()).as_str())));
        };
        let origin = match (self.source_id, self.source_key, self.file_path) {
            (Some(source_id), Some(source_key), None) => Origin::Source { source_id, source_key },
            (None, None, Some(path)) => Origin::LocalFile { path },
            _ => {
                return Err(DbError::Corrupt(join3("publication ", self.id.as_str(), " origin")));
            },
        };
        let id = match stored_uuid(self.id.as_str()) {
            Ok(id) => id,
            Err(e) => {
                return Err(e);
            },
        };
        let cover_url = match &self.cover_url {
            None => None,
            Some(c) => match read_url(c.as_str()) {
                Some(u) => Some(u.text),
                None => {
                    return Err(
                        DbError::Corrupt(join2("invalid url ", quoted(c.as_str()).as_str())),
                    );
                },
            },
        };
        Ok(
            Publication {
                id,
                kind,
                origin,
                title: self.title,
                description: self.description,
                cover_url,
                auto_download: self.auto_download,
                category: self.category,
                genres: Vec::new(),
                added_at: self.added_at,
                last_checked_at: self.last_checked_at,
                missing_since: self.missing_since,
            },
        )
    }

    /// The row that a publication is stored as. Read again, it is the publication, but for
    /// its genres and a cover's address, which is read in its normal form.
    pub fn of(p: &Publication) -> (r: PublicationRow)
        ensures
            r.id@ == hyphenated_text(p.id),
            r.kind@ == kind_text(p.kind),
            origin_in(r) == Some(p.origin),
            r.title == p.title,
            r.description == p.description,
            r.cover_url == p.cover_url,
            r.auto_download == p.auto_download,
            r.category == p.category,
            r.added_at == p.added_at,
            r.last_checked_at == p.last_checked_at,
            r.missing_since == p.missing_since,
    {
        let (source_id, source_key, file_path) = match &p.origin {
            Origin::Source { source_id, source_key } => (
                Some(source_id.clone()),
                Some(source_key.clone()),
                None,
            ),
            Origin::LocalFile { path } => (None, None, Some(path.clone())),
        };
        PublicationRow {
            id: uuid_text(p.id),
            kind: match p.kind {
                Kind::Comics => "comics".to_owned(),
                Kind::Novels => "novels".to_owned(),
                Kind::Pdf => "pdf".to_owned(),
            },
            source_id,
            source_key,
            file_path,
            title: p.title.clone(),
            description: p.description.clone(),
            cover_url: p.cover_url.clone(),
            auto_download: p.auto_download,
            category: p.category.clone(),
            added_at: p.added_at,
            last_checked_at: p.last_checked_at,
            missing_since: p.missing_since,
        }
    }
}

/// Every kind is read from its name.
pub proof fn law_kinds_read_back(kind: Kind)
    ensures
        kind_named(kind_text(kind)) == Some(kind),
{
    reveal_strlit("comics");
    reveal_strlit("novels");
    reveal_strlit("pdf");
    assert("comics"@[0] == 'c' && "novels"@[0] == 'n' && "pdf"@[0] == 'p');
}

// ---- units ----

/// The state of a download that a row has, or why it has none.
pub open spec fn state_in(row: UnitRow) -> Result<DownloadState, Seq<char>> {
    let s = row.download_state@;
    if s == "none"@ {
        Ok(DownloadState::Absent)
    } else if s == "pending"@ {
        Ok(DownloadState::Pending)
    } else if s == "downloading"@ {
        Ok(DownloadState::Downloading)
    } else if s == "downloaded"@ {
        match row.downloaded_at {
            Some(at) => Ok(DownloadState::Downloaded { at }),
            None => Err("downloaded without timestamp"@),
        }
    } else if s == "failed"@ {
        match row.downloaded_at {
            Some(at) => Ok(DownloadState::Failed { at, reason: row.download_error->0 }),
            None => Err("failed without timestamp"@),
        }
    } else if s == "unavailable"@ {
        match row.downloaded_at {
            Some(at) => Ok(DownloadState::Unavailable { at, reason: row.download_error->0 }),
            None => Err("unavailable without timestamp"@),
        }
    } else {
        Err("download_state "@ + debug_text(s))
    }
}

/// A state that is read from a row is the one it has; a reason that is missing is empty.
pub open spec fn state_is(d: DownloadState, row: UnitRow) -> bool {
    match state_in(row) {
        Ok(DownloadState::Failed { at, reason }) => d matches DownloadState::Failed { at: a, reason: m }
            && a == at && (if row.download_error is Some {
            m == reason
        } else {
            m@.len() == 0
        }),
        Ok(DownloadState::Unavailable { at, reason }) => d matches DownloadState::Unavailable {
            at: a,
            reason: m,
        } && a == at && (if row.download_error is Some {
            m == reason
        } else {
            m@.len() == 0
        }),
        Ok(other) => d == other,
        Err(_) => false,
    }
}

/// Why a stored unit cannot be read.
pub open spec fn unit_fault(row: UnitRow) -> Option<Seq<char>> {
    match state_in(row) {
        Err(why) => Some(why),
        Ok(_) => if uuid_parsed(row.id@) is None {
            Some(bad_uuid_text(row.id@))
        } else if uuid_parsed(row.publication_id@) is None {
            Some(bad_uuid_text(row.publication_id@))
        } else {
            None
        },
    }
}

/// What a stored unit is read as. Whether it is read is each reader's own matter.
pub open spec fn unit_read(u: ReadingUnit, row: UnitRow) -> bool {
    &&& Some(u.id) == uuid_parsed(row.id@)
    &&& Some(u.publication_id) == uuid_parsed(row.publication_id@)
    &&& u.source_key == row.source_key
    &&& u.title == row.title
    &&& u.number == row.number
    &&& u.source_order == low_bits(row.source_order)
    &&& u.scanlator == row.scanlator
    &&& u.fetched_at == row.fetched_at
    &&& u.published_at == row.published_at
    &&& state_is(u.download, row)
    &&& u.page_count == (match row.page_count {
        Some(n) => Some(low_bits(n)),
        None => None,
    })
    &&& !u.read
}

impl UnitRow {
    /// Reads a stored unit.
    pub fn read(self) -> (r: Result<ReadingUnit, DbError>)
        ensures
            match unit_fault(self) {
                None => r matches Ok(u) && unit_read(u, self),
                Some(why) => r matches Err(e) && is_corrupt(e, why),
            },
    {
        let ghost row = self;
        let reason = match &self.download_error {
            Some(m) => m.clone(),
            None => String::new(),
        };
        let state = self.download_state.as_str();
        let download = if same(state, "none") {
            DownloadState::Absent
        } else if same(state, "pending") {
            DownloadState::Pending
        } else if same(state, "downloading") {
            DownloadState::Downloading
        } else if same(state, "downloaded") {
            match self.downloaded_at {
                Some(at) => DownloadState::Downloaded { at },
                None => {
                    return Err(DbError::Corrupt("downloaded without timestamp".to_owned()));
                },
            }
        } else if same(state, "failed") {
            match self.downloaded_at {
                Some(at) => DownloadState::Failed { at, reason },
                None => {
                    return Err(DbError::Corrupt("failed without timestamp".to_owned()));
                },
            }
        } else if same(state, "unavailable") {
            match self.downloaded_at {
                Some(at) => DownloadState::Unavailable { at, reason },
                None => {
                    return Err(DbError::Corrupt("unavailable without timestamp".to_owned()));
                },
            }
        } else {
            return Err(DbError::Corrupt(join2("download_state ", quoted(state).as_str())));
        };
        assert(state_is(download, row));
        let id = match stored_uuid(self.id.as_str()) {
            Ok(id) => id,
            Err(e) => {
                return Err(e);
            },
        };
        let publication_id = match stored_uuid(self.publication_id.as_str()) {
            Ok(id) => id,
            Err(e) => {
                return Err(e);
            },
        };
        Ok(
            ReadingUnit {
                id,
                publication_id,
                source_key: self.source_key,
                title: self.title,
                number: self.number,
                source_order: self.source_order as u32,
                scanlator: self.scanlator,
                fetched_at: self.fetched_at,
                published_at: self.published_at,
                download,
                page_count: match self.page_count {
                    Some(n) => Some(n as u32),
                    None => None,
                },
                read: false,
            },
        )
    }

    /// The row that a unit is stored as.
    pub fn of(u: &ReadingUnit) -> (r: UnitRow)
        ensures
            unit_stored(r, *u),
    {
        proof {
            reveal_strlit("none");
            reveal_strlit("pending");
            reveal_strlit("downloading");
            reveal_strlit("downloaded");
            reveal_strlit("failed");
            reveal_strlit("unavailable");
            assert("none"@.len() == 4 && "pending"@.len() == 7 && "downloading"@.len() == 11);
            assert("downloaded"@.len() == 10 && "failed"@.len() == 6 && "unavailable"@.len() == 11);
            assert("downloading"@[0] == 'd' && "unavailable"@[0] == 'u');
        }
        let (state, downloaded_at, download_error) = match &u.download {
            DownloadState::Absent => ("none", None, None),
            DownloadState::Pending => ("pending", None, None),
            DownloadState::Downloading => ("downloading", None, None),
            DownloadState::Downloaded { at } => ("downloaded", Some(*at), None),
            DownloadState::Failed { at, reason } => ("failed", Some(*at), Some(reason.clone())),
            DownloadState::Unavailable { at, reason } => (
                "unavailable",
                Some(*at),
                Some(reason.clone()),
            ),
        };
        UnitRow {
            id: uuid_text(u.id),
            publication_id: uuid_text(u.publication_id),
            source_key: u.source_key.clone(),
            title: u.title.clone(),
            number: u.number,
            source_order: u.source_order as i64,
            scanlator: u.scanlator.clone(),
            fetched_at: u.fetched_at,
            published_at: u.published_at,
            download_state: state.to_owned(),
            downloaded_at,
            download_error,
            page_count: match u.page_count {
                Some(n) => Some(n as i64),
                None => None,
            },
        }
    }
}

/// What is stored of a unit.
pub open spec fn unit_stored(row: UnitRow, u: ReadingUnit) -> bool {
    &&& row.id@ == hyphenated_text(u.id)
    &&& row.publication_id@ == hyphenated_text(u.publication_id)
    &&& row.source_key == u.source_key
    &&& row.title == u.title
    &&& row.number == u.number
    &&& row.source_order == u.source_order
    &&& row.scanlator == u.scanlator
    &&& row.fetched_at == u.fetched_at
    &&& row.published_at == u.published_at
    &&& state_is(u.download, row)
    &&& u.download is Failed || u.download is Unavailable ==> row.download_error is Some
    &&& row.page_count == (match u.page_count {
        Some(n) => Some(n as i64),
        None => None,
    })
}

/// A unit that was stored reads back as it was, but for whether it is read, which is
/// stored elsewhere: given that identifiers are read from their own notation.
pub proof fn law_stored_units_read_back(u: ReadingUnit, row: UnitRow, back: ReadingUnit)
    requires
        unit_stored(row, u),
        uuid_parsed(hyphenated_text(u.id)) == Some(u.id),
        uuid_parsed(hyphenated_text(u.publication_id)) == Some(u.publication_id),
    ensures
        unit_fault(row) is None,
        unit_read(back, row) ==> back == (ReadingUnit { read: false, ..u }),
{
    lemma_low_bits(u.source_order);
    if u.page_count is Some {
        lemma_low_bits(u.page_count->0);
    }
}

proof fn lemma_low_bits(n: u32)
    ensures
        low_bits(n as i64) == n,
{
    assert((n as i64) as u32 == n) by (bit_vector);
}

// ---- events, readers, categories ----

impl EventRow {
    /// Reads a stored journal event.
    pub fn read(self) -> (r: Result<ProgressEvent, DbError>)
        ensures
            if uuid_parsed(self.id@) is None {
                r matches Err(e) && is_corrupt(e, bad_uuid_text(self.id@))
            } else if uuid_parsed(self.publication_id@) is None {
                r matches Err(e) && is_corrupt(e, bad_uuid_text(self.publication_id@))
            } else if uuid_parsed(self.unit_id@) is None {
                r matches Err(e) && is_corrupt(e, bad_uuid_text(self.unit_id@))
            } else {
                r == Ok::<ProgressEvent, DbError>(
                    ProgressEvent {
                        id: uuid_parsed(self.id@)->0,
                        publication_id: uuid_parsed(self.publication_id@)->0,
                        unit_id: uuid_parsed(self.unit_id@)->0,
                        page: low_bits(self.page),
                        device: self.device,
                        at: self.at,
                    },
                )
            },
    {
        let id = match stored_uuid(self.id.as_str()) {
            Ok(id) => id,
            Err(e) => {
                return Err(e);
            },
        };
        let publication_id = match stored_uuid(self.publication_id.as_str()) {
            Ok(id) => id,
            Err(e) => {
                return Err(e);
            },
        };
        let unit_id = match stored_uuid(self.unit_id.as_str()) {
            Ok(id) => id,
            Err(e) => {
                return Err(e);
            },
        };
        Ok(
            ProgressEvent {
                id,
                publication_id,
                unit_id,
                page: self.page as u32,
                device: self.device,
                at: self.at,
            },
        )
    }
}

impl UserRow {
    /// Reads a stored reader.
    pub fn read(self) -> (r: Result<User, DbError>)
        ensures
            match uuid_parsed(self.id@) {
                Some(id) => r == Ok::<User, DbError>(
                    User { id, username: self.username, display_name: self.display_name },
                ),
                None => r matches Err(e) && is_corrupt(e, bad_uuid_text(self.id@)),
            },
    {
        let id = match stored_uuid(self.id.as_str()) {
            Ok(id) => id,
            Err(e) => {
                return Err(e);
            },
        };
        Ok(User { id, username: self.username, display_name: self.display_name })
    }
}

impl CategoryRow {
    /// Reads a stored category.
    pub fn read(self) -> (r: Category)
        ensures
            r == (Category {
                id: self.id,
                name: self.name,
                position: low_bits(self.position),
                update_enabled: self.update_enabled,
            }),
    {
        Category {
            id: self.id,
            name: self.name,
            position: self.position as u32,
            update_enabled: self.update_enabled,
        }
    }
}

}
