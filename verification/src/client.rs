//! The client's end of the API: which address each call goes to, and what an answer means.

use vstd::prelude::*;

use crate::domain::source::BrowseSort;
use crate::ids::{hyphenated_text, uuid_text, Uuid};
use crate::links::{base_text, base_url, join_url, url_joined, url_parsed, TEXT_LIMIT};
use crate::numerals::{decimal, decimal_text};
use crate::text::{join2, join3, text_opt};

verus! {

/// Why a call came to nothing.
#[derive(Debug, PartialEq, Eq)]
pub enum ClientError {
    /// The request did not get through.
    Transport(String),
    /// The server refused.
    Api { status: u16, message: String },
    /// The answer makes no sense.
    Decode(String),
}

impl ClientError {
    /// The error in words.
    pub open spec fn words(self) -> Seq<char> {
        match self {
            ClientError::Transport(m) => "request failed: "@ + m@,
            ClientError::Api { status, message } => "server returned "@ + decimal(status as nat) + ": "@
                + message@,
            ClientError::Decode(m) => "invalid response body: "@ + m@,
        }
    }

    /// Puts the error in words.
    pub fn shown(&self) -> (r: String)
        ensures
            r@ == self.words(),
    {
        match self {
            ClientError::Transport(m) => join2("request failed: ", m.as_str()),
            ClientError::Api { status, message } => {
                let front = join2("server returned ", decimal_text(*status as u64).as_str());
                join3(front.as_str(), ": ", message.as_str())
            },
            ClientError::Decode(m) => join2("invalid response body: ", m.as_str()),
        }
    }
}

/// Decides what an answer means: a success is one; anything else is the server's refusal,
/// with the message that its body holds, the body itself where it holds none, and a
/// stand-in where there is no body.
pub fn check_status(status: u16, body: Option<String>, message: Option<String>) -> (r: Result<(), ClientError>)
    ensures
        if 200 <= status < 300 {
            r is Ok
        } else {
            r matches Err(ClientError::Api { status: s, message: m }) && s == status && m@ == (match body {
                None => "<no body>"@,
                Some(b) => match message {
                    Some(x) => x@,
                    None => b@,
                },
            })
        },
{
    if status >= 200 && status < 300 {
        return Ok(());
    }
    let message = match body {
        None => "<no body>".to_owned(),
        Some(b) => match message {
            Some(x) => x,
            None => b,
        },
    };
    Err(ClientError::Api { status, message })
}

/// The server, by its address.
#[derive(Debug, PartialEq, Eq)]
pub struct YomuClient {
    base: String,
}

/// A call of the API.
#[derive(Debug, PartialEq, Eq)]
pub enum Call {
    Health,
    Me,
    Logout,
    Sources,
    Search { source_id: String },
    SearchAll,
    Browse { source_id: String },
    Library,
    Manga { id: Uuid },
    Refresh { id: Uuid },
    Cover { id: Uuid },
    Position { id: Uuid },
    Backup,
    Restore,
    Categories,
    Category { id: String },
    DownloadChapter { id: Uuid },
    DownloadChapters,
    RemoveDownloads,
    MarkChapters,
    ChapterPages { id: Uuid },
    Page { id: Uuid, page: u32 },
    Events,
}

impl Call {
    /// The path of a call, relative to the server's address.
    pub open spec fn path_text(self) -> Seq<char> {
        match self {
            Call::Health => "api/v1/health"@,
            Call::Me => "api/v1/auth/me"@,
            Call::Logout => "api/v1/auth/logout"@,
            Call::Sources => "api/v1/sources"@,
            Call::Search { source_id } => "api/v1/sources/"@ + source_id@ + "/search"@,
            Call::SearchAll => "api/v1/search"@,
            Call::Browse { source_id } => "api/v1/sources/"@ + source_id@ + "/browse"@,
            Call::Library => "api/v1/library"@,
            Call::Manga { id } => "api/v1/manga/"@ + hyphenated_text(id),
            Call::Refresh { id } => "api/v1/manga/"@ + hyphenated_text(id) + "/refresh"@,
            Call::Cover { id } => "api/v1/manga/"@ + hyphenated_text(id) + "/cover"@,
            Call::Position { id } => "api/v1/manga/"@ + hyphenated_text(id) + "/position"@,
            Call::Backup => "api/v1/backup"@,
            Call::Restore => "api/v1/restore"@,
            Call::Categories => "api/v1/categories"@,
            Call::Category { id } => "api/v1/categories/"@ + id@,
            Call::DownloadChapter { id } => "api/v1/chapters/"@ + hyphenated_text(id) + "/download"@,
            Call::DownloadChapters => "api/v1/chapters/download"@,
            Call::RemoveDownloads => "api/v1/chapters/remove-downloads"@,
            Call::MarkChapters => "api/v1/chapters/mark"@,
            Call::ChapterPages { id } => "api/v1/chapters/"@ + hyphenated_text(id) + "/pages"@,
            Call::Page { id, page } => "api/v1/chapters/"@ + hyphenated_text(id) + "/pages/"@ + decimal(
                page as nat,
            ),
            Call::Events => "api/v1/progress/events"@,
        }
    }

    /// Gives the path of a call, relative to the server's address.
    pub fn path(&self) -> (r: String)
        ensures
            r@ == self.path_text(),
    {
        match self {
            Call::Health => "api/v1/health".to_owned(),
            Call::Me => "api/v1/auth/me".to_owned(),
            Call::Logout => "api/v1/auth/logout".to_owned(),
            Call::Sources => "api/v1/sources".to_owned(),
            Call::Search { source_id } => join3("api/v1/sources/", source_id.as_str(), "/search"),
            Call::SearchAll => "api/v1/search".to_owned(),
            Call::Browse { source_id } => join3("api/v1/sources/", source_id.as_str(), "/browse"),
            Call::Library => "api/v1/library".to_owned(),
            Call::Manga { id } => join2("api/v1/manga/", uuid_text(*id).as_str()),
            Call::Refresh { id } => join3("api/v1/manga/", uuid_text(*id).as_str(), "/refresh"),
            Call::Cover { id } => join3("api/v1/manga/", uuid_text(*id).as_str(), "/cover"),
            Call::Position { id } => join3("api/v1/manga/", uuid_text(*id).as_str(), "/position"),
            Call::Backup => "api/v1/backup".to_owned(),
            Call::Restore => "api/v1/restore".to_owned(),
            Call::Categories => "api/v1/categories".to_owned(),
            Call::Category { id } => join2("api/v1/categories/", id.as_str()),
            Call::DownloadChapter { id } => join3(
                "api/v1/chapters/",
                uuid_text(*id).as_str(),
                "/download",
            ),
            Call::DownloadChapters => "api/v1/chapters/download".to_owned(),
            Call::RemoveDownloads => "api/v1/chapters/remove-downloads".to_owned(),
            Call::MarkChapters => "api/v1/chapters/mark".to_owned(),
            Call::ChapterPages { id } => join3("api/v1/chapters/", uuid_text(*id).as_str(), "/pages"),
            Call::Page { id, page } => {
                let front = join3("api/v1/chapters/", uuid_text(*id).as_str(), "/pages/");
                join2(front.as_str(), decimal_text(*page as u64).as_str())
            },
            Call::Events => "api/v1/progress/events".to_owned(),
        }
    }
}

impl YomuClient {
    /// The base that all calls are relative to.
    pub closed spec fn base_of(&self) -> Seq<char> {
        self.base@
    }

    /// A client of a server, where its address is one. The path of a server that does not
    /// live at the root is kept.
    pub fn new(address: &str) -> (r: Option<YomuClient>)
        requires
            address@.len() <= TEXT_LIMIT,
        ensures
            match base_text(address@, url_parsed(address@)) {
                Some(base) => r matches Some(c) && c.base_of() == base,
                None => r is None,
            },
    {
        match base_url(address) {
            Some(base) => Some(YomuClient { base }),
            None => None,
        }
    }

    /// The base that all calls are relative to.
    pub fn base(&self) -> (r: &str)
        ensures
            r@ == self.base_of(),
    {
        self.base.as_str()
    }

    /// The address of a call.
    pub fn url(&self, call: &Call) -> (r: Option<String>)
        ensures
            text_opt(r) == url_joined(self.base_of(), call.path_text()),
    {
        let path = call.path();
        join_url(self.base.as_str(), path.as_str())
    }

    /// The address of a publication's cover.
    pub fn cover_url(&self, id: Uuid) -> (r: Option<String>)
        ensures
            text_opt(r) == url_joined(
                self.base_of(),
                "api/v1/manga/"@ + hyphenated_text(id) + "/cover"@,
            ),
    {
        self.url(&Call::Cover { id })
    }

    /// The address of a page.
    pub fn page_url(&self, chapter_id: Uuid, page: u32) -> (r: Option<String>)
        ensures
            text_opt(r) == url_joined(
                self.base_of(),
                "api/v1/chapters/"@ + hyphenated_text(chapter_id) + "/pages/"@ + decimal(page as nat),
            ),
    {
        self.url(&Call::Page { id: chapter_id, page })
    }
}

/// The query of a call for a listing.
pub fn browse_query(sort: BrowseSort, page: u32) -> (r: Vec<(String, String)>)
    ensures
        crate::links::pair_texts(r@) == seq![
            ("sort"@, sort.key_text()),
            ("page"@, decimal(page as nat)),
        ],
{
    let mut out: Vec<(String, String)> = Vec::new();
    out.push(("sort".to_owned(), sort.key().to_owned()));
    out.push(("page".to_owned(), decimal_text(page as u64)));
    assert(crate::links::pair_texts(out@) =~= seq![
        ("sort"@, sort.key_text()),
        ("page"@, decimal(page as nat)),
    ]);
    out
}

}
