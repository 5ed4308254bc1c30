//! What a source offers, before anything enters the library. Keys are opaque
//! identifiers within one source.

use vstd::prelude::*;

use crate::clock::Timestamp;
use crate::ids::Uuid;

verus! {

/// A chapter number, held by its rank among the numbers: equal numbers have equal
/// ranks, and a greater number has a greater rank.
#[derive(Clone, Copy, Debug, PartialEq, Eq, Structural, Hash)]
pub struct ChapterNumber {
    pub rank: i64,
}

/// The listings that a source can offer for browsing.
#[derive(Clone, Copy, Debug, PartialEq, Eq, Structural)]
pub enum BrowseSort {
    Popular,
    Latest,
}

impl BrowseSort {
    /// The name of the listing in addresses.
    pub open spec fn key_text(self) -> Seq<char> {
        match self {
            BrowseSort::Popular => "popular"@,
            BrowseSort::Latest => "latest"@,
        }
    }

    /// The name of the listing for readers.
    pub open spec fn label_text(self) -> Seq<char> {
        match self {
            BrowseSort::Popular => "Popular"@,
            BrowseSort::Latest => "Latest"@,
        }
    }

    /// The name of the listing in addresses.
    pub fn key(self) -> (r: &'static str)
        ensures
            r@ == self.key_text(),
    {
        match self {
            BrowseSort::Popular => "popular",
            BrowseSort::Latest => "latest",
        }
    }

    /// The name of the listing for readers.
    pub fn label(self) -> (r: &'static str)
        ensures
            r@ == self.label_text(),
    {
        match self {
            BrowseSort::Popular => "Popular",
            BrowseSort::Latest => "Latest",
        }
    }
}

/// A source, as clients see it.
#[derive(Debug, PartialEq, Eq)]
pub struct SourceInfo {
    pub id: String,
    pub name: String,
    pub base_url: String,
    pub browse: Vec<BrowseSort>,
}

/// One title in a listing.
#[derive(Debug, PartialEq, Eq)]
pub struct MangaSummary {
    pub key: String,
    pub title: String,
    pub cover_url: Option<String>,
    /// The publication that tracks this title, where one does.
    pub in_library: Option<Uuid>,
}

impl Clone for MangaSummary {
    fn clone(&self) -> (r: Self)
        ensures
            r == *self,
    {
        MangaSummary {
            key: self.key.clone(),
            title: self.title.clone(),
            cover_url: self.cover_url.clone(),
            in_library: self.in_library,
        }
    }
}

/// One chapter in a listing.
#[derive(Debug, PartialEq, Eq)]
pub struct ChapterRef {
    pub key: String,
    pub title: String,
    pub number: Option<ChapterNumber>,
    /// The place in the listing, counted from the newest.
    pub source_order: u32,
    pub scanlator: Option<String>,
    pub published_at: Option<Timestamp>,
}

impl Clone for ChapterRef {
    fn clone(&self) -> (r: Self)
        ensures
            r == *self,
    {
        ChapterRef {
            key: self.key.clone(),
            title: self.title.clone(),
            number: self.number,
            source_order: self.source_order,
            scanlator: self.scanlator.clone(),
            published_at: self.published_at,
        }
    }
}

/// All that a source tells of one title.
#[derive(Debug, PartialEq, Eq)]
pub struct MangaDetails {
    pub summary: MangaSummary,
    pub description: Option<String>,
    pub genres: Vec<String>,
    pub chapters: Vec<ChapterRef>,
}

}
