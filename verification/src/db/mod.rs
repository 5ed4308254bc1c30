//! The store: the tables behind the server, and every change that is made to them.

use vstd::prelude::*;

use crate::clock::Timestamp;
use crate::domain::progress::ProgressEvent;
use crate::domain::publication::{Category, Origin, Publication, PublicationView, ReadingUnit};
use crate::ids::{Uuid, SHARED_USER};
use crate::tables::any;

pub mod aliases;
pub mod backup;
pub mod backup_laws;
pub mod catalog;
pub mod categories;
pub mod download_laws;
pub mod downloads;
pub mod feed_laws;
pub mod journal_laws;
pub mod listing;
pub mod opening;
pub mod overview;
pub mod plain;
pub mod progress;
pub mod publications;
pub mod read_marks;
pub mod reader_laws;
pub mod rollup_laws;
pub mod row_laws;
pub mod rows;
pub mod sessions;
pub mod shelf_laws;
pub mod starting;
pub mod unit_laws;
pub mod units;
pub mod updates;
pub mod users;

verus! {

/// Why the store refused.
#[derive(Debug, PartialEq, Eq)]
pub enum DbError {
    /// There is no such row.
    NotFound,
    /// A rule of the library stands against it.
    Constraint(String),
    /// A stored row cannot be read.
    Corrupt(String),
    /// The tables' own constraints stand against it.
    Sqlx(String),
}

/// That a reader has read a unit.
#[derive(Clone, Copy, Debug, PartialEq, Eq, Structural)]
pub struct ReadMark {
    pub user_id: Uuid,
    pub unit_id: Uuid,
    pub at: Timestamp,
}

/// A journal event of a reader, with the number under which it arrived.
#[derive(Debug, PartialEq, Eq)]
pub struct JournalEntry {
    pub seq: i64,
    pub user_id: Uuid,
    pub event: ProgressEvent,
}

impl Clone for JournalEntry {
    fn clone(&self) -> (r: Self)
        ensures
            r == *self,
    {
        JournalEntry { seq: self.seq, user_id: self.user_id, event: self.event.clone() }
    }
}

/// An account. The shared one has no subject.
#[derive(Debug, PartialEq, Eq)]
pub struct Account {
    pub id: Uuid,
    pub subject: Option<String>,
    pub username: String,
    pub display_name: String,
    pub created_at: Timestamp,
}

impl Clone for Account {
    fn clone(&self) -> (r: Self)
        ensures
            r == *self,
    {
        Account {
            id: self.id,
            subject: self.subject.clone(),
            username: self.username.clone(),
            display_name: self.display_name.clone(),
            created_at: self.created_at,
        }
    }
}

/// A subject of the identity provider, and the account it belongs to.
#[derive(Debug, PartialEq, Eq)]
pub struct Identity {
    pub subject: String,
    pub user_id: Uuid,
    pub created_at: Timestamp,
}

impl Clone for Identity {
    fn clone(&self) -> (r: Self)
        ensures
            r == *self,
    {
        Identity { subject: self.subject.clone(), user_id: self.user_id, created_at: self.created_at }
    }
}

/// A signed-in session, known by the hash of its token.
#[derive(Debug, PartialEq, Eq)]
pub struct Session {
    pub token_hash: String,
    pub user_id: Uuid,
    pub created_at: Timestamp,
    pub expires_at: Timestamp,
}

impl Clone for Session {
    fn clone(&self) -> (r: Self)
        ensures
            r == *self,
    {
        Session {
            token_hash: self.token_hash.clone(),
            user_id: self.user_id,
            created_at: self.created_at,
            expires_at: self.expires_at,
        }
    }
}

/// Who took over the shared account's history, and when.
#[derive(Clone, Copy, Debug, PartialEq, Eq, Structural)]
pub struct Claim {
    pub user_id: Uuid,
    pub claimed_at: Timestamp,
}

/// What one check found, in the order of checks.
#[derive(Debug, PartialEq, Eq)]
pub struct UpdateRow {
    pub publication_id: Uuid,
    pub unit_count: u32,
    pub first_title: String,
    pub last_title: String,
    pub created_at: Timestamp,
}

impl Clone for UpdateRow {
    fn clone(&self) -> (r: Self)
        ensures
            r == *self,
    {
        UpdateRow {
            publication_id: self.publication_id,
            unit_count: self.unit_count,
            first_title: self.first_title.clone(),
            last_title: self.last_title.clone(),
            created_at: self.created_at,
        }
    }
}

/// A title seen in a source's listings.
#[derive(Debug, PartialEq, Eq)]
pub struct CatalogEntry {
    pub source_id: String,
    pub key: String,
    pub title: String,
    pub cover_url: Option<String>,
    pub last_seen_at: Timestamp,
}

impl Clone for CatalogEntry {
    fn clone(&self) -> (r: Self)
        ensures
            r == *self,
    {
        CatalogEntry {
            source_id: self.source_id.clone(),
            key: self.key.clone(),
            title: self.title.clone(),
            cover_url: self.cover_url.clone(),
            last_seen_at: self.last_seen_at,
        }
    }
}

/// A page of a source's listing: the keys on it, in order.
#[derive(Debug, PartialEq, Eq)]
pub struct CatalogPage {
    pub source_id: String,
    pub sort: String,
    pub page: u32,
    pub keys: Vec<String>,
    pub fetched_at: Timestamp,
}

/// A catalog page's content.
#[verifier::ext_equal]
pub struct CatalogPageView {
    pub source_id: Seq<char>,
    pub sort: Seq<char>,
    pub page: u32,
    pub keys: Seq<String>,
    pub fetched_at: Timestamp,
}

impl View for CatalogPage {
    type V = CatalogPageView;

    open spec fn view(&self) -> CatalogPageView {
        CatalogPageView {
            source_id: self.source_id@,
            sort: self.sort@,
            page: self.page,
            keys: self.keys@,
            fetched_at: self.fetched_at,
        }
    }
}

/// What a sync did beyond the rows.
#[derive(Debug, PartialEq, Eq)]
pub struct UnitSync {
    /// Units that were not known before, in listing order. One that merely took
    /// the place of a re-uploaded unit is not among them.
    pub new_units: Vec<ReadingUnit>,
    /// What has to be done to the page directories.
    pub file_ops: Vec<UnitFileOp>,
}

/// What has to be done to a unit's page directory.
#[derive(Clone, Copy, Debug, PartialEq, Eq, Structural)]
pub enum UnitFileOp {
    /// The unit is gone; so should its pages be.
    Remove { unit: Uuid },
    /// The unit's pages now belong to its twin.
    Rename { from: Uuid, to: Uuid },
}

/// Sums over the units of one publication.
#[derive(Clone, Copy, Debug, PartialEq, Eq, Structural)]
pub struct LibraryRollup {
    pub unit_count: u32,
    pub downloaded_count: u32,
    pub unread_count: u32,
    pub latest_unit_at: Option<Timestamp>,
}

impl Default for LibraryRollup {
    fn default() -> (r: Self)
        ensures
            r == (LibraryRollup {
                unit_count: 0,
                downloaded_count: 0,
                unread_count: 0,
                latest_unit_at: None,
            }),
    {
        LibraryRollup { unit_count: 0, downloaded_count: 0, unread_count: 0, latest_unit_at: None }
    }
}

/// The tables.
#[derive(Debug)]
pub struct Db {
    pub(crate) categories: Vec<Category>,
    pub(crate) publications: Vec<Publication>,
    pub(crate) units: Vec<ReadingUnit>,
    pub(crate) marks: Vec<ReadMark>,
    pub(crate) journal: Vec<JournalEntry>,
    pub(crate) next_seq: i64,
    pub(crate) users: Vec<Account>,
    pub(crate) identities: Vec<Identity>,
    pub(crate) sessions: Vec<Session>,
    pub(crate) claim: Option<Claim>,
    pub(crate) updates: Vec<UpdateRow>,
    pub(crate) catalog: Vec<CatalogEntry>,
    pub(crate) pages: Vec<CatalogPage>,
}

/// The content of the tables.
#[verifier::ext_equal]
pub struct DbView {
    pub categories: Seq<Category>,
    pub publications: Seq<PublicationView>,
    pub units: Seq<ReadingUnit>,
    pub marks: Seq<ReadMark>,
    pub journal: Seq<JournalEntry>,
    pub next_seq: int,
    pub users: Seq<Account>,
    pub identities: Seq<Identity>,
    pub sessions: Seq<Session>,
    pub claim: Option<Claim>,
    pub updates: Seq<UpdateRow>,
    pub catalog: Seq<CatalogEntry>,
    pub pages: Seq<CatalogPageView>,
}

impl View for Db {
    type V = DbView;

    closed spec fn view(&self) -> DbView {
        DbView {
            categories: self.categories@,
            publications: self.publications@.map_values(|p: Publication| p@),
            units: self.units@,
            marks: self.marks@,
            journal: self.journal@,
            next_seq: self.next_seq as int,
            users: self.users@,
            identities: self.identities@,
            sessions: self.sessions@,
            claim: self.claim,
            updates: self.updates@,
            catalog: self.catalog@,
            pages: self.pages@.map_values(|p: CatalogPage| p@),
        }
    }
}

/// No two categories share an identifier.
pub open spec fn categories_distinct(s: Seq<Category>) -> bool {
    forall|i: int, j: int|
        0 <= i < s.len() && 0 <= j < s.len() && (#[trigger] s[i]).id@ == (#[trigger] s[j]).id@ ==> i
            == j
}

/// Two publications come from the same title, or the same file.
pub open spec fn same_origin(a: Origin, b: Origin) -> bool {
    match (a, b) {
        (
            Origin::Source { source_id: i, source_key: k },
            Origin::Source { source_id: j, source_key: l },
        ) => i@ == j@ && k@ == l@,
        (Origin::LocalFile { path: p }, Origin::LocalFile { path: q }) => p@ == q@,
        _ => false,
    }
}

/// No two publications share an identifier, or an origin.
pub open spec fn publications_distinct(s: Seq<PublicationView>) -> bool {
    &&& forall|i: int, j: int|
        0 <= i < s.len() && 0 <= j < s.len() && (#[trigger] s[i]).id == (#[trigger] s[j]).id ==> i == j
    &&& forall|i: int, j: int|
        0 <= i < s.len() && 0 <= j < s.len() && same_origin(
            (#[trigger] s[i]).origin,
            (#[trigger] s[j]).origin,
        ) ==> i == j
}

/// No two units share an identifier, nor a key within a publication.
pub open spec fn units_distinct(s: Seq<ReadingUnit>) -> bool {
    &&& forall|i: int, j: int|
        0 <= i < s.len() && 0 <= j < s.len() && (#[trigger] s[i]).id == (#[trigger] s[j]).id ==> i == j
    &&& forall|i: int, j: int|
        0 <= i < s.len() && 0 <= j < s.len() && (#[trigger] s[i]).publication_id == (
        #[trigger] s[j]).publication_id && s[i].source_key@ == s[j].source_key@ ==> i == j
}

/// No reader marks a unit twice.
pub open spec fn marks_distinct(s: Seq<ReadMark>) -> bool {
    forall|i: int, j: int|
        0 <= i < s.len() && 0 <= j < s.len() && (#[trigger] s[i]).user_id == (#[trigger] s[j]).user_id
            && s[i].unit_id == s[j].unit_id ==> i == j
}

/// No two journal entries share an event, and they stand in order of arrival.
pub open spec fn journal_ordered(s: Seq<JournalEntry>, next_seq: int) -> bool {
    &&& forall|i: int, j: int|
        0 <= i < s.len() && 0 <= j < s.len() && (#[trigger] s[i]).event.id == (
        #[trigger] s[j]).event.id ==> i == j
    &&& forall|i: int, j: int|
        0 <= i < j < s.len() ==> (#[trigger] s[i]).seq < (#[trigger] s[j]).seq
    &&& forall|i: int| 0 <= i < s.len() ==> 0 < (#[trigger] s[i]).seq < next_seq
    &&& next_seq > 0
}

/// There is a publication with this identifier.
pub open spec fn has_publication(s: Seq<PublicationView>, id: Uuid) -> bool {
    exists|i: int| 0 <= i < s.len() && (#[trigger] s[i]).id == id
}

/// There is a unit with this identifier.
pub open spec fn has_unit(s: Seq<ReadingUnit>, id: Uuid) -> bool {
    exists|i: int| 0 <= i < s.len() && (#[trigger] s[i]).id == id
}

/// There is an account with this identifier.
pub open spec fn has_user(s: Seq<Account>, id: Uuid) -> bool {
    exists|i: int| 0 <= i < s.len() && (#[trigger] s[i]).id == id
}

/// No two accounts share an identifier, a name or a subject.
pub open spec fn users_distinct(s: Seq<Account>) -> bool {
    &&& forall|i: int, j: int|
        0 <= i < s.len() && 0 <= j < s.len() && (#[trigger] s[i]).id == (#[trigger] s[j]).id ==> i == j
    &&& forall|i: int, j: int|
        0 <= i < s.len() && 0 <= j < s.len() && (#[trigger] s[i]).username@ == (
        #[trigger] s[j]).username@ ==> i == j
    &&& forall|i: int, j: int|
        0 <= i < s.len() && 0 <= j < s.len() && (#[trigger] s[i]).subject is Some && (
        #[trigger] s[j]).subject is Some && s[i].subject->0@ == s[j].subject->0@ ==> i == j
}

/// The shared account is there, and has no subject.
pub open spec fn has_shared(s: Seq<Account>) -> bool {
    exists|i: int| 0 <= i < s.len() && (#[trigger] s[i]).id == SHARED_USER && s[i].subject is None
}

/// No subject belongs to two accounts.
pub open spec fn identities_distinct(s: Seq<Identity>) -> bool {
    forall|i: int, j: int|
        0 <= i < s.len() && 0 <= j < s.len() && (#[trigger] s[i]).subject@ == (
        #[trigger] s[j]).subject@ ==> i == j
}

/// No two sessions share a token.
pub open spec fn sessions_distinct(s: Seq<Session>) -> bool {
    forall|i: int, j: int|
        0 <= i < s.len() && 0 <= j < s.len() && (#[trigger] s[i]).token_hash@ == (
        #[trigger] s[j]).token_hash@ ==> i == j
}

/// Every unit belongs to a publication.
pub open spec fn units_placed(u: Seq<ReadingUnit>, p: Seq<PublicationView>) -> bool {
    forall|i: int| 0 <= i < u.len() ==> has_publication(p, (#[trigger] u[i]).publication_id)
}

/// Every mark is on a unit.
pub open spec fn marks_placed(m: Seq<ReadMark>, u: Seq<ReadingUnit>) -> bool {
    forall|i: int| 0 <= i < m.len() ==> has_unit(u, (#[trigger] m[i]).unit_id)
}

/// Every journal entry is of a publication.
pub open spec fn journal_placed(s: Seq<JournalEntry>, p: Seq<PublicationView>) -> bool {
    forall|i: int| 0 <= i < s.len() ==> has_publication(p, (#[trigger] s[i]).event.publication_id)
}

/// Every identity belongs to an account.
pub open spec fn identities_placed(s: Seq<Identity>, u: Seq<Account>) -> bool {
    forall|i: int| 0 <= i < s.len() ==> has_user(u, (#[trigger] s[i]).user_id)
}

/// Every session belongs to an account.
pub open spec fn sessions_placed(s: Seq<Session>, u: Seq<Account>) -> bool {
    forall|i: int| 0 <= i < s.len() ==> has_user(u, (#[trigger] s[i]).user_id)
}

/// Every listing page was fetched at a point in time.
pub open spec fn pages_dated(s: Seq<CatalogPageView>) -> bool {
    forall|i: int| 0 <= i < s.len() ==> (#[trigger] s[i]).fetched_at.valid()
}

impl DbView {
    /// The tables keep what they promise: identifiers and keys are taken once, and
    /// every reference leads somewhere.
    pub open spec fn wf(self) -> bool {
        &&& categories_distinct(self.categories)
        &&& publications_distinct(self.publications)
        &&& units_distinct(self.units)
        &&& units_placed(self.units, self.publications)
        &&& marks_distinct(self.marks)
        &&& marks_placed(self.marks, self.units)
        &&& journal_ordered(self.journal, self.next_seq)
        &&& journal_placed(self.journal, self.publications)
        &&& users_distinct(self.users)
        &&& has_shared(self.users)
        &&& identities_distinct(self.identities)
        &&& identities_placed(self.identities, self.users)
        &&& sessions_distinct(self.sessions)
        &&& sessions_placed(self.sessions, self.users)
        &&& pages_dated(self.pages)
    }
}

/// Changing units without touching their identifiers, publications and keys keeps
/// the tables' promises.
pub proof fn lemma_units_changed(db: DbView, f: spec_fn(ReadingUnit) -> ReadingUnit)
    requires
        db.wf(),
        forall|u: ReadingUnit|
            (#[trigger] f(u)).id == u.id && f(u).publication_id == u.publication_id && f(u).source_key
                == u.source_key,
    ensures
        (DbView { units: db.units.map_values(f), ..db }).wf(),
{
    let out = db.units.map_values(f);
    assert forall|i: int| 0 <= i < out.len() implies (#[trigger] out[i]).id == db.units[i].id
        && out[i].publication_id == db.units[i].publication_id && out[i].source_key
        == db.units[i].source_key by {
        assert(out[i] == f(db.units[i]));
    }
    assert forall|i: int| 0 <= i < db.marks.len() implies has_unit(
        out,
        (#[trigger] db.marks[i]).unit_id,
    ) by {
        assert(has_unit(db.units, db.marks[i].unit_id));
        let k = choose|k: int| 0 <= k < db.units.len() && (#[trigger] db.units[k]).id == db.marks[i].unit_id;
        assert(out[k].id == db.marks[i].unit_id);
    }
    assert forall|i: int| 0 <= i < out.len() implies has_publication(
        db.publications,
        (#[trigger] out[i]).publication_id,
    ) by {
        assert(has_publication(db.publications, db.units[i].publication_id));
    }
}

/// The refusal of a row whose identifier or key is taken.
pub open spec fn is_taken(e: DbError) -> bool {
    e matches DbError::Sqlx(m) && m@ == "UNIQUE constraint failed"@
}

/// The refusal of a row that refers to nothing.
pub open spec fn is_dangling(e: DbError) -> bool {
    e matches DbError::Sqlx(m) && m@ == "FOREIGN KEY constraint failed"@
}

/// The refusal of a row whose identifier or key is taken.
pub(crate) fn taken() -> (r: DbError)
    ensures
        is_taken(r),
{
    DbError::Sqlx("UNIQUE constraint failed".to_owned())
}

/// The refusal of a row that refers to nothing.
pub(crate) fn dangling() -> (r: DbError)
    ensures
        is_dangling(r),
{
    DbError::Sqlx("FOREIGN KEY constraint failed".to_owned())
}

impl Db {
    /// The tables keep what they promise.
    pub open spec fn wf(&self) -> bool {
        self@.wf()
    }

    /// Whether there is a publication with this identifier.
    pub(crate) fn knows_publication(&self, id: Uuid) -> (r: bool)
        ensures
            r == has_publication(self@.publications, id),
    {
        let is_it = |p: &Publication| -> (b: bool)
            ensures b == (p.id == id)
        { p.id == id };
        let r = any(&self.publications, is_it, Ghost(|p: Publication| p.id == id));
        proof {
            if r {
                let j = choose|j: int|
                    0 <= j < self.publications@.len() && #[trigger] self.publications@[j].id == id;
                assert(self@.publications[j].id == id);
            }
            if has_publication(self@.publications, id) {
                let j = choose|j: int|
                    0 <= j < self@.publications.len() && (#[trigger] self@.publications[j]).id == id;
                assert(self.publications@[j].id == id);
            }
        }
        r
    }

    /// Whether there is a unit with this identifier.
    pub(crate) fn knows_unit(&self, id: Uuid) -> (r: bool)
        ensures
            r == has_unit(self@.units, id),
    {
        let is_it = |u: &ReadingUnit| -> (b: bool)
            ensures b == (u.id == id)
        { u.id == id };
        any(&self.units, is_it, Ghost(|u: ReadingUnit| u.id == id))
    }
}

}
