//! Opening the store: a new one with what every store starts with, or one whose rows were
//! kept elsewhere.

use vstd::prelude::*;

use crate::clock::{utc_now, Timestamp};
use crate::db::publications::publication_views;
use crate::db::{
    categories_distinct, has_publication, has_shared, has_unit, has_user, identities_distinct, identities_placed, journal_ordered,
    journal_placed, marks_distinct, marks_placed, pages_dated, publications_distinct, same_origin, sessions_distinct, sessions_placed,
    units_distinct, units_placed, users_distinct, Account, CatalogEntry, CatalogPage, Claim, Db, DbError, DbView, Identity, JournalEntry,
    ReadMark, Session, UpdateRow,
};
use crate::domain::publication::{Category, DownloadState, Origin, Publication, ReadingUnit};
use crate::ids::SHARED_USER;
use crate::tables::{any, decides};
use crate::text::same;

verus! {

/// The rows of the tables, to be read from and written to where they are kept.
#[derive(Debug, PartialEq, Eq)]
pub struct Tables {
    pub categories: Vec<Category>,
    pub publications: Vec<Publication>,
    pub units: Vec<ReadingUnit>,
    pub marks: Vec<ReadMark>,
    pub journal: Vec<JournalEntry>,
    /// The number under which the next journal entry arrives.
    pub next_seq: i64,
    pub users: Vec<Account>,
    pub identities: Vec<Identity>,
    pub sessions: Vec<Session>,
    pub claim: Option<Claim>,
    pub updates: Vec<UpdateRow>,
    pub catalog: Vec<CatalogEntry>,
    pub pages: Vec<CatalogPage>,
}

impl View for Tables {
    type V = DbView;

    open spec fn view(&self) -> DbView {
        DbView {
            categories: self.categories@,
            publications: self.publications@.map_values(|p: Publication| p@),
            units: self.units@,
            marks: self.marks@,
            journal: self.journal@,
            next_seq: self.next_seq as int,
            users: self.users@,
            identities: self.identities@,
            sessions: self.sessions@,
            claim: self.claim,
            updates: self.updates@,
            catalog: self.catalog@,
            pages: self.pages@.map_values(|p: CatalogPage| p@),
        }
    }
}

// ---- a new store ----

/// What every store starts with: three categories, of which only the first is updated,
/// and the account that everyone shares.
pub open spec fn starts_with(db: DbView, now: Timestamp) -> bool {
    &&& db.categories.len() == 3
    &&& db.categories[0].id@ == "reading"@ && db.categories[0].name@ == "Reading"@
    &&& db.categories[0].position == 0 && db.categories[0].update_enabled
    &&& db.categories[1].id@ == "paused"@ && db.categories[1].name@ == "Paused"@
    &&& db.categories[1].position == 1 && !db.categories[1].update_enabled
    &&& db.categories[2].id@ == "finished"@ && db.categories[2].name@ == "Finished"@
    &&& db.categories[2].position == 2 && !db.categories[2].update_enabled
    &&& db.users.len() == 1
    &&& db.users[0].id == SHARED_USER
    &&& db.users[0].subject is None
    &&& db.users[0].username@ == "everyone"@
    &&& db.users[0].display_name@ == "Everyone"@
    &&& db.users[0].created_at == now
    &&& db.publications.len() == 0
    &&& db.units.len() == 0
    &&& db.marks.len() == 0
    &&& db.journal.len() == 0
    &&& db.next_seq == 1
    &&& db.identities.len() == 0
    &&& db.sessions.len() == 0
    &&& db.claim is None
    &&& db.updates.len() == 0
    &&& db.catalog.len() == 0
    &&& db.pages.len() == 0
}

fn category(id: &str, name: &str, position: u32, update_enabled: bool) -> (r: Category)
    ensures
        r.id@ == id@,
        r.name@ == name@,
        r.position == position,
        r.update_enabled == update_enabled,
{
    Category { id: id.to_owned(), name: name.to_owned(), position, update_enabled }
}

impl Db {
    /// A new store, as of a time.
    pub fn in_memory_at(now: Timestamp) -> (r: Db)
        ensures
            r.wf(),
            starts_with(r@, now),
    {
        let mut categories: Vec<Category> = Vec::new();
        categories.push(category("reading", "Reading", 0, true));
        categories.push(category("paused", "Paused", 1, false));
        categories.push(category("finished", "Finished", 2, false));
        let mut users: Vec<Account> = Vec::new();
        users.push(
            Account {
                id: SHARED_USER,
                subject: None,
                username: "everyone".to_owned(),
                display_name: "Everyone".to_owned(),
                created_at: now,
            },
        );
        let db = Db {
            categories,
            publications: Vec::new(),
            units: Vec::new(),
            marks: Vec::new(),
            journal: Vec::new(),
            next_seq: 1,
            users,
            identities: Vec::new(),
            sessions: Vec::new(),
            claim: None,
            updates: Vec::new(),
            catalog: Vec::new(),
            pages: Vec::new(),
        };
        proof {
            reveal_strlit("reading");
            reveal_strlit("paused");
            reveal_strlit("finished");
            assert("reading"@[0] == 'r' && "paused"@[0] == 'p' && "finished"@[0] == 'f');
            assert(db@.users[0].id == SHARED_USER);
            assert(has_shared(db@.users));
        }
        db
    }

    /// A new store.
    pub fn in_memory() -> (r: Db)
        ensures
            r.wf(),
            exists|now: Timestamp| crate::clock::is_reading(now) && #[trigger] starts_with(r@, now),
    {
        let now = utc_now();
        Db::in_memory_at(now)
    }
}

// ---- a store that was kept ----

/// No two rows clash.
pub open spec fn no_clash<T>(s: Seq<T>, p: spec_fn(T, T) -> bool) -> bool {
    forall|i: int, j: int|
        0 <= i < s.len() && 0 <= j < s.len() && p(#[trigger] s[i], #[trigger] s[j]) ==> i == j
}

/// Looks for two rows that clash.
fn no_two<T, F: Fn(&T, &T) -> bool>(
    rows: &Vec<T>,
    clash: F,
    Ghost(p): Ghost<spec_fn(T, T) -> bool>,
) -> (r: bool)
    requires
        crate::order::compares(clash, p),
        forall|a: T, b: T| #[trigger] p(a, b) ==> p(b, a),
    ensures
        r == no_clash(rows@, p),
{
    let mut i: usize = 0;
    while i < rows.len()
        invariant
            crate::order::compares(clash, p),
            forall|a: T, b: T| #[trigger] p(a, b) ==> p(b, a),
            i <= rows@.len(),
            forall|a: int, b: int|
                0 <= a < i && 0 <= b < i && p(#[trigger] rows@[a], #[trigger] rows@[b]) ==> a == b,
        decreases rows@.len() - i,
    {
        let mut j: usize = 0;
        while j < i
            invariant
                crate::order::compares(clash, p),
                j <= i < rows@.len(),
                forall|a: int| 0 <= a < j ==> !p(#[trigger] rows@[a], rows@[i as int]),
            decreases i - j,
        {
            if clash(&rows[j], &rows[i]) {
                assert(p(rows@[j as int], rows@[i as int]));
                return false;
            }
            j += 1;
        }
        i += 1;
    }
    true
}

/// Every row meets a condition.
fn each<T, F: Fn(&T) -> bool>(rows: &Vec<T>, test: F, Ghost(p): Ghost<spec_fn(T) -> bool>) -> (r: bool)
    requires
        decides(test, p),
    ensures
        r == forall|i: int| 0 <= i < rows@.len() ==> p(#[trigger] rows@[i]),
{
    let mut i: usize = 0;
    while i < rows.len()
        invariant
            decides(test, p),
            i <= rows@.len(),
            forall|j: int| 0 <= j < i ==> p(#[trigger] rows@[j]),
        decreases rows@.len() - i,
    {
        if !test(&rows[i]) {
            assert(!p(rows@[i as int]));
            return false;
        }
        i += 1;
    }
    true
}

fn categories_fine(rows: &Vec<Category>) -> (r: bool)
    ensures
        r == categories_distinct(rows@),
{
    let clash = |a: &Category, b: &Category| -> (x: bool)
        ensures x == (a.id@ == b.id@)
    {
        same(a.id.as_str(), b.id.as_str())
    };
    no_two(rows, clash, Ghost(|a: Category, b: Category| a.id@ == b.id@))
}

fn origins_alike(a: &Origin, b: &Origin) -> (r: bool)
    ensures
        r == same_origin(*a, *b),
{
    match (a, b) {
        (
            Origin::Source { source_id: i, source_key: k },
            Origin::Source { source_id: j, source_key: l },
        ) => same(i.as_str(), j.as_str()) && same(k.as_str(), l.as_str()),
        (Origin::LocalFile { path: p }, Origin::LocalFile { path: q }) => same(p.as_str(), q.as_str()),
        _ => false,
    }
}

fn publications_fine(rows: &Vec<Publication>) -> (r: bool)
    ensures
        r == publications_distinct(publication_views(rows@)),
{
    let by_id = |a: &Publication, b: &Publication| -> (x: bool)
        ensures x == (a.id == b.id)
    {
        a.id == b.id
    };
    let by_origin = |a: &Publication, b: &Publication| -> (x: bool)
        ensures x == same_origin(a.origin, b.origin)
    {
        origins_alike(&a.origin, &b.origin)
    };
    let ids = no_two(rows, by_id, Ghost(|a: Publication, b: Publication| a.id == b.id));
    let origins = no_two(
        rows,
        by_origin,
        Ghost(|a: Publication, b: Publication| same_origin(a.origin, b.origin)),
    );
    proof {
        let v = publication_views(rows@);
        assert forall|i: int| 0 <= i < v.len() implies #[trigger] v[i] == rows@[i]@ by {}
        if publications_distinct(v) {
            assert forall|i: int, j: int|
                0 <= i < rows@.len() && 0 <= j < rows@.len() && (#[trigger] rows@[i]).id == (
                #[trigger] rows@[j]).id implies i == j by {
                assert(v[i].id == v[j].id);
            }
            assert forall|i: int, j: int|
                0 <= i < rows@.len() && 0 <= j < rows@.len() && same_origin(
                    (#[trigger] rows@[i]).origin,
                    (#[trigger] rows@[j]).origin,
                ) implies i == j by {
                assert(same_origin(v[i].origin, v[j].origin));
            }
        }
        if ids && origins {
            assert forall|i: int, j: int|
                0 <= i < v.len() && 0 <= j < v.len() && (#[trigger] v[i]).id == (#[trigger] v[j]).id implies i
                == j by {
                assert(rows@[i].id == rows@[j].id);
            }
            assert forall|i: int, j: int|
                0 <= i < v.len() && 0 <= j < v.len() && same_origin(
                    (#[trigger] v[i]).origin,
                    (#[trigger] v[j]).origin,
                ) implies i == j by {
                assert(same_origin(rows@[i].origin, rows@[j].origin));
            }
        }
    }
    ids && origins
}

fn units_fine(rows: &Vec<ReadingUnit>) -> (r: bool)
    ensures
        r == units_distinct(rows@),
{
    let by_id = |a: &ReadingUnit, b: &ReadingUnit| -> (x: bool)
        ensures x == (a.id == b.id)
    {
        a.id == b.id
    };
    let by_key = |a: &ReadingUnit, b: &ReadingUnit| -> (x: bool)
        ensures x == (a.publication_id == b.publication_id && a.source_key@ == b.source_key@)
    {
        a.publication_id == b.publication_id && same(a.source_key.as_str(), b.source_key.as_str())
    };
    let ids = no_two(rows, by_id, Ghost(|a: ReadingUnit, b: ReadingUnit| a.id == b.id));
    let keys = no_two(
        rows,
        by_key,
        Ghost(
            |a: ReadingUnit, b: ReadingUnit|
                a.publication_id == b.publication_id && a.source_key@ == b.source_key@,
        ),
    );
    ids && keys
}

fn marks_fine(rows: &Vec<ReadMark>) -> (r: bool)
    ensures
        r == marks_distinct(rows@),
{
    let clash = |a: &ReadMark, b: &ReadMark| -> (x: bool)
        ensures x == (a.user_id == b.user_id && a.unit_id == b.unit_id)
    {
        a.user_id == b.user_id && a.unit_id == b.unit_id
    };
    no_two(
        rows,
        clash,
        Ghost(|a: ReadMark, b: ReadMark| a.user_id == b.user_id && a.unit_id == b.unit_id),
    )
}

fn journal_fine(rows: &Vec<JournalEntry>, next_seq: i64) -> (r: bool)
    ensures
        r == journal_ordered(rows@, next_seq as int),
{
    let by_event = |a: &JournalEntry, b: &JournalEntry| -> (x: bool)
        ensures x == (a.event.id == b.event.id)
    {
        a.event.id == b.event.id
    };
    let events = no_two(
        rows,
        by_event,
        Ghost(|a: JournalEntry, b: JournalEntry| a.event.id == b.event.id),
    );
    let numbered = |e: &JournalEntry| -> (x: bool)
        ensures x == (0 < e.seq < next_seq)
    {
        e.seq > 0 && e.seq < next_seq
    };
    let numbers = each(rows, numbered, Ghost(|e: JournalEntry| 0 < e.seq < next_seq));
    let mut rising = true;
    let mut i: usize = 1;
    while i < rows.len()
        invariant
            1 <= i,
            i <= rows@.len() || rows@.len() == 0,
            rising == forall|a: int, b: int|
                0 <= a < b < i && b < rows@.len() ==> (#[trigger] rows@[a]).seq < (#[trigger] rows@[b]).seq,
        decreases rows@.len() - i,
    {
        let up = rows[i - 1].seq < rows[i].seq;
        proof {
            if rising && up {
                assert forall|a: int, b: int| 0 <= a < b < i + 1 && b < rows@.len() implies (
                #[trigger] rows@[a]).seq < (#[trigger] rows@[b]).seq by {
                    if b == i && a < i - 1 {
                        assert(rows@[a].seq < rows@[i - 1].seq);
                    }
                }
            }
        }
        rising = rising && up;
        i += 1;
    }
    events && numbers && rising && next_seq > 0
}

fn users_fine(rows: &Vec<Account>) -> (r: bool)
    ensures
        r == (users_distinct(rows@) && has_shared(rows@)),
{
    let by_id = |a: &Account, b: &Account| -> (x: bool)
        ensures x == (a.id == b.id)
    {
        a.id == b.id
    };
    let by_name = |a: &Account, b: &Account| -> (x: bool)
        ensures x == (a.username@ == b.username@)
    {
        same(a.username.as_str(), b.username.as_str())
    };
    let by_subject = |a: &Account, b: &Account| -> (x: bool)
        ensures x == (a.subject is Some && b.subject is Some && a.subject->0@ == b.subject->0@)
    {
        match (&a.subject, &b.subject) {
            (Some(s), Some(t)) => same(s.as_str(), t.as_str()),
            _ => false,
        }
    };
    let shared = |a: &Account| -> (x: bool)
        ensures x == (a.id == SHARED_USER && a.subject is None)
    {
        a.id == SHARED_USER && a.subject.is_none()
    };
    let ids = no_two(rows, by_id, Ghost(|a: Account, b: Account| a.id == b.id));
    let names = no_two(rows, by_name, Ghost(|a: Account, b: Account| a.username@ == b.username@));
    let subjects = no_two(
        rows,
        by_subject,
        Ghost(
            |a: Account, b: Account|
                a.subject is Some && b.subject is Some && a.subject->0@ == b.subject->0@,
        ),
    );
    let everyone = any(rows, shared, Ghost(|a: Account| a.id == SHARED_USER && a.subject is None));
    ids && names && subjects && everyone
}

fn identities_fine(rows: &Vec<Identity>) -> (r: bool)
    ensures
        r == identities_distinct(rows@),
{
    let clash = |a: &Identity, b: &Identity| -> (x: bool)
        ensures x == (a.subject@ == b.subject@)
    {
        same(a.subject.as_str(), b.subject.as_str())
    };
    no_two(rows, clash, Ghost(|a: Identity, b: Identity| a.subject@ == b.subject@))
}

fn sessions_fine(rows: &Vec<Session>) -> (r: bool)
    ensures
        r == sessions_distinct(rows@),
{
    let clash = |a: &Session, b: &Session| -> (x: bool)
        ensures x == (a.token_hash@ == b.token_hash@)
    {
        same(a.token_hash.as_str(), b.token_hash.as_str())
    };
    no_two(rows, clash, Ghost(|a: Session, b: Session| a.token_hash@ == b.token_hash@))
}

fn pages_fine(rows: &Vec<CatalogPage>) -> (r: bool)
    ensures
        r == pages_dated(rows@.map_values(|p: CatalogPage| p@)),
{
    let ghost views = rows@.map_values(|p: CatalogPage| p@);
    let dated = |p: &CatalogPage| -> (x: bool)
        ensures x == p.fetched_at.valid()
    {
        p.fetched_at.is_valid()
    };
    let r = each(rows, dated, Ghost(|p: CatalogPage| p.fetched_at.valid()));
    proof {
        if r {
            assert forall|i: int| 0 <= i < views.len() implies (#[trigger] views[i]).fetched_at.valid() by {
                assert(rows@[i].fetched_at.valid());
            }
        }
        if pages_dated(views) {
            assert forall|i: int| 0 <= i < rows@.len() implies (#[trigger] rows@[i]).fetched_at.valid() by {
                assert(views[i].fetched_at.valid());
            }
        }
    }
    r
}

/// The tables with interrupted downloads back in the queue.
pub open spec fn recovered(db: DbView) -> DbView {
    DbView {
        units: db.units.map_values(
            |u: ReadingUnit|
                if u.download is Downloading {
                    ReadingUnit { download: DownloadState::Pending, ..u }
                } else {
                    u
                },
        ),
        ..db
    }
}

impl Db {
    /// Whether every reference in the tables leads somewhere.
    fn references_fine(&self) -> (r: bool)
        ensures
            r == {
                &&& units_placed(self@.units, self@.publications)
                &&& marks_placed(self@.marks, self@.units)
                &&& journal_placed(self@.journal, self@.publications)
                &&& identities_placed(self@.identities, self@.users)
                &&& sessions_placed(self@.sessions, self@.users)
            },
    {
        let unit = |u: &ReadingUnit| -> (x: bool)
            ensures x == has_publication(self@.publications, u.publication_id)
        {
            self.knows_publication(u.publication_id)
        };
        let mark = |m: &ReadMark| -> (x: bool)
            ensures x == has_unit(self@.units, m.unit_id)
        {
            self.knows_unit(m.unit_id)
        };
        let entry = |e: &JournalEntry| -> (x: bool)
            ensures x == has_publication(self@.publications, e.event.publication_id)
        {
            self.knows_publication(e.event.publication_id)
        };
        let identity = |i: &Identity| -> (x: bool)
            ensures x == has_user(self@.users, i.user_id)
        {
            self.knows_user(i.user_id)
        };
        let session = |s: &Session| -> (x: bool)
            ensures x == has_user(self@.users, s.user_id)
        {
            self.knows_user(s.user_id)
        };
        let units = each(
            &self.units,
            unit,
            Ghost(|u: ReadingUnit| has_publication(self@.publications, u.publication_id)),
        );
        let marks = each(&self.marks, mark, Ghost(|m: ReadMark| has_unit(self@.units, m.unit_id)));
        let journal = each(
            &self.journal,
            entry,
            Ghost(|e: JournalEntry| has_publication(self@.publications, e.event.publication_id)),
        );
        let identities = each(
            &self.identities,
            identity,
            Ghost(|i: Identity| has_user(self@.users, i.user_id)),
        );
        let sessions = each(
            &self.sessions,
            session,
            Ghost(|s: Session| has_user(self@.users, s.user_id)),
        );
        units && marks && journal && identities && sessions
    }

    /// Takes rows as they are. Rows that break a promise of the tables are refused.
    pub fn from_tables(tables: Tables) -> (r: Result<Db, DbError>)
        ensures
            match r {
                Ok(db) => tables@.wf() && db.wf() && db@ == tables@,
                Err(e) => !tables@.wf() && (e matches DbError::Corrupt(m) && m@
                    == "rows break the constraints of their tables"@),
            },
    {
        let ghost given = tables@;
        let db = Db {
            categories: tables.categories,
            publications: tables.publications,
            units: tables.units,
            marks: tables.marks,
            journal: tables.journal,
            next_seq: tables.next_seq,
            users: tables.users,
            identities: tables.identities,
            sessions: tables.sessions,
            claim: tables.claim,
            updates: tables.updates,
            catalog: tables.catalog,
            pages: tables.pages,
        };
        assert(db@ == given);
        assert(db@.publications == publication_views(db.publications@));
        let fine = categories_fine(&db.categories) && publications_fine(&db.publications) && units_fine(
            &db.units,
        ) && marks_fine(&db.marks) && journal_fine(&db.journal, db.next_seq) && users_fine(&db.users)
            && identities_fine(&db.identities) && sessions_fine(&db.sessions) && pages_fine(&db.pages)
            && db.references_fine();
        if !fine {
            return Err(
                DbError::Corrupt("rows break the constraints of their tables".to_owned()),
            );
        }
        Ok(db)
    }

    /// Opens a store whose rows were kept elsewhere. Rows that break a promise of the
    /// tables are refused. Downloads that were under way when the server stopped wait in
    /// the queue again.
    pub fn open(tables: Tables) -> (r: Result<Db, DbError>)
        ensures
            match r {
                Ok(db) => tables@.wf() && db.wf() && db@ == recovered(tables@),
                Err(e) => !tables@.wf() && (e matches DbError::Corrupt(m) && m@
                    == "rows break the constraints of their tables"@),
            },
    {
        match Db::from_tables(tables) {
            Err(e) => Err(e),
            Ok(kept) => {
                let mut db = kept;
                db.recover_downloads();
                Ok(db)
            },
        }
    }

    /// Whether the journal has numbers left for so many entries.
    pub fn journal_room(&self, more: usize) -> (r: bool)
        ensures
            r == (self@.next_seq + more <= i64::MAX),
    {
        self.next_seq as i128 + more as i128 <= i64::MAX as i128
    }

    /// The number of entries in the journal.
    pub fn journal_len(&self) -> (r: usize)
        ensures
            r == self@.journal.len(),
    {
        self.journal.len()
    }

    /// Copies the rows, to be kept elsewhere.
    pub fn tables(&self) -> (r: Tables)
        ensures
            r@ == self@,
    {
        let mut publications: Vec<Publication> = Vec::new();
        let mut i: usize = 0;
        while i < self.publications.len()
            invariant
                i <= self.publications@.len(),
                publications@.len() == i,
                forall|j: int|
                    0 <= j < i ==> (#[trigger] publications@[j])@ == self.publications@[j]@,
            decreases self.publications@.len() - i,
        {
            publications.push(self.publications[i].clone());
            i += 1;
        }
        let mut pages: Vec<CatalogPage> = Vec::new();
        let mut k: usize = 0;
        while k < self.pages.len()
            invariant
                k <= self.pages@.len(),
                pages@.len() == k,
                forall|j: int| 0 <= j < k ==> (#[trigger] pages@[j])@ == self.pages@[j]@,
            decreases self.pages@.len() - k,
        {
            let p = &self.pages[k];
            let copy = CatalogPage {
                source_id: p.source_id.clone(),
                sort: p.sort.clone(),
                page: p.page,
                keys: p.keys.clone(),
                fetched_at: p.fetched_at,
            };
            assert(copy@ =~= p@);
            pages.push(copy);
            k += 1;
        }
        let r = Tables {
            categories: self.categories.clone(),
            publications,
            units: self.units.clone(),
            marks: self.marks.clone(),
            journal: self.journal.clone(),
            next_seq: self.next_seq,
            users: self.users.clone(),
            identities: self.identities.clone(),
            sessions: self.sessions.clone(),
            claim: self.claim,
            updates: self.updates.clone(),
            catalog: self.catalog.clone(),
            pages,
        };
        assert(r.categories@ =~= self.categories@);
        assert(r.units@ =~= self.units@);
        assert(r.marks@ =~= self.marks@);
        assert(r.journal@ =~= self.journal@);
        assert(r.users@ =~= self.users@);
        assert(r.identities@ =~= self.identities@);
        assert(r.sessions@ =~= self.sessions@);
        assert(r.updates@ =~= self.updates@);
        assert(r.catalog@ =~= self.catalog@);
        assert(r@.publications =~= self@.publications);
        assert(r@.pages =~= self@.pages);
        r
    }

    /// Gives the rows back, to be kept elsewhere.
    pub fn into_tables(self) -> (r: Tables)
        ensures
            r@ == self@,
    {
        Tables {
            categories: self.categories,
            publications: self.publications,
            units: self.units,
            marks: self.marks,
            journal: self.journal,
            next_seq: self.next_seq,
            users: self.users,
            identities: self.identities,
            sessions: self.sessions,
            claim: self.claim,
            updates: self.updates,
            catalog: self.catalog,
            pages: self.pages,
        }
    }
}

/// A store that was closed and opened again is the same, but that no download is under
/// way: nothing is lost, and whatever was being fetched waits in the queue.
pub proof fn law_reopening_loses_nothing(db: DbView)
    requires
        db.wf(),
    ensures
        recovered(db).units.len() == db.units.len(),
        forall|i: int|
            0 <= i < db.units.len() ==> !((#[trigger] recovered(db).units[i]).download is Downloading)
                && (db.units[i].download is Downloading ==> recovered(db).units[i].download is Pending)
                && (!(db.units[i].download is Downloading) ==> recovered(db).units[i] == db.units[i]),
        recovered(db) == (DbView { units: recovered(db).units, ..db }),
        recovered(recovered(db)) == recovered(db),
{
    assert(recovered(recovered(db)).units =~= recovered(db).units);
}

}
