//! What a look into the books directory changes: what is new is added, what is known is
//! refreshed, and what has vanished is noted.

use vstd::prelude::*;

use crate::clock::{is_reading, utc_now, Timestamp};
use crate::db::publications::{bare, distinct_genres, insert_outcome, local_shelf, publication_views, title_le, with_publication};
use crate::db::shelf_laws::lemma_titles_rank;
use crate::db::units::sync_outcome;
use crate::db::{Db, DbError, DbView, UnitSync};
use crate::domain::publication::{Origin, Publication, PublicationView};
use crate::domain::source::MangaDetails;
use crate::ids::{fresh_id, fresh_ids, timely_form, timely_forms, Uuid};
use crate::order::lemma_sorted;
use crate::streamer::series::Discovered;
use crate::tables::{count32, lemma_filter_contains, to_count};
use crate::text::same;

verus! {

/// A publication that lies at a path in the books directory.
pub open spec fn lies_at(p: PublicationView, path: Seq<char>) -> bool {
    p.origin matches Origin::LocalFile { path: q } && q@ == path
}

/// The publication that lies at a path.
pub open spec fn known_at(publications: Seq<PublicationView>, path: Seq<char>) -> Option<Uuid>
    decreases publications.len(),
{
    if publications.len() == 0 {
        None
    } else {
        match known_at(publications.drop_last(), path) {
            Some(id) => Some(id),
            None => if lies_at(publications.last(), path) {
                Some(publications.last().id)
            } else {
                None
            },
        }
    }
}

/// A publication of the books directory that is not among what was found there, and was
/// not missed before.
pub open spec fn vanished(p: PublicationView, found: Seq<Discovered>) -> bool {
    &&& p.origin is LocalFile
    &&& p.missing_since is None
    &&& forall|i: int| 0 <= i < found.len() ==> !lies_at(p, (#[trigger] found[i]).path@)
}

/// The publications that have vanished.
pub open spec fn gone(publications: Seq<PublicationView>, found: Seq<Discovered>) -> Seq<Uuid>
    decreases publications.len(),
{
    if publications.len() == 0 {
        Seq::empty()
    } else {
        let before = gone(publications.drop_last(), found);
        if vanished(publications.last(), found) {
            before.push(publications.last().id)
        } else {
            before
        }
    }
}

/// Whether a publication lies at a path.
fn is_at(p: &Publication, path: &str) -> (r: bool)
    ensures
        r == lies_at(p@, path@),
{
    match &p.origin {
        Origin::LocalFile { path: q } => same(q.as_str(), path),
        Origin::Source { .. } => false,
    }
}

/// Finds the publication that lies at a path.
pub fn find_known(publications: &Vec<Publication>, path: &str) -> (r: Option<Uuid>)
    ensures
        r == known_at(publication_views(publications@), path@),
{
    let ghost views = publication_views(publications@);
    let mut found: Option<Uuid> = None;
    let mut i: usize = 0;
    assert(views.take(0) =~= Seq::empty());
    while i < publications.len()
        invariant
            views == publication_views(publications@),
            i <= publications@.len(),
            found == known_at(views.take(i as int), path@),
        decreases publications@.len() - i,
    {
        assert(views.take(i + 1).drop_last() =~= views.take(i as int));
        assert(views.take(i + 1).last() == publications@[i as int]@);
        if found.is_none() && is_at(&publications[i], path) {
            found = Some(publications[i].id);
        }
        i += 1;
    }
    assert(views.take(views.len() as int) =~= views);
    found
}

/// Finds the publications that have vanished, by what a look into the books directory found.
pub fn find_gone(publications: &Vec<Publication>, found: &Vec<Discovered>) -> (r: Vec<Uuid>)
    ensures
        r@ == gone(publication_views(publications@), found@),
{
    let ghost views = publication_views(publications@);
    let mut out: Vec<Uuid> = Vec::new();
    let mut i: usize = 0;
    assert(views.take(0) =~= Seq::empty());
    while i < publications.len()
        invariant
            views == publication_views(publications@),
            i <= publications@.len(),
            out@ == gone(views.take(i as int), found@),
        decreases publications@.len() - i,
    {
        assert(views.take(i + 1).drop_last() =~= views.take(i as int));
        assert(views.take(i + 1).last() == publications@[i as int]@);
        let p = &publications[i];
        let mut there = false;
        let mut k: usize = 0;
        while k < found.len()
            invariant
                k <= found@.len(),
                there == exists|j: int| 0 <= j < k && lies_at(p@, (#[trigger] found@[j]).path@),
            decreases found@.len() - k,
        {
            if is_at(p, found[k].path.as_str()) {
                there = true;
                assert(lies_at(p@, found@[k as int].path@));
            }
            k += 1;
        }
        let local = match p.origin {
            Origin::LocalFile { .. } => true,
            Origin::Source { .. } => false,
        };
        if local && p.missing_since.is_none() && !there {
            out.push(p.id);
        }
        i += 1;
    }
    assert(views.take(views.len() as int) =~= views);
    out
}

// ---- books that were found ----

/// The tables with what was found of a known book noted: its description, its cover and its
/// genres, and that it is there.
pub open spec fn book_noted(db: DbView, id: Uuid, details: MangaDetails) -> DbView {
    let described = with_publication(
        db.publications,
        id,
        |p: PublicationView|
            PublicationView {
                description: details.description,
                cover_url: details.summary.cover_url,
                ..p
            },
    );
    let there = with_publication(
        described,
        id,
        |p: PublicationView| PublicationView { missing_since: None, ..p },
    );
    DbView {
        publications: with_publication(
            there,
            id,
            |p: PublicationView| PublicationView { genres: distinct_genres(details.genres@), ..p },
        ),
        ..db
    }
}

/// What keeping a book does, with identifiers and a time at hand: one that lies where no
/// publication does is added; a known one is noted, and its units merged. The answer says
/// whether it is new.
pub open spec fn take_up_outcome(
    before: DbView,
    book: Discovered,
    id: Uuid,
    ids: Seq<Uuid>,
    now: Timestamp,
    after: DbView,
    r: Result<bool, DbError>,
) -> bool {
    match known_at(local_shelf(before), book.path@) {
        None => exists|origin: Origin, added: Result<Publication, DbError>|
            {
                &&& origin matches Origin::LocalFile { path: p } && p@ == book.path@
                &&& #[trigger] insert_outcome(
                    before,
                    origin,
                    book.details,
                    false,
                    id,
                    ids,
                    now,
                    "file already in library"@,
                    after,
                    added,
                )
                &&& match added {
                    Ok(_) => r == Ok::<bool, DbError>(true),
                    Err(e) => r == Err::<bool, DbError>(e),
                }
            },
        Some(known) => exists|merged: Result<UnitSync, DbError>|
            {
                &&& #[trigger] sync_outcome(
                    book_noted(before, known, book.details),
                    known,
                    book.details.chapters@,
                    ids,
                    now,
                    after,
                    merged,
                )
                &&& match merged {
                    Ok(_) => r == Ok::<bool, DbError>(false),
                    Err(e) => r == Err::<bool, DbError>(e),
                }
            },
    }
}

/// Keeps a book that was found, with identifiers and a time at hand. Says whether it is new.
pub fn take_up_at(db: &mut Db, book: &Discovered, id: Uuid, ids: &Vec<Uuid>, now: Timestamp) -> (r: Result<
    bool,
    DbError,
>)
    requires
        old(db).wf(),
    ensures
        final(db).wf(),
        take_up_outcome(old(db)@, *book, id, ids@, now, final(db)@, r),
{
    let ghost before = db@;
    match find_known(&db.list_local_publications(), book.path.as_str()) {
        None => {
            let added = db.insert_local_publication_at(book.path.as_str(), &book.details, id, ids, now);
            let ghost answer = added;
            proof {
                let origin = choose|origin: Origin|
                    (origin matches Origin::LocalFile { path: p } && p@ == book.path@) && #[trigger] insert_outcome(
                        before,
                        origin,
                        book.details,
                        false,
                        id,
                        ids@,
                        now,
                        "file already in library"@,
                        db@,
                        answer,
                    );
                assert(insert_outcome(
                    before,
                    origin,
                    book.details,
                    false,
                    id,
                    ids@,
                    now,
                    "file already in library"@,
                    db@,
                    answer,
                ));
            }
            match added {
                Ok(_) => Ok(true),
                Err(e) => Err(e),
            }
        },
        Some(known) => {
            db.update_local_metadata(
                known,
                book.details.description.clone(),
                book.details.summary.cover_url.clone(),
            );
            db.set_missing_since(known, None);
            db.set_genres(known, &book.details.genres);
            assert(db@ == book_noted(before, known, book.details));
            let merged = db.sync_units_at(known, &book.details.chapters, ids, now);
            let ghost answer = merged;
            assert(sync_outcome(
                book_noted(before, known, book.details),
                known,
                book.details.chapters@,
                ids@,
                now,
                db@,
                answer,
            ));
            match merged {
                Ok(_) => Ok(false),
                Err(e) => Err(e),
            }
        },
    }
}

/// Keeps a book that was found. Says whether it is new.
pub fn take_up(db: &mut Db, book: &Discovered) -> (r: Result<bool, DbError>)
    requires
        old(db).wf(),
    ensures
        final(db).wf(),
        exists|id: Uuid, ids: Seq<Uuid>, now: Timestamp|
            timely_form(id) && timely_forms(ids, book.details.chapters@.len()) && is_reading(now)
                && #[trigger] take_up_outcome(old(db)@, *book, id, ids, now, final(db)@, r),
{
    let id = fresh_id();
    let ids = fresh_ids(book.details.chapters.len());
    let now = utc_now();
    take_up_at(db, book, id, &ids, now)
}

// ---- books that have vanished ----

/// The tables with publications noted as missing since a time.
pub open spec fn all_missed(db: DbView, ids: Seq<Uuid>, now: Timestamp) -> DbView
    decreases ids.len(),
{
    if ids.len() == 0 {
        db
    } else {
        let before = all_missed(db, ids.drop_last(), now);
        DbView {
            publications: with_publication(
                before.publications,
                ids.last(),
                |p: PublicationView| PublicationView { missing_since: Some(now), ..p },
            ),
            ..before
        }
    }
}

/// Notes which books have vanished, by all that was found. Says how many.
pub fn note_missing(db: &mut Db, found: &Vec<Discovered>, now: Timestamp) -> (r: u32)
    requires
        old(db).wf(),
    ensures
        final(db).wf(),
        final(db)@ == all_missed(old(db)@, gone(local_shelf(old(db)@), found@), now),
        r == count32(gone(local_shelf(old(db)@), found@).len() as int),
{
    let ids = find_gone(&db.list_local_publications(), found);
    let mut i: usize = 0;
    assert(ids@.take(0) =~= Seq::empty());
    while i < ids.len()
        invariant
            db.wf(),
            i <= ids@.len(),
            db@ == all_missed(old(db)@, ids@.take(i as int), now),
        decreases ids@.len() - i,
    {
        assert(ids@.take(i + 1).drop_last() =~= ids@.take(i as int));
        db.set_missing_since(ids[i], Some(now));
        i += 1;
    }
    assert(ids@.take(ids@.len() as int) =~= ids@);
    to_count(ids.len())
}

/// What is known at a path is what lies there.
proof fn lemma_known_at(s: Seq<PublicationView>, path: Seq<char>)
    ensures
        known_at(s, path) is Some <==> exists|k: int| 0 <= k < s.len() && lies_at(#[trigger] s[k], path),
        known_at(s, path) is Some ==> exists|k: int|
            0 <= k < s.len() && lies_at(#[trigger] s[k], path) && s[k].id == known_at(s, path)->0,
    decreases s.len(),
{
    if s.len() > 0 {
        let d = s.drop_last();
        lemma_known_at(d, path);
        if known_at(d, path) is Some {
            let k = choose|k: int|
                0 <= k < d.len() && lies_at(#[trigger] d[k], path) && d[k].id == known_at(d, path)->0;
            assert(s[k] == d[k]);
        } else {
            assert forall|k: int| 0 <= k < s.len() && lies_at(#[trigger] s[k], path) implies k == s.len()
                - 1 by {
                if k < d.len() {
                    assert(d[k] == s[k]);
                }
            }
            if lies_at(s.last(), path) {
                assert(lies_at(s[s.len() - 1], path));
            }
        }
    }
}

/// A book is new exactly where no publication lies at its path, and a known one is the
/// publication that lies there.
pub proof fn law_known_books_lie_at_their_path(db: DbView, path: Seq<char>)
    ensures
        known_at(local_shelf(db), path) is Some <==> exists|k: int|
            0 <= k < db.publications.len() && lies_at(#[trigger] db.publications[k], path),
        known_at(local_shelf(db), path) is Some ==> exists|k: int|
            0 <= k < db.publications.len() && lies_at(#[trigger] db.publications[k], path)
                && db.publications[k].id == known_at(local_shelf(db), path)->0,
{
    let local = |p: PublicationView| p.origin is LocalFile;
    let f = |p: PublicationView| bare(p);
    let rows = db.publications.filter(local);
    let shelf = local_shelf(db);
    lemma_titles_rank();
    lemma_sorted(rows.map_values(f), |a: PublicationView, b: PublicationView| title_le(a, b));
    lemma_filter_contains(db.publications, local);
    lemma_known_at(shelf, path);
    if known_at(shelf, path) is Some {
        let k = choose|k: int|
            0 <= k < shelf.len() && lies_at(#[trigger] shelf[k], path) && shelf[k].id == known_at(
                shelf,
                path,
            )->0;
        assert(shelf.contains(shelf[k]));
        assert(rows.map_values(f).contains(shelf[k]));
        let n = choose|n: int| 0 <= n < rows.len() && rows.map_values(f)[n] == shelf[k];
        assert(rows.contains(rows[n]));
        assert(db.publications.contains(rows[n]));
        let m = choose|m: int| 0 <= m < db.publications.len() && db.publications[m] == rows[n];
        assert(lies_at(db.publications[m], path));
        assert(db.publications[m].id == shelf[k].id);
    }
    assert forall|m: int| 0 <= m < db.publications.len() && lies_at(#[trigger] db.publications[m], path) implies known_at(
        shelf,
        path,
    ) is Some by {
        assert(db.publications.contains(db.publications[m]));
        assert(rows.contains(db.publications[m]));
        let n = choose|n: int| 0 <= n < rows.len() && rows[n] == db.publications[m];
        assert(rows.map_values(f)[n] == bare(db.publications[m]));
        assert(rows.map_values(f).contains(bare(db.publications[m])));
        assert(shelf.contains(bare(db.publications[m])));
        let k = choose|k: int| 0 <= k < shelf.len() && shelf[k] == bare(db.publications[m]);
        assert(lies_at(shelf[k], path));
    }
}

}
