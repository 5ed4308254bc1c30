//! The library in the API: titles are added, listed, changed and deleted.

use vstd::prelude::*;

use crate::api::error::{store_refusal, ApiError};
use crate::clock::Timestamp;
use crate::db::downloads::{all_moved, queueable};
use crate::db::listing::units_of;
use crate::db::progress::position_in;
use crate::db::publications::{
    has_category, in_category, insert_outcome, publication_of, publication_views, rollup_of, shelf_order, shown, unit_title, with_publication,
    without_publication,
};
use crate::db::units::marked;
use crate::db::{has_publication, Db, DbError, DbView};
use crate::domain::api::{PublicationDetailResponse, PublicationWithLocator, UpdatePublicationRequest};
use crate::domain::progress::Locator;
use crate::domain::publication::{DownloadState, Origin, Publication, PublicationView, ReadingUnit};
use crate::domain::source::MangaDetails;
use crate::ids::Uuid;
use crate::live_pages::LivePages;
use crate::sync::{ids_of, unit_ids};
use crate::text::debug_text;

verus! {

// ---- adding ----

/// A title that was added.
#[derive(Debug, PartialEq, Eq)]
pub struct Added {
    pub publication: Publication,
    /// Whether the download worker has to be woken.
    pub wake: bool,
}

/// What adding a source's title does: it stands in the library with its units, and these
/// are queued where the publication downloads them.
pub open spec fn add_outcome(
    before: DbView,
    origin: Origin,
    details: MangaDetails,
    auto_download: bool,
    id: Uuid,
    ids: Seq<Uuid>,
    now: Timestamp,
    after: DbView,
    r: Result<Added, ApiError>,
) -> bool {
    exists|mid: DbView, inserted: Result<Publication, DbError>|
        {
            &&& #[trigger] insert_outcome(
                before,
                origin,
                details,
                auto_download,
                id,
                ids,
                now,
                "publication already in library"@,
                mid,
                inserted,
            )
            &&& match inserted {
                Err(e) => after == mid && (r matches Err(a) && store_refusal(e, a)),
                Ok(p) => {
                    &&& r matches Ok(x) && x.publication == p && x.wake == auto_download
                    &&& after == (if auto_download {
                        DbView {
                            units: all_moved(
                                mid.units,
                                ids_of(units_of(mid.units, p.id)),
                                |d: DownloadState| queueable(d, true),
                                DownloadState::Pending,
                            ),
                            ..mid
                        }
                    } else {
                        mid
                    })
                },
            }
        }
}

/// Adds a source's title, with identifiers and a time at hand.
pub fn add_at(
    db: &mut Db,
    source_id: &str,
    details: &MangaDetails,
    auto_download: bool,
    id: Uuid,
    ids: &Vec<Uuid>,
    now: Timestamp,
) -> (r: Result<Added, ApiError>)
    requires
        old(db).wf(),
    ensures
        final(db).wf(),
        exists|origin: Origin|
            (origin matches Origin::Source { source_id: s, source_key: k } && s@ == source_id@ && k
                == details.summary.key) && #[trigger] add_outcome(
                old(db)@,
                origin,
                *details,
                auto_download,
                id,
                ids@,
                now,
                final(db)@,
                r,
            ),
{
    let inserted = db.insert_publication_at(source_id, details, auto_download, id, ids, now);
    let ghost mid = db@;
    let ghost answer = inserted;
    let ghost origin = choose|origin: Origin|
        (origin matches Origin::Source { source_id: s, source_key: k } && s@ == source_id@ && k
            == details.summary.key) && #[trigger] insert_outcome(
            old(db)@,
            origin,
            *details,
            auto_download,
            id,
            ids@,
            now,
            "publication already in library"@,
            mid,
            answer,
        );
    match inserted {
        Err(e) => {
            let r = Err(ApiError::from_db(e));
            assert(add_outcome(old(db)@, origin, *details, auto_download, id, ids@, now, db@, r));
            r
        },
        Ok(publication) => {
            if auto_download {
                let units = db.list_units(publication.id);
                let queue = unit_ids(&units);
                let _ = db.mark_pending(&queue);
            }
            let r = Ok(Added { publication, wake: auto_download });
            assert(add_outcome(old(db)@, origin, *details, auto_download, id, ids@, now, db@, r));
            r
        },
    }
}

/// Adds a source's title.
pub fn add(db: &mut Db, source_id: &str, details: &MangaDetails, auto_download: bool) -> (r: Result<
    Added,
    ApiError,
>)
    requires
        old(db).wf(),
    ensures
        final(db).wf(),
        exists|origin: Origin, id: Uuid, ids: Seq<Uuid>, now: Timestamp|
            (origin matches Origin::Source { source_id: s, source_key: k } && s@ == source_id@ && k
                == details.summary.key) && crate::ids::timely_form(id) && crate::ids::timely_forms(
                ids,
                details.chapters@.len(),
            ) && crate::clock::is_reading(now)
                && #[trigger] add_outcome(
                old(db)@,
                origin,
                *details,
                auto_download,
                id,
                ids,
                now,
                final(db)@,
                r,
            ),
{
    let id = crate::ids::fresh_id();
    let ids = crate::ids::fresh_ids(details.chapters.len());
    let now = crate::clock::utc_now();
    add_at(db, source_id, details, auto_download, id, &ids, now)
}

// ---- listing ----

/// A reader's place in a publication, and the title of the unit it is in; nobody has
/// none.
pub open spec fn place_in(db: DbView, reader: Option<Uuid>, publication_id: Uuid) -> Option<
    (Locator, Option<String>),
> {
    match reader {
        None => None,
        Some(user) => match position_in(db.journal, user, publication_id) {
            Some(l) => Some((l, unit_title(db.units, l.unit_id))),
            None => None,
        },
    }
}

/// A publication as it stands in the library's list.
pub open spec fn listed_is(
    x: PublicationWithLocator,
    db: DbView,
    reader: Option<Uuid>,
    p: PublicationView,
) -> bool {
    let sums = rollup_of(db, reader, p.id);
    let place = place_in(db, reader, p.id);
    &&& x.publication@ == p
    &&& x.locator == (match place {
        Some(l) => Some(l.0),
        None => None,
    })
    &&& x.locator_unit_title == (match place {
        Some(l) => l.1,
        None => None,
    })
    &&& x.unit_count == sums.unit_count
    &&& x.unread_count == sums.unread_count
    &&& x.downloaded_count == sums.downloaded_count
    &&& x.latest_unit_at == sums.latest_unit_at
}

/// The library in the order of its shelf.
pub open spec fn shelf(db: DbView) -> Seq<PublicationView> {
    shelf_order(db.publications.map_values(|p: PublicationView| shown(p)))
}

/// Lists the library, with sums over the units and the reader's place in each.
pub fn list(db: &Db, reader: Option<Uuid>) -> (r: Vec<PublicationWithLocator>)
    requires
        db.wf(),
    ensures
        r@.len() == shelf(db@).len(),
        forall|i: int| 0 <= i < r@.len() ==> listed_is(#[trigger] r@[i], db@, reader, shelf(db@)[i]),
{
    let mut rest = db.list_publications();
    let ghost all = rest@;
    assert(publication_views(all) == shelf(db@));
    let mut out: Vec<PublicationWithLocator> = Vec::new();
    assert(all.skip(0) =~= all);
    while rest.len() > 0
        invariant
            db.wf(),
            publication_views(all) == shelf(db@),
            out@.len() <= all.len(),
            rest@ == all.skip(out@.len() as int),
            forall|i: int|
                0 <= i < out@.len() ==> listed_is(#[trigger] out@[i], db@, reader, shelf(db@)[i]),
        decreases rest@.len(),
    {
        let ghost n = out@.len() as int;
        let publication = rest.remove(0);
        assert(publication == all[n]);
        assert(publication_views(all)[n] == publication@);
        assert(rest@ =~= all.skip(n + 1));
        let id = publication.id;
        let sums = db.library_rollup(reader, id);
        let place = match reader {
            Some(user) => db.latest_place(user, id),
            None => None,
        };
        let (locator, locator_unit_title) = match place {
            Some(l) => (Some(l.0), l.1),
            None => (None, None),
        };
        out.push(
            PublicationWithLocator {
                publication,
                locator,
                unit_count: sums.unit_count,
                unread_count: sums.unread_count,
                downloaded_count: sums.downloaded_count,
                latest_unit_at: sums.latest_unit_at,
                locator_unit_title,
            },
        );
    }
    out
}

/// A unit, with whether the reader has read it.
pub open spec fn for_reader(db: DbView, reader: Option<Uuid>, u: ReadingUnit) -> ReadingUnit {
    match reader {
        Some(user) => ReadingUnit { read: marked(db.marks, user, u.id), ..u },
        None => u,
    }
}

/// Shows one publication, with its units and the reader's place in it.
pub fn detail(db: &Db, reader: Option<Uuid>, id: Uuid) -> (r: Result<PublicationDetailResponse, ApiError>)
    requires
        db.wf(),
    ensures
        if has_publication(db@.publications, id) {
            r matches Ok(x) && {
                &&& x.publication@ == shown(publication_of(db@.publications, id))
                &&& x.units@ == units_of(db@.units, id).map_values(
                    |u: ReadingUnit| for_reader(db@, reader, u),
                )
                &&& x.locator == (match reader {
                    Some(user) => position_in(db@.journal, user, id),
                    None => None,
                })
            }
        } else {
            r == Err::<PublicationDetailResponse, ApiError>(ApiError::NotFound)
        },
{
    let publication = match db.get_publication(id) {
        Ok(p) => p,
        Err(e) => {
            return Err(ApiError::from_db(e));
        },
    };
    let mut units = db.list_units(id);
    let ghost all = units@;
    let locator = match reader {
        Some(user) => db.latest_position(user, id),
        None => None,
    };
    match reader {
        Some(user) => {
            let mut i: usize = 0;
            while i < units.len()
                invariant
                    db.wf(),
                    reader == Some(user),
                    units@.len() == all.len(),
                    i <= units@.len(),
                    forall|j: int| 0 <= j < i ==> #[trigger] units@[j] == for_reader(db@, reader, all[j]),
                    forall|j: int| i <= j < units@.len() ==> #[trigger] units@[j] == all[j],
                decreases units@.len() - i,
            {
                let mut u = units[i].clone();
                u.read = db.is_marked(user, u.id);
                units.set(i, u);
                i += 1;
            }
            assert(units@ =~= all.map_values(|u: ReadingUnit| for_reader(db@, reader, u)));
        },
        None => {
            assert(units@ =~= all.map_values(|u: ReadingUnit| for_reader(db@, reader, u)));
        },
    }
    Ok(PublicationDetailResponse { publication, units, locator })
}

// ---- changing ----

/// The tables with a publication's switch set.
pub open spec fn switched(db: DbView, id: Uuid, auto_download: bool) -> DbView {
    DbView {
        publications: with_publication(
            db.publications,
            id,
            |p: PublicationView| PublicationView { auto_download, ..p },
        ),
        ..db
    }
}

/// Changes how a publication is kept. The switch is set before the category is looked
/// at.
pub fn update(db: &mut Db, id: Uuid, req: &UpdatePublicationRequest) -> (r: Result<Publication, ApiError>)
    requires
        old(db).wf(),
    ensures
        final(db).wf(),
        if !has_publication(old(db)@.publications, id) {
            r == Err::<Publication, ApiError>(ApiError::NotFound) && final(db)@ == switched(
                old(db)@,
                id,
                req.auto_download,
            )
        } else {
            let mid = switched(old(db)@, id, req.auto_download);
            match req.category {
                None => {
                    &&& final(db)@ == mid
                    &&& r matches Ok(p) && p@ == shown(publication_of(final(db)@.publications, id))
                },
                Some(category) => if !has_category(old(db)@.categories, category@) {
                    &&& final(db)@ == mid
                    &&& r matches Err(ApiError::Unprocessable(m)) && m@ == "unknown category "@
                        + debug_text(category@)
                } else {
                    exists|c: String|
                        c@ == category@ && final(db)@ == (DbView {
                            publications: with_publication(
                                mid.publications,
                                id,
                                #[trigger] in_category(c),
                            ),
                            ..mid
                        }) && (r matches Ok(p) && p@ == shown(
                            publication_of(final(db)@.publications, id),
                        ))
                },
            }
        },
{
    let publication = match db.set_auto_download(id, req.auto_download) {
        Ok(p) => p,
        Err(e) => {
            return Err(ApiError::from_db(e));
        },
    };
    proof {
        let k = choose|k: int|
            0 <= k < old(db)@.publications.len() && (#[trigger] old(db)@.publications[k]).id == id;
        assert(db@.publications[k].id == id);
    }
    match &req.category {
        None => Ok(publication),
        Some(category) => match db.set_category(id, category.as_str()) {
            Ok(p) => Ok(p),
            Err(e) => Err(ApiError::from_db(e)),
        },
    }
}

/// Deletes a publication with all that belongs to it. Gives back its units, whose pages
/// have to go; their page lists are dropped.
pub fn delete(db: &mut Db, live: &mut LivePages, id: Uuid) -> (r: Result<Vec<Uuid>, ApiError>)
    requires
        old(db).wf(),
        old(live).wf(),
    ensures
        final(db).wf(),
        final(live).wf(),
        if has_publication(old(db)@.publications, id) {
            &&& r matches Ok(ids) && ids@ == ids_of(units_of(old(db)@.units, id))
            &&& final(db)@ == without_publication(old(db)@, id)
            &&& final(live)@ == old(live)@.remove_keys(ids_of(units_of(old(db)@.units, id)).to_set())
        } else {
            &&& r == Err::<Vec<Uuid>, ApiError>(ApiError::NotFound)
            &&& final(db)@ == old(db)@
            &&& final(live)@ == old(live)@
        },
{
    let units = db.list_units(id);
    let ids = unit_ids(&units);
    match db.delete_publication(id) {
        Ok(()) => {
            live.invalidate_many(&ids);
            Ok(ids)
        },
        Err(e) => Err(ApiError::from_db(e)),
    }
}

/// Whether the books directory may be scanned by hand: it may not where books are turned
/// off.
pub fn rescan_allowed(books_enabled: bool) -> (r: Result<(), ApiError>)
    ensures
        if books_enabled {
            r is Ok
        } else {
            r matches Err(ApiError::Unprocessable(m)) && m@ == "the books folder is disabled"@
        },
{
    if books_enabled {
        Ok(())
    } else {
        Err(ApiError::Unprocessable("the books folder is disabled".to_owned()))
    }
}

}
