//! Units in the API: they are queued, removed, marked, and their pages found on disk or
//! at the source.

use vstd::prelude::*;

use crate::api::error::ApiError;
use crate::clock::Timestamp;
use crate::db::downloads::{all_moved, downloaded_of, moved_count, queueable};
use crate::db::plain::{alike_but_for_states, differing, unit_there};
use crate::db::listing::{counted, unit_with};
use crate::db::read_marks::{first_unknown, with_marks, without_marks};
use crate::db::{has_unit, Db, DbView};
use crate::domain::api::{BulkUnitsResponse, MarkUnitsRequest, PagesResponse};
use crate::domain::publication::{DownloadState, Origin, ReadingUnit};
use crate::downloader::page_files;
use crate::ids::{hyphenated_text, Uuid};
use crate::live_pages::{kept, LivePages, LiveView};
use crate::notifier::{fits_header, header_value};
use crate::order::{lexical, sorted};
use crate::tables::{count32, to_count};

verus! {

// ---- downloads ----

/// A unit that is on disk, or on its way there.
pub open spec fn underway(d: DownloadState) -> bool {
    d is Downloaded || d is Downloading || d is Pending
}

/// The answer to a request for a download.
#[derive(Debug, PartialEq, Eq)]
pub struct Enqueued {
    /// 200 where nothing had to be done, 202 where the unit was queued.
    pub status: u16,
    pub unit: ReadingUnit,
    /// Whether the download worker has to be woken.
    pub wake: bool,
}

/// Queues one unit for download. One that is on disk or on its way is left as it is.
pub fn download(db: &mut Db, id: Uuid) -> (r: Result<Enqueued, ApiError>)
    requires
        old(db).wf(),
    ensures
        final(db).wf(),
        if !has_unit(old(db)@.units, id) {
            r == Err::<Enqueued, ApiError>(ApiError::NotFound) && final(db)@ == old(db)@
        } else if underway(unit_with(old(db)@.units, id).download) {
            &&& r matches Ok(x) && x.status == 200 && x.unit == unit_with(old(db)@.units, id) && !x.wake
            &&& final(db)@ == old(db)@
        } else {
            &&& final(db)@ == (DbView {
                units: all_moved(
                    old(db)@.units,
                    seq![id],
                    |d: DownloadState| queueable(d, true),
                    DownloadState::Pending,
                ),
                ..old(db)@
            })
            &&& r matches Ok(x) && x.status == 202 && x.unit == unit_with(final(db)@.units, id) && x.wake
        },
        r is Err <==> !unit_there(old(db)@.units, id),
        r is Ok ==> final(db)@.units.contains(r->Ok_0.unit) && r->Ok_0.unit.id == id,
        r is Ok && r->Ok_0.status == 202 ==> r->Ok_0.unit.download is Pending,
        r is Ok && r->Ok_0.status != 202 ==> r->Ok_0.unit.download is Downloaded
            || r->Ok_0.unit.download is Downloading || r->Ok_0.unit.download is Pending,
        r is Ok ==> (r->Ok_0.status == 202 <==> exists|k: int|
            0 <= k < old(db)@.units.len() && (#[trigger] old(db)@.units[k]).id == id && (
            old(db)@.units[k].download is Absent || old(db)@.units[k].download is Failed
                || old(db)@.units[k].download is Unavailable)),
{
    let unit = match db.get_unit(id) {
        Ok(u) => u,
        Err(e) => {
            assert(!unit_there(db@.units, id));
            return Err(ApiError::from_db(e));
        },
    };
    proof {
        let k = choose|k: int| 0 <= k < db@.units.len() && (#[trigger] db@.units[k]).id == id;
        assert(db@.units.contains(db@.units[k]));
    }
    let settled = match unit.download {
        DownloadState::Downloaded { .. } => true,
        DownloadState::Downloading => true,
        DownloadState::Pending => true,
        _ => false,
    };
    if settled {
        return Ok(Enqueued { status: 200, unit, wake: false });
    }
    let mut ids: Vec<Uuid> = Vec::new();
    ids.push(id);
    assert(ids@ =~= seq![id]);
    let ghost before = db@.units;
    let _ = db.mark_pending(&ids);
    proof {
        let k = choose|k: int| 0 <= k < before.len() && (#[trigger] before[k]).id == id;
        assert(db@.units[k].id == id);
        let j = choose|j: int| 0 <= j < db@.units.len() && (#[trigger] db@.units[j]).id == id;
        assert(j == k);
        assert(before.contains(before[k]) && db@.units.contains(db@.units[k]));
        assert(has_unit(db@.units, id));
        assert(ids@[0] == id);
        assert(db@.units[k].download is Pending);
    }
    match db.get_unit(id) {
        Ok(unit) => Ok(Enqueued { status: 202, unit, wake: true }),
        Err(e) => Err(ApiError::from_db(e)),
    }
}

/// Queues units for download. Says how many, and whether the worker has to be woken.
pub fn download_many(db: &mut Db, unit_ids: &Vec<Uuid>) -> (r: (BulkUnitsResponse, bool))
    requires
        old(db).wf(),
    ensures
        final(db).wf(),
        final(db)@ == (DbView {
            units: all_moved(
                old(db)@.units,
                unit_ids@,
                |d: DownloadState| queueable(d, true),
                DownloadState::Pending,
            ),
            ..old(db)@
        }),
        r.0.affected == count32(
            moved_count(old(db)@.units, unit_ids@, |d: DownloadState| queueable(d, true)),
        ),
        r.1 == (r.0.affected > 0),
        alike_but_for_states(old(db)@.units, final(db)@.units),
        forall|i: int|
            0 <= i < old(db)@.units.len() ==> if unit_ids@.contains(old(db)@.units[i].id) && (old(db)@.units[i].download is Absent || old(db)@.units[i].download is Failed || old(db)@.units[i].download is Unavailable) {
                (#[trigger] final(db)@.units[i]).download is Pending
            } else {
                final(db)@.units[i] == old(db)@.units[i]
            },
        r.0.affected == count32(differing(old(db)@.units, final(db)@.units) as int),
{
    let affected = db.mark_pending(unit_ids);
    (BulkUnitsResponse { affected }, affected > 0)
}

/// Removes the copies of units. Says how many, and gives the units whose directories
/// have to go. Their page lists are dropped.
pub fn remove_downloads(db: &mut Db, live: &mut LivePages, unit_ids: &Vec<Uuid>) -> (r: (
    BulkUnitsResponse,
    Vec<Uuid>,
))
    requires
        old(db).wf(),
        old(live).wf(),
    ensures
        final(db).wf(),
        final(live).wf(),
        final(db)@ == (DbView {
            units: all_moved(
                old(db)@.units,
                unit_ids@,
                |d: DownloadState| d is Downloaded,
                DownloadState::Absent,
            ),
            ..old(db)@
        }),
        r.1@ == downloaded_of(old(db)@.units, unit_ids@),
        r.0.affected == count32(r.1@.len() as int),
        final(live)@ == old(live)@.remove_keys(r.1@.to_set()),
        alike_but_for_states(old(db)@.units, final(db)@.units),
        forall|i: int|
            0 <= i < old(db)@.units.len() ==> if unit_ids@.contains(old(db)@.units[i].id) && (old(db)@.units[i].download is Downloaded) {
                (#[trigger] final(db)@.units[i]).download is Absent
            } else {
                final(db)@.units[i] == old(db)@.units[i]
            },
{
    let removed = db.remove_downloads(unit_ids);
    live.invalidate_many(&removed);
    let affected = to_count(removed.len());
    (BulkUnitsResponse { affected }, removed)
}

/// Marks units read, or unread, for a reader.
pub fn mark(db: &mut Db, user_id: Uuid, req: &MarkUnitsRequest, now: Timestamp) -> (r: Result<
    BulkUnitsResponse,
    ApiError,
>)
    requires
        old(db).wf(),
    ensures
        final(db).wf(),
        if !req.read {
            &&& final(db)@ == (DbView {
                marks: without_marks(old(db)@.marks, user_id, req.unit_ids@),
                ..old(db)@
            })
            &&& r matches Ok(x) && x.affected == count32(
                old(db)@.marks.len() - final(db)@.marks.len(),
            )
        } else {
            match first_unknown(old(db)@.units, req.unit_ids@) {
                None => {
                    &&& final(db)@ == (DbView {
                        marks: with_marks(old(db)@.marks, user_id, req.unit_ids@, now),
                        ..old(db)@
                    })
                    &&& r matches Ok(x) && x.affected == count32(
                        final(db)@.marks.len() - old(db)@.marks.len(),
                    )
                },
                Some(id) => {
                    &&& final(db)@ == old(db)@
                    &&& r matches Err(ApiError::Unprocessable(m)) && m@ == "unknown chapter "@
                        + hyphenated_text(id)
                },
            }
        },
{
    if req.read {
        match db.mark_read_at(user_id, &req.unit_ids, now) {
            Ok(affected) => Ok(BulkUnitsResponse { affected }),
            Err(e) => Err(ApiError::from_db(e)),
        }
    } else {
        let affected = db.mark_unread(user_id, &req.unit_ids);
        Ok(BulkUnitsResponse { affected })
    }
}

// ---- pages ----

/// The files that a unit is read from, by what lies in its directory: none where it is
/// not downloaded, or its directory is gone or empty. It is then read live.
pub open spec fn stored_files(unit: ReadingUnit, files: Option<Seq<String>>) -> Option<Seq<String>> {
    match files {
        Some(names) => if unit.download is Downloaded && names.len() > 0 {
            Some(sorted(names, |a: String, b: String| lexical(a@, b@)))
        } else {
            None
        },
        None => None,
    }
}

/// Finds the files that a unit is read from, in reading order.
pub fn downloaded_files(unit: &ReadingUnit, files: Option<Vec<String>>) -> (r: Option<Vec<String>>)
    ensures
        match stored_files(
            *unit,
            match files {
                Some(f) => Some(f@),
                None => None,
            },
        ) {
            Some(names) => r matches Some(f) && f@ == names,
            None => r is None,
        },
{
    let downloaded = match unit.download {
        DownloadState::Downloaded { .. } => true,
        _ => false,
    };
    match files {
        Some(names) => {
            if downloaded && names.len() > 0 {
                Some(page_files(names))
            } else {
                None
            }
        },
        None => None,
    }
}

/// Where a unit is read live from.
#[derive(Debug, PartialEq, Eq)]
pub enum LiveSource {
    /// The books directory.
    Books,
    /// This source.
    Source(String),
}

/// Finds where a unit is read live from. Whether its source is configured is asked by
/// its name.
pub fn live_source(origin: &Origin, configured: bool) -> (r: Result<LiveSource, ApiError>)
    ensures
        match origin {
            Origin::LocalFile { .. } => r == Ok::<LiveSource, ApiError>(LiveSource::Books),
            Origin::Source { source_id, .. } => if configured {
                r == Ok::<LiveSource, ApiError>(LiveSource::Source(*source_id))
            } else {
                r matches Err(ApiError::Unprocessable(m)) && m@ == "source no longer configured"@
            },
        },
{
    match origin {
        Origin::LocalFile { .. } => Ok(LiveSource::Books),
        Origin::Source { source_id, .. } => {
            if configured {
                Ok(LiveSource::Source(source_id.clone()))
            } else {
                Err(ApiError::Unprocessable("source no longer configured".to_owned()))
            }
        },
    }
}

/// Keeps the page list that a source gave for a unit, and notes how many pages it has.
pub fn pages_resolved(db: &mut Db, live: &mut LivePages, unit_id: Uuid, urls: Vec<String>, now: u64)
    requires
        old(db).wf(),
        old(live).wf(),
    ensures
        final(db).wf(),
        final(live).wf(),
        final(db)@ == (DbView {
            units: old(db)@.units.map_values(
                |u: ReadingUnit| counted(u, unit_id, count32(urls@.len() as int)),
            ),
            ..old(db)@
        }),
        kept(old(live)@, final(live)@, unit_id, LiveView { urls: urls@, resolved_at: now }),
{
    db.set_page_count(unit_id, to_count(urls.len()));
    live.put(unit_id, urls, now);
}

/// How many pages a unit has for a reader: of its files, where it is read from disk, and
/// otherwise of its page list.
pub fn page_count(unit_id: Uuid, files: &Option<Vec<String>>, urls: &Vec<String>) -> (r: PagesResponse)
    ensures
        r == (match files {
            Some(f) => PagesResponse {
                unit_id,
                page_count: count32(f@.len() as int),
                downloaded: true,
            },
            None => PagesResponse {
                unit_id,
                page_count: count32(urls@.len() as int),
                downloaded: false,
            },
        }),
{
    match files {
        Some(f) => PagesResponse { unit_id, page_count: to_count(f.len()), downloaded: true },
        None => PagesResponse { unit_id, page_count: to_count(urls.len()), downloaded: false },
    }
}

/// A page of a list, by its place.
pub fn page_at(list: &Vec<String>, n: u32) -> (r: Result<String, ApiError>)
    ensures
        if n < list@.len() {
            r == Ok::<String, ApiError>(list@[n as int])
        } else {
            r == Err::<String, ApiError>(ApiError::NotFound)
        },
{
    if (n as usize) < list.len() {
        Ok(list[n as usize].clone())
    } else {
        Err(ApiError::NotFound)
    }
}

/// Decides what follows when a page could not be fetched. A source's page list may hold
/// addresses that expired, so it is dropped and asked for again, once; books are not
/// asked again.
pub fn page_failed(live: &mut LivePages, unit_id: Uuid, from: &LiveSource, asked_again: bool) -> (r: bool)
    requires
        old(live).wf(),
    ensures
        final(live).wf(),
        r == (from is Source && !asked_again),
        final(live)@ == (if r {
            old(live)@.remove(unit_id)
        } else {
            old(live)@
        }),
{
    match from {
        LiveSource::Books => false,
        LiveSource::Source(_) => {
            if asked_again {
                false
            } else {
                live.invalidate(unit_id);
                true
            }
        },
    }
}

/// How a page's answer is cached.
pub const PAGE_CACHE: &'static str = "private, max-age=3600";

/// The content type of a page's answer: what came with it, where that can be a header.
pub fn image_content_type(content_type: String) -> (r: String)
    ensures
        r@ == (if header_value(content_type@) {
            content_type@
        } else {
            "image/jpeg"@
        }),
{
    if fits_header(content_type.as_str()) {
        content_type
    } else {
        "image/jpeg".to_owned()
    }
}

}
