//! The download queue, as readers see it.

use vstd::prelude::*;

use crate::db::downloads::{all_moved, dismissable, downloaded_pages, moved_count, queue_of};
use crate::db::plain::{alike_but_for_states, differing};
use crate::db::publications::publication_of;
use crate::db::{has_publication, Db, DbView};
use crate::domain::api::{BulkUnitsResponse, DownloadProgress, DownloadQueueEntry, DownloadUnitsRequest, DownloadsResponse};
use crate::domain::publication::{DownloadState, ReadingUnit};
use crate::downloader::ActiveDownload;
use crate::ids::Uuid;
use crate::tables::count32;

verus! {

/// How far a unit has come, where it is the one being fetched.
pub open spec fn progress_of(active: Option<ActiveDownload>, unit_id: Uuid) -> Option<DownloadProgress> {
    match active {
        Some(a) => if a.unit_id == unit_id {
            Some(DownloadProgress { page: a.page, total: a.total })
        } else {
            None
        },
        None => None,
    }
}

/// A unit as it stands in the queue.
pub open spec fn queue_entry_is(
    x: DownloadQueueEntry,
    db: DbView,
    active: Option<ActiveDownload>,
    u: ReadingUnit,
) -> bool {
    &&& x.unit_id == u.id
    &&& x.publication_id == u.publication_id
    &&& x.publication_title == publication_of(db.publications, u.publication_id).title
    &&& x.unit_title == u.title
    &&& x.state == u.download
    &&& x.progress == progress_of(active, u.id)
}

/// Lists the queue with the publications' titles and the progress of the unit that is
/// being fetched, and sums up what is on disk.
pub fn list(db: &Db, active: Option<ActiveDownload>) -> (r: DownloadsResponse)
    requires
        db.wf(),
    ensures
        r.queue@.len() == queue_of(db@.units).len(),
        forall|i: int|
            0 <= i < r.queue@.len() ==> queue_entry_is(
                #[trigger] r.queue@[i],
                db@,
                active,
                queue_of(db@.units)[i],
            ),
        r.server_downloaded_chapters == count32(
            db@.units.filter(|u: ReadingUnit| u.download is Downloaded).len() as int,
        ),
        r.server_downloaded_pages == count32(downloaded_pages(db@.units)),
{
    let units = db.download_queue();
    proof {
        crate::db::downloads::lemma_queue_of_units(db@.units);
    }
    let mut queue: Vec<DownloadQueueEntry> = Vec::new();
    let mut i: usize = 0;
    while i < units.len()
        invariant
            db.wf(),
            units@ == queue_of(db@.units),
            forall|j: int| 0 <= j < units@.len() ==> db@.units.contains(#[trigger] units@[j]),
            i <= units@.len(),
            queue@.len() == i,
            forall|j: int|
                0 <= j < i ==> queue_entry_is(#[trigger] queue@[j], db@, active, units@[j]),
        decreases units@.len() - i,
    {
        let u = &units[i];
        proof {
            assert(db@.units.contains(units@[i as int]));
            let k = choose|k: int| 0 <= k < db@.units.len() && db@.units[k] == units@[i as int];
            assert(has_publication(db@.publications, db@.units[k].publication_id));
        }
        let title = match db.publication_title(u.publication_id) {
            Some(t) => t,
            None => String::new(),
        };
        let progress = match active {
            Some(a) => {
                if a.unit_id == u.id {
                    Some(DownloadProgress { page: a.page, total: a.total })
                } else {
                    None
                }
            },
            None => None,
        };
        queue.push(
            DownloadQueueEntry {
                unit_id: u.id,
                publication_id: u.publication_id,
                publication_title: title,
                unit_title: u.title.clone(),
                state: u.download.clone(),
                progress,
            },
        );
        i += 1;
    }
    let (server_downloaded_chapters, server_downloaded_pages) = db.downloaded_summary();
    DownloadsResponse { queue, server_downloaded_chapters, server_downloaded_pages }
}

/// Puts failed units back into the queue. Says how many, and whether the worker has to be
/// woken.
pub fn retry(db: &mut Db, req: &DownloadUnitsRequest) -> (r: (BulkUnitsResponse, bool))
    requires
        old(db).wf(),
    ensures
        final(db).wf(),
        final(db)@ == (DbView {
            units: all_moved(
                old(db)@.units,
                req.unit_ids@,
                |d: DownloadState| d is Failed,
                DownloadState::Pending,
            ),
            ..old(db)@
        }),
        r.0.affected == count32(
            moved_count(old(db)@.units, req.unit_ids@, |d: DownloadState| d is Failed),
        ),
        r.1 == (r.0.affected > 0),
        alike_but_for_states(old(db)@.units, final(db)@.units),
        forall|i: int|
            0 <= i < old(db)@.units.len() ==> if req.unit_ids@.contains(old(db)@.units[i].id) && (old(db)@.units[i].download is Failed) {
                (#[trigger] final(db)@.units[i]).download is Pending
            } else {
                final(db)@.units[i] == old(db)@.units[i]
            },
        r.0.affected == count32(differing(old(db)@.units, final(db)@.units) as int),
{
    let affected = db.retry_failed(&req.unit_ids);
    (BulkUnitsResponse { affected }, affected > 0)
}

/// Takes units that wait or failed out of the queue. Says how many.
pub fn dismiss(db: &mut Db, req: &DownloadUnitsRequest) -> (r: BulkUnitsResponse)
    requires
        old(db).wf(),
    ensures
        final(db).wf(),
        final(db)@ == (DbView {
            units: all_moved(
                old(db)@.units,
                req.unit_ids@,
                |d: DownloadState| dismissable(d),
                DownloadState::Absent,
            ),
            ..old(db)@
        }),
        r.affected == count32(
            moved_count(old(db)@.units, req.unit_ids@, |d: DownloadState| dismissable(d)),
        ),
        alike_but_for_states(old(db)@.units, final(db)@.units),
        forall|i: int|
            0 <= i < old(db)@.units.len() ==> if req.unit_ids@.contains(old(db)@.units[i].id) && (old(db)@.units[i].download is Pending || old(db)@.units[i].download is Failed || old(db)@.units[i].download is Unavailable) {
                (#[trigger] final(db)@.units[i]).download is Absent
            } else {
                final(db)@.units[i] == old(db)@.units[i]
            },
        r.affected == count32(differing(old(db)@.units, final(db)@.units) as int),
{
    BulkUnitsResponse { affected: db.dismiss_downloads(&req.unit_ids) }
}

}
