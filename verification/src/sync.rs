//! Checking a publication against its source: new units are merged in, and queued where
//! the publication wants them downloaded.

use vstd::prelude::*;

use crate::clock::Timestamp;
use crate::db::downloads::{all_moved, queueable};
use crate::db::publications::{distinct_genres, with_publication};
use crate::db::units::sync_outcome;
use crate::db::{Db, DbError, DbView, UnitFileOp, UnitSync};
use crate::domain::publication::{DownloadState, Origin, PublicationView, ReadingUnit};
use crate::domain::source::MangaDetails;
use crate::ids::Uuid;
use crate::streamer::SourceError;

verus! {

/// Why a check came to nothing.
#[derive(Debug, PartialEq, Eq)]
pub enum SyncError {
    /// The publication's source is not configured.
    UnknownSource(String),
    /// The source gave nothing.
    Source(SourceError),
    /// The store refused.
    Db(DbError),
}

/// The source and the key to ask for, of a publication. Local files have none.
pub open spec fn asked_of(origin: Origin, configured: bool) -> Result<(Seq<char>, Seq<char>), Seq<char>> {
    match origin {
        Origin::LocalFile { .. } => Err("local"@),
        Origin::Source { source_id, source_key } => if configured {
            Ok((source_id@, source_key@))
        } else {
            Err(source_id@)
        },
    }
}

/// Finds the source and the key to ask for. Whether the source is configured is asked by
/// its name.
pub fn source_of(origin: &Origin, configured: bool) -> (r: Result<(String, String), SyncError>)
    ensures
        match asked_of(*origin, configured) {
            Ok((id, key)) => r matches Ok(k) && k.0@ == id && k.1@ == key,
            Err(name) => r matches Err(SyncError::UnknownSource(s)) && s@ == name,
        },
{
    match origin {
        Origin::LocalFile { .. } => Err(SyncError::UnknownSource("local".to_owned())),
        Origin::Source { source_id, source_key } => {
            if configured {
                Ok((source_id.clone(), source_key.clone()))
            } else {
                Err(SyncError::UnknownSource(source_id.clone()))
            }
        },
    }
}

/// What a check found, and what has to be done about it.
#[derive(Debug, PartialEq, Eq)]
pub struct Refreshed {
    /// The units that were not known before.
    pub new_units: Vec<ReadingUnit>,
    /// What has to be done to page directories.
    pub file_ops: Vec<UnitFileOp>,
    /// Whether units were queued, so that the download worker has to be woken.
    pub wake: bool,
}

/// The identifiers of units.
pub open spec fn ids_of(units: Seq<ReadingUnit>) -> Seq<Uuid> {
    units.map_values(|u: ReadingUnit| u.id)
}

/// Lists the identifiers of units.
pub fn unit_ids(units: &Vec<ReadingUnit>) -> (r: Vec<Uuid>)
    ensures
        r@ == ids_of(units@),
{
    let mut out: Vec<Uuid> = Vec::new();
    let mut i: usize = 0;
    while i < units.len()
        invariant
            i <= units@.len(),
            out@.len() == i,
            forall|j: int| 0 <= j < i ==> #[trigger] out@[j] == units@[j].id,
        decreases units@.len() - i,
    {
        out.push(units[i].id);
        i += 1;
    }
    assert(out@ =~= ids_of(units@));
    out
}

/// The tables after a check, beyond its units: the publication's genres and the time of
/// the check are noted, and these units queued.
pub open spec fn noted(
    db: DbView,
    id: Uuid,
    genres: Seq<String>,
    now: Timestamp,
    queue: Seq<Uuid>,
) -> DbView {
    DbView {
        publications: with_publication(
            with_publication(
                db.publications,
                id,
                |p: PublicationView| PublicationView { genres: distinct_genres(genres), ..p },
            ),
            id,
            |p: PublicationView| PublicationView { last_checked_at: Some(now), ..p },
        ),
        units: all_moved(
            db.units,
            queue,
            |d: DownloadState| queueable(d, true),
            DownloadState::Pending,
        ),
        ..db
    }
}

/// What a check does, with what the source told: the units are merged, the check noted,
/// and new units queued where the publication downloads them.
pub open spec fn refresh_outcome(
    before: DbView,
    id: Uuid,
    auto_download: bool,
    details: MangaDetails,
    ids: Seq<Uuid>,
    now: Timestamp,
    after: DbView,
    r: Result<Refreshed, SyncError>,
) -> bool {
    match r {
        Ok(x) => exists|mid: DbView, sync: UnitSync|
            {
                &&& #[trigger] sync_outcome(before, id, details.chapters@, ids, now, mid, Ok(sync))
                &&& x.new_units == sync.new_units
                &&& x.file_ops == sync.file_ops
                &&& x.wake == (auto_download && sync.new_units@.len() > 0)
                &&& after == noted(
                    mid,
                    id,
                    details.genres@,
                    now,
                    if auto_download {
                        ids_of(sync.new_units@)
                    } else {
                        Seq::empty()
                    },
                )
            },
        Err(e) => e matches SyncError::Db(d) && sync_outcome(
            before,
            id,
            details.chapters@,
            ids,
            now,
            after,
            Err(d),
        ),
    }
}

/// Queueing no units changes none.
proof fn lemma_nothing_queued(units: Seq<ReadingUnit>)
    ensures
        all_moved(
            units,
            Seq::<Uuid>::empty(),
            |d: DownloadState| queueable(d, true),
            DownloadState::Pending,
        ) == units,
{
    let p = |d: DownloadState| queueable(d, true);
    let out = all_moved(units, Seq::<Uuid>::empty(), p, DownloadState::Pending);
    assert(out =~= units);
}

/// Merges what a source told of a publication, with identifiers and a time at hand.
pub fn refresh_publication_at(
    db: &mut Db,
    id: Uuid,
    auto_download: bool,
    details: &MangaDetails,
    ids: &Vec<Uuid>,
    now: Timestamp,
) -> (r: Result<Refreshed, SyncError>)
    requires
        old(db).wf(),
    ensures
        final(db).wf(),
        refresh_outcome(old(db)@, id, auto_download, *details, ids@, now, final(db)@, r),
{
    match db.sync_units_at(id, &details.chapters, ids, now) {
        Err(e) => Err(SyncError::Db(e)),
        Ok(sync) => {
            let ghost mid = db@;
            db.set_genres(id, &details.genres);
            db.set_last_checked(id, now);
            let wake = auto_download && sync.new_units.len() > 0;
            if wake {
                let queue = unit_ids(&sync.new_units);
                let _ = db.mark_pending(&queue);
            }
            proof {
                lemma_nothing_queued(mid.units);
                if !wake && auto_download {
                    assert(ids_of(sync.new_units@) =~= Seq::<Uuid>::empty());
                }
                assert(sync_outcome(old(db)@, id, details.chapters@, ids@, now, mid, Ok(sync)));
                assert(db@ =~= noted(
                    mid,
                    id,
                    details.genres@,
                    now,
                    if auto_download {
                        ids_of(sync.new_units@)
                    } else {
                        Seq::empty()
                    },
                ));
            }
            Ok(Refreshed { new_units: sync.new_units, file_ops: sync.file_ops, wake })
        },
    }
}

/// Merges what a source told of a publication.
pub fn refresh_publication(
    db: &mut Db,
    id: Uuid,
    auto_download: bool,
    details: &MangaDetails,
) -> (r: Result<Refreshed, SyncError>)
    requires
        old(db).wf(),
    ensures
        final(db).wf(),
        exists|ids: Seq<Uuid>, now: Timestamp|
            crate::ids::timely_forms(ids, details.chapters@.len()) && crate::clock::is_reading(now) && #[trigger] refresh_outcome(
                old(db)@,
                id,
                auto_download,
                *details,
                ids,
                now,
                final(db)@,
                r,
            ),
{
    let now = crate::clock::utc_now();
    let ids = crate::ids::fresh_ids(details.chapters.len());
    refresh_publication_at(db, id, auto_download, details, &ids, now)
}

}
