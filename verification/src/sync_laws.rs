//! What a check of a publication leaves behind.

use vstd::prelude::*;

use crate::clock::Timestamp;
use crate::db::backup_laws::lemma_distinct_genres;
use crate::db::downloads::{moved, queueable};
use crate::db::plain::{no_text_twice, same_texts};
use crate::db::unit_laws::law_new_units_are_new;
use crate::db::units::{fresh_units, lemma_fresh_units, sync_outcome, synced};
use crate::db::{DbView, UnitSync};
use crate::domain::publication::{DownloadState, Origin, ReadingUnit};
use crate::domain::source::MangaDetails;
use crate::ids::Uuid;
use crate::sync::{asked_of, ids_of, noted, refresh_outcome, Refreshed};
use crate::tables::lemma_filter_contains;

verus! {

/// After a check every new unit is there: in the queue where the publication downloads what
/// is new, and else with nothing of it downloaded. The worker is woken exactly where units
/// were queued.
pub proof fn law_new_units_are_queued_where_wanted(
    before: DbView,
    id: Uuid,
    auto_download: bool,
    details: MangaDetails,
    ids: Seq<Uuid>,
    now: Timestamp,
    after: DbView,
    x: Refreshed,
    u: ReadingUnit,
)
    requires
        before.wf(),
        refresh_outcome(before, id, auto_download, details, ids, now, after, Ok(x)),
        x.new_units@.contains(u),
    ensures
        exists|v: ReadingUnit|
            {
                &&& #[trigger] after.units.contains(v)
                &&& v.id == u.id
                &&& v.publication_id == id
                &&& v.title == u.title && v.number == u.number && v.source_key == u.source_key
                &&& auto_download ==> v.download is Pending
                &&& !auto_download ==> v.download is Absent
            },
        x.wake == auto_download,
{
    let chapters = details.chapters@;
    let (mid, sync) = choose|mid: DbView, sync: UnitSync|
        {
            &&& #[trigger] sync_outcome(before, id, chapters, ids, now, mid, Ok(sync))
            &&& x.new_units == sync.new_units
            &&& x.file_ops == sync.file_ops
            &&& x.wake == (auto_download && sync.new_units@.len() > 0)
            &&& after == noted(
                mid,
                id,
                details.genres@,
                now,
                if auto_download {
                    ids_of(sync.new_units@)
                } else {
                    Seq::empty()
                },
            )
        };
    let s = synced(before, id, chapters, ids, now);
    let fresh = fresh_units(before.units, id, chapters, ids, now);
    lemma_filter_contains(fresh, |u: ReadingUnit| !s.merged.contains(u.id));
    assert(fresh.contains(u) && !s.merged.contains(u.id));
    law_new_units_are_new(before, id, chapters, ids, now, u);
    lemma_fresh_units(before.units, id, chapters, ids, now);
    let f = choose|f: int| 0 <= f < fresh.len() && fresh[f] == u;
    assert(fresh[f].download is Absent);
    let k = choose|k: int| 0 <= k < mid.units.len() && mid.units[k] == u;
    let queue = if auto_download {
        ids_of(sync.new_units@)
    } else {
        Seq::empty()
    };
    let p = |d: DownloadState| queueable(d, true);
    let v = after.units[k];
    assert(v == moved(u, queue, p, DownloadState::Pending));
    assert(after.units.contains(v));
    let n = choose|n: int| 0 <= n < x.new_units@.len() && x.new_units@[n] == u;
    if auto_download {
        assert(queue[n] == u.id);
        assert(queue.contains(u.id));
    }
}

/// A check queues nothing but what is new: every other unit is as the listing left it.
pub proof fn law_checks_queue_nothing_else(
    before: DbView,
    id: Uuid,
    auto_download: bool,
    details: MangaDetails,
    ids: Seq<Uuid>,
    now: Timestamp,
    after: DbView,
    x: Refreshed,
    v: ReadingUnit,
)
    requires
        refresh_outcome(before, id, auto_download, details, ids, now, after, Ok(x)),
        after.units.contains(v),
        forall|n: int| 0 <= n < x.new_units@.len() ==> (#[trigger] x.new_units@[n]).id != v.id,
    ensures
        synced(before, id, details.chapters@, ids, now).units.contains(v),
{
    let chapters = details.chapters@;
    let (mid, sync) = choose|mid: DbView, sync: UnitSync|
        {
            &&& #[trigger] sync_outcome(before, id, chapters, ids, now, mid, Ok(sync))
            &&& x.new_units == sync.new_units
            &&& x.file_ops == sync.file_ops
            &&& x.wake == (auto_download && sync.new_units@.len() > 0)
            &&& after == noted(
                mid,
                id,
                details.genres@,
                now,
                if auto_download {
                    ids_of(sync.new_units@)
                } else {
                    Seq::empty()
                },
            )
        };
    let queue = if auto_download {
        ids_of(sync.new_units@)
    } else {
        Seq::empty()
    };
    let p = |d: DownloadState| queueable(d, true);
    let k = choose|k: int| 0 <= k < after.units.len() && after.units[k] == v;
    assert(after.units[k] == moved(mid.units[k], queue, p, DownloadState::Pending));
    if queue.contains(v.id) {
        let n = choose|n: int| 0 <= n < queue.len() && queue[n] == v.id;
        assert(x.new_units@[n].id == v.id);
    }
    assert(mid.units[k] == v);
}

/// A check is noted on its publication: it has the genres that the source told, each once,
/// and was checked now. Nothing else of it changes, and no other publication does.
pub proof fn law_checks_are_noted(
    before: DbView,
    id: Uuid,
    auto_download: bool,
    details: MangaDetails,
    ids: Seq<Uuid>,
    now: Timestamp,
    after: DbView,
    x: Refreshed,
    k: int,
)
    requires
        refresh_outcome(before, id, auto_download, details, ids, now, after, Ok(x)),
        0 <= k < before.publications.len(),
    ensures
        after.publications.len() == before.publications.len(),
        before.publications[k].id != id ==> after.publications[k] == before.publications[k],
        before.publications[k].id == id ==> {
            let p = before.publications[k];
            let q = after.publications[k];
            &&& q.last_checked_at == Some(now)
            &&& same_texts(q.genres, details.genres@) && no_text_twice(q.genres)
            &&& q.id == p.id && q.kind == p.kind && q.origin == p.origin && q.title == p.title
            &&& q.description == p.description && q.cover_url == p.cover_url && q.auto_download
                == p.auto_download
            &&& q.category == p.category && q.added_at == p.added_at && q.missing_since
                == p.missing_since
        },
{
    lemma_distinct_genres(details.genres@);
}

/// A local file is asked of no source; a title of a source is asked of that source under its
/// key, where the source is configured.
pub proof fn law_titles_are_asked_of_their_source(origin: Origin, configured: bool)
    ensures
        asked_of(origin, configured) is Ok <==> origin is Source && configured,
        origin matches Origin::Source { source_id, source_key } ==> {
            &&& configured ==> asked_of(origin, configured) == Ok::<(Seq<char>, Seq<char>), Seq<char>>(
                (source_id@, source_key@),
            )
            &&& !configured ==> asked_of(origin, configured) == Err::<
                (Seq<char>, Seq<char>),
                Seq<char>,
            >(source_id@)
        },
{
}

}
