//! What becomes of units as they are queued, taken, finished, dismissed and removed.

use vstd::prelude::*;

use crate::clock::Timestamp;
use crate::db::downloads::{
    all_finished, all_moved, dismissable, downloaded_of, downloaded_pages, in_queue, is_downloaded, lemma_turns_rank, moved,
    moved_count, queue_le, queue_of, queueable, turn_le, waiting_of, DownloadFailure,
};
use crate::db::plain::{alike_but_for_states, differing, sooner};
use crate::domain::publication::{DownloadState, ReadingUnit};
use crate::ids::Uuid;
use crate::order::{lemma_sorted, lemma_sorted_len};
use crate::tables::{lemma_filter_contains};

verus! {

/// A move changes as many rows as it counts.
pub(crate) proof fn lemma_move(
    units: Seq<ReadingUnit>,
    ids: Seq<Uuid>,
    p: spec_fn(DownloadState) -> bool,
    to: DownloadState,
)
    requires
        !p(to),
    ensures
        alike_but_for_states(units, all_moved(units, ids, p, to)),
        differing(units, all_moved(units, ids, p, to)) == moved_count(units, ids, p),
    decreases units.len(),
{
    reveal(Seq::filter);
    if units.len() > 0 {
        lemma_move(units.drop_last(), ids, p, to);
        let after = all_moved(units, ids, p, to);
        assert(after.drop_last() =~= all_moved(units.drop_last(), ids, p, to));
        assert(after.last() == moved(units.last(), ids, p, to));
    }
}

/// A reader who asks for units gets those that are not there, that failed or that the
/// source did not offer into the queue; the others, and the units that were not asked for,
/// stay as they are. As many are counted as change.
pub proof fn law_asking_queues(units: Seq<ReadingUnit>, ids: Seq<Uuid>, i: int)
    requires
        0 <= i < units.len(),
    ensures
        ({
            let p = |d: DownloadState| queueable(d, true);
            let after = all_moved(units, ids, p, DownloadState::Pending);
            let d = units[i].download;
            &&& alike_but_for_states(units, after)
            &&& if ids.contains(units[i].id) && (d is Absent || d is Failed || d is Unavailable) {
                after[i].download is Pending
            } else {
                after[i] == units[i]
            }
            &&& moved_count(units, ids, p) == differing(units, after)
        }),
{
    lemma_move(units, ids, |d: DownloadState| queueable(d, true), DownloadState::Pending);
}

/// Units that nobody asked for by name get into the queue where they are not there or
/// failed; one that the source does not offer does not. The others stay as they are. As
/// many are counted as change.
pub proof fn law_checks_queue(units: Seq<ReadingUnit>, ids: Seq<Uuid>, i: int)
    requires
        0 <= i < units.len(),
    ensures
        ({
            let p = |d: DownloadState| queueable(d, false);
            let after = all_moved(units, ids, p, DownloadState::Pending);
            let d = units[i].download;
            &&& alike_but_for_states(units, after)
            &&& if ids.contains(units[i].id) && (d is Absent || d is Failed) {
                after[i].download is Pending
            } else {
                after[i] == units[i]
            }
            &&& moved_count(units, ids, p) == differing(units, after)
        }),
{
    lemma_move(units, ids, |d: DownloadState| queueable(d, false), DownloadState::Pending);
}

/// Retrying puts the named units that failed into the queue, and nothing else.
pub proof fn law_retrying_queues_failures(units: Seq<ReadingUnit>, ids: Seq<Uuid>, i: int)
    requires
        0 <= i < units.len(),
    ensures
        ({
            let p = |d: DownloadState| d is Failed;
            let after = all_moved(units, ids, p, DownloadState::Pending);
            &&& alike_but_for_states(units, after)
            &&& if ids.contains(units[i].id) && units[i].download is Failed {
                after[i].download is Pending
            } else {
                after[i] == units[i]
            }
            &&& moved_count(units, ids, p) == differing(units, after)
        }),
{
    lemma_move(units, ids, |d: DownloadState| d is Failed, DownloadState::Pending);
}

/// Dismissing takes the named units that wait, that failed or that the source did not offer
/// out of the queue; one that is on its way or downloaded stays.
pub proof fn law_dismissing_empties_the_queue(units: Seq<ReadingUnit>, ids: Seq<Uuid>, i: int)
    requires
        0 <= i < units.len(),
    ensures
        ({
            let p = |d: DownloadState| dismissable(d);
            let after = all_moved(units, ids, p, DownloadState::Absent);
            let d = units[i].download;
            &&& alike_but_for_states(units, after)
            &&& if ids.contains(units[i].id) && (d is Pending || d is Failed || d is Unavailable) {
                after[i].download is Absent
            } else {
                after[i] == units[i]
            }
            &&& moved_count(units, ids, p) == differing(units, after)
        }),
{
    lemma_move(units, ids, |d: DownloadState| dismissable(d), DownloadState::Absent);
}

/// Removing takes the copies of the named units that are downloaded, and of no others; what
/// else is known of them stays, their page counts too. The identifiers that come back are
/// those of the removed copies, each once.
pub proof fn law_removing_takes_copies(units: Seq<ReadingUnit>, ids: Seq<Uuid>, i: int, id: Uuid)
    requires
        0 <= i < units.len(),
    ensures
        ({
            let p = |d: DownloadState| d is Downloaded;
            let after = all_moved(units, ids, p, DownloadState::Absent);
            &&& alike_but_for_states(units, after)
            &&& if ids.contains(units[i].id) && units[i].download is Downloaded {
                after[i].download is Absent
            } else {
                after[i] == units[i]
            }
        }),
        downloaded_of(units, ids).contains(id) <==> ids.contains(id) && exists|k: int|
            0 <= k < units.len() && (#[trigger] units[k]).id == id && units[k].download is Downloaded,
        downloaded_of(units, ids).no_duplicates(),
{
    lemma_move(units, ids, |d: DownloadState| d is Downloaded, DownloadState::Absent);
    lemma_downloaded_of(units, ids, id);
}

/// Which identifiers are those of downloaded units.
proof fn lemma_downloaded_of(units: Seq<ReadingUnit>, ids: Seq<Uuid>, id: Uuid)
    ensures
        downloaded_of(units, ids).contains(id) <==> ids.contains(id) && is_downloaded(units, id),
        downloaded_of(units, ids).no_duplicates(),
    decreases ids.len(),
{
    if ids.len() > 0 {
        let init = ids.drop_last();
        let x = ids.last();
        lemma_downloaded_of(units, init, id);
        lemma_downloaded_of(units, init, x);
        let before = downloaded_of(units, init);
        let out = downloaded_of(units, ids);
        assert(ids[ids.len() - 1] == x);
        assert(ids =~= init.push(x));
        assert(ids.contains(id) <==> init.contains(id) || id == x) by {
            if init.contains(id) {
                let k = choose|k: int| 0 <= k < init.len() && init[k] == id;
                assert(ids[k] == id);
            }
            if ids.contains(id) && id != x {
                let k = choose|k: int| 0 <= k < ids.len() && ids[k] == id;
                assert(init[k] == id);
            }
        }
        if is_downloaded(units, x) && !before.contains(x) {
            assert(out.contains(id) <==> before.contains(id) || id == x) by {
                assert(out[before.len() as int] == x);
                if before.contains(id) {
                    let k = choose|k: int| 0 <= k < before.len() && before[k] == id;
                    assert(out[k] == id);
                }
                if out.contains(id) && id != x {
                    let k = choose|k: int| 0 <= k < out.len() && out[k] == id;
                    assert(before[k] == id);
                }
            }
            assert forall|a: int, b: int| 0 <= a < out.len() && 0 <= b < out.len() && a != b implies out[a]
                != out[b] by {
                if a < before.len() && b < before.len() {
                    assert(before[a] != before[b]);
                } else if a < before.len() {
                    assert(before.contains(before[a]));
                } else if b < before.len() {
                    assert(before.contains(before[b]));
                }
            }
        }
    }
}

/// A download that went well leaves its unit downloaded, from that time on, with as many
/// pages as came; one that did not says why, and leaves the pages as they were known. Other
/// units, and what else is known of this one, stay as they are.
pub proof fn law_finishing_settles_the_unit(
    units: Seq<ReadingUnit>,
    id: Uuid,
    outcome: Result<u32, DownloadFailure>,
    now: Timestamp,
    i: int,
)
    requires
        0 <= i < units.len(),
    ensures
        ({
            let after = all_finished(units, id, outcome, now);
            let u = units[i];
            let v = after[i];
            &&& after.len() == units.len()
            &&& v.id == u.id && v.publication_id == u.publication_id && v.source_key == u.source_key
            &&& v.title == u.title && v.number == u.number && v.source_order == u.source_order
            &&& v.scanlator == u.scanlator && v.fetched_at == u.fetched_at
            &&& v.published_at == u.published_at
            &&& u.id != id ==> v == u
            &&& u.id == id ==> match outcome {
                Ok(pages) => v.page_count == Some(pages) && v.download == (DownloadState::Downloaded {
                    at: now,
                }),
                Err(DownloadFailure::Failed(why)) => v.page_count == u.page_count && v.download == (
                DownloadState::Failed { at: now, reason: why }),
                Err(DownloadFailure::Unavailable(why)) => v.page_count == u.page_count && v.download == (
                DownloadState::Unavailable { at: now, reason: why }),
            }
        }),
{
}

/// The worker's turn: of two units, the one seen first; of two seen at once, the one with
/// the smaller number, and a numbered one before one without.
pub open spec fn takes_precedence(a: ReadingUnit, b: ReadingUnit) -> bool {
    sooner(a.fetched_at, b.fetched_at) || (a.fetched_at == b.fetched_at && match (a.number, b.number) {
        (Some(x), Some(y)) => x.rank < y.rank,
        (Some(_), None) => true,
        _ => false,
    })
}

/// The worker takes a waiting unit, where there is one, and no waiting unit has precedence
/// over it.
pub proof fn law_the_worker_takes_the_first_in_line(units: Seq<ReadingUnit>, k: int)
    requires
        0 <= k < units.len(),
        units[k].download is Pending,
    ensures
        ({
            let w = waiting_of(units);
            &&& w.len() > 0
            &&& units.contains(w[0])
            &&& w[0].download is Pending
            &&& !takes_precedence(units[k], w[0])
        }),
{
    let p = |u: ReadingUnit| u.download is Pending;
    let le = |a: ReadingUnit, b: ReadingUnit| turn_le(a, b);
    let kept = units.filter(p);
    let w = waiting_of(units);
    lemma_turns_rank();
    lemma_filter_contains(units, p);
    lemma_sorted(kept, le);
    assert(units.contains(units[k]));
    assert(kept.contains(units[k]));
    crate::order::lemma_sorted_multiset(kept, le);
    lemma_same_members(kept, w);
    assert(w.contains(units[k]));
    let j = choose|j: int| 0 <= j < w.len() && w[j] == units[k];
    assert(w.contains(w[0]));
    if j > 0 {
        assert(le(w[0], w[j]));
    }
}

/// The worker takes nothing where nothing waits.
pub proof fn law_the_worker_rests(units: Seq<ReadingUnit>)
    requires
        forall|k: int| 0 <= k < units.len() ==> !((#[trigger] units[k]).download is Pending),
    ensures
        waiting_of(units).len() == 0,
{
    let p = |u: ReadingUnit| u.download is Pending;
    let le = |a: ReadingUnit, b: ReadingUnit| turn_le(a, b);
    lemma_filter_contains(units, p);
    let kept = units.filter(p);
    if kept.len() > 0 {
        assert(kept.contains(kept[0]));
        assert(units.contains(kept[0]));
    }
    lemma_sorted_len(kept, le);
}

/// Sequences with the same items of each kind have the same members.
proof fn lemma_same_members(a: Seq<ReadingUnit>, b: Seq<ReadingUnit>)
    requires
        a.to_multiset() =~= b.to_multiset(),
    ensures
        forall|x: ReadingUnit| #[trigger] a.contains(x) <==> b.contains(x),
{
    broadcast use vstd::seq_lib::group_to_multiset_ensures;
    assert forall|x: ReadingUnit| #[trigger] a.contains(x) <==> b.contains(x) by {
        assert(a.contains(x) <==> a.to_multiset().count(x) > 0);
        assert(b.contains(x) <==> b.to_multiset().count(x) > 0);
    }
}

/// The queue holds the units that are on their way, that wait, that failed and that the
/// source does not offer, and no others.
pub proof fn law_the_queue_holds_what_is_unsettled(units: Seq<ReadingUnit>, u: ReadingUnit)
    ensures
        queue_of(units).contains(u) <==> units.contains(u) && (u.download is Downloading
            || u.download is Pending || u.download is Failed || u.download is Unavailable),
{
    let p = |u: ReadingUnit| in_queue(u);
    let le = |a: ReadingUnit, b: ReadingUnit| queue_le(a, b);
    lemma_turns_rank();
    lemma_filter_contains(units, p);
    crate::order::lemma_sorted_multiset(units.filter(p), le);
    lemma_same_members(units.filter(p), queue_of(units));
    assert(units.filter(p).contains(u) <==> units.contains(u) && p(u));
}

/// In the queue what is on its way comes first, then what waits, then what failed, and what
/// the source does not offer comes last; within each, a unit that has precedence with the
/// worker comes before the one that it has it over.
pub proof fn law_the_queue_is_in_order(units: Seq<ReadingUnit>, i: int, j: int)
    requires
        0 <= i < j < queue_of(units).len(),
    ensures
        ({
            let a = queue_of(units)[i];
            let b = queue_of(units)[j];
            &&& b.download is Downloading ==> a.download is Downloading
            &&& b.download is Pending ==> a.download is Downloading || a.download is Pending
            &&& b.download is Failed ==> !(a.download is Unavailable)
            &&& (a.download is Downloading && b.download is Downloading) || (a.download is Pending
                && b.download is Pending) || (a.download is Failed && b.download is Failed) || (
            a.download is Unavailable && b.download is Unavailable) ==> !takes_precedence(b, a)
        }),
{
    let p = |u: ReadingUnit| in_queue(u);
    let le = |a: ReadingUnit, b: ReadingUnit| queue_le(a, b);
    lemma_turns_rank();
    lemma_sorted(units.filter(p), le);
    let q = queue_of(units);
    assert(le(q[i], q[j]));
    assert(q.contains(q[i]) && q.contains(q[j]));
    law_the_queue_holds_what_is_unsettled(units, q[i]);
    law_the_queue_holds_what_is_unsettled(units, q[j]);
}

/// One more downloaded unit adds its pages, where they are counted, to the pages that are
/// downloaded; a unit in another state adds none.
pub proof fn law_downloaded_pages_add_up(units: Seq<ReadingUnit>, u: ReadingUnit)
    ensures
        downloaded_pages(Seq::<ReadingUnit>::empty()) == 0,
        u.download is Downloaded && u.page_count is Some ==> downloaded_pages(units.push(u))
            == downloaded_pages(units) + u.page_count->0,
        !(u.download is Downloaded) || u.page_count is None ==> downloaded_pages(units.push(u))
            == downloaded_pages(units),
{
    assert(units.push(u).drop_last() =~= units);
}

}
