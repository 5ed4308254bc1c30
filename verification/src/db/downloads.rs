//! Downloads: the states a unit goes through, and the queue.

use vstd::prelude::*;

use crate::clock::Timestamp;
use crate::db::download_laws::lemma_move;
use crate::db::plain::{alike_but_for_states, differing};
use crate::db::{lemma_units_changed, Db, DbView};
use crate::domain::publication::{DownloadState, ReadingUnit};
use crate::ids::Uuid;
use crate::order::{is_ranking, lemma_sorted_agree, lemma_sorted_filter, sort_by, sorted};
use crate::tables::{
    change_all, count, count32, includes, lemma_filter_contains, lemma_filter_none, lemma_filter_take, position, to_count,
};

verus! {

/// Why a download produced no pages.
#[derive(Debug, PartialEq, Eq)]
pub enum DownloadFailure {
    /// Something broke on the way; another attempt may work.
    Failed(String),
    /// The source serves the unit but does not offer it; another attempt changes
    /// nothing until it does.
    Unavailable(String),
}

impl From<String> for DownloadFailure {
    /// A plain failure.
    fn from(reason: String) -> (r: DownloadFailure)
    {
        DownloadFailure::Failed(reason)
    }
}

impl vstd::std_specs::convert::FromSpecImpl<String> for DownloadFailure {
    open spec fn obeys_from_spec() -> bool {
        true
    }

    open spec fn from_spec(reason: String) -> DownloadFailure {
        DownloadFailure::Failed(reason)
    }
}

/// A unit that may be put in the queue: nothing of it is there or on its way.
/// One that the source does not offer counts only where it is asked for by name.
pub open spec fn queueable(d: DownloadState, include_unavailable: bool) -> bool {
    d is Absent || d is Failed || (include_unavailable && d is Unavailable)
}

/// A unit that may be taken out of the queue.
pub open spec fn dismissable(d: DownloadState) -> bool {
    d is Pending || d is Failed || d is Unavailable
}

/// The unit moved to `to`, where it is named and `p` holds of its state.
pub open spec fn moved(
    u: ReadingUnit,
    ids: Seq<Uuid>,
    p: spec_fn(DownloadState) -> bool,
    to: DownloadState,
) -> ReadingUnit {
    if ids.contains(u.id) && p(u.download) {
        ReadingUnit { download: to, ..u }
    } else {
        u
    }
}

/// All named units whose state meets `p` moved to `to`.
pub open spec fn all_moved(
    units: Seq<ReadingUnit>,
    ids: Seq<Uuid>,
    p: spec_fn(DownloadState) -> bool,
    to: DownloadState,
) -> Seq<ReadingUnit> {
    units.map_values(|u: ReadingUnit| moved(u, ids, p, to))
}

/// How many units such a move changes.
pub open spec fn moved_count(
    units: Seq<ReadingUnit>,
    ids: Seq<Uuid>,
    p: spec_fn(DownloadState) -> bool,
) -> int {
    units.filter(|u: ReadingUnit| ids.contains(u.id) && p(u.download)).len() as int
}

/// Some unit has the identifier and is downloaded.
pub open spec fn is_downloaded(units: Seq<ReadingUnit>, id: Uuid) -> bool {
    exists|i: int| 0 <= i < units.len() && (#[trigger] units[i]).id == id && units[i].download is Downloaded
}

/// Those of the identifiers that are of downloaded units, each once.
pub open spec fn downloaded_of(units: Seq<ReadingUnit>, ids: Seq<Uuid>) -> Seq<Uuid>
    decreases ids.len(),
{
    if ids.len() == 0 {
        Seq::empty()
    } else {
        let before = downloaded_of(units, ids.drop_last());
        if is_downloaded(units, ids.last()) && !before.contains(ids.last()) {
            before.push(ids.last())
        } else {
            before
        }
    }
}

/// The unit after its download ended as `outcome` says.
pub open spec fn finished(u: ReadingUnit, outcome: Result<u32, DownloadFailure>, now: Timestamp) -> ReadingUnit {
    match outcome {
        Ok(pages) => ReadingUnit {
            download: DownloadState::Downloaded { at: now },
            page_count: Some(pages),
            ..u
        },
        Err(DownloadFailure::Failed(reason)) => ReadingUnit {
            download: DownloadState::Failed { at: now, reason },
            ..u
        },
        Err(DownloadFailure::Unavailable(reason)) => ReadingUnit {
            download: DownloadState::Unavailable { at: now, reason },
            ..u
        },
    }
}

/// The units, with a download recorded on the one with the identifier.
pub open spec fn all_finished(
    units: Seq<ReadingUnit>,
    id: Uuid,
    outcome: Result<u32, DownloadFailure>,
    now: Timestamp,
) -> Seq<ReadingUnit> {
    units.map_values(
        |u: ReadingUnit|
            if u.id == id {
                finished(u, outcome, now)
            } else {
                u
            },
    )
}

/// Numbered units by number, before those without one.
pub open spec fn number_le(a: ReadingUnit, b: ReadingUnit) -> bool {
    match (a.number, b.number) {
        (Some(x), Some(y)) => x.rank <= y.rank,
        (None, Some(_)) => false,
        _ => true,
    }
}

/// The order in which the worker takes units: first seen first, then by number.
pub open spec fn turn_le(a: ReadingUnit, b: ReadingUnit) -> bool {
    a.fetched_at.lt(b.fetched_at) || (a.fetched_at == b.fetched_at && number_le(a, b))
}

/// The place of a state in the queue.
pub open spec fn state_rank(d: DownloadState) -> int {
    match d {
        DownloadState::Downloading => 0,
        DownloadState::Pending => 1,
        DownloadState::Failed { .. } => 2,
        _ => 3,
    }
}

/// The order of the queue: by state, and within a state by turn.
pub open spec fn queue_le(a: ReadingUnit, b: ReadingUnit) -> bool {
    state_rank(a.download) < state_rank(b.download) || (state_rank(a.download) == state_rank(b.download)
        && turn_le(a, b))
}

/// A unit that is in the queue.
pub open spec fn in_queue(u: ReadingUnit) -> bool {
    u.download is Downloading || u.download is Pending || u.download is Failed
        || u.download is Unavailable
}

/// The queue.
pub open spec fn queue_of(units: Seq<ReadingUnit>) -> Seq<ReadingUnit> {
    sorted(
        units.filter(|u: ReadingUnit| in_queue(u)),
        |a: ReadingUnit, b: ReadingUnit| queue_le(a, b),
    )
}

/// The queue holds units, and nothing else.
pub proof fn lemma_queue_of_units(units: Seq<ReadingUnit>)
    ensures
        forall|i: int| 0 <= i < queue_of(units).len() ==> units.contains(#[trigger] queue_of(units)[i]),
{
    let p = |u: ReadingUnit| in_queue(u);
    let le = |a: ReadingUnit, b: ReadingUnit| queue_le(a, b);
    let kept = units.filter(p);
    crate::order::lemma_sorted_multiset(kept, le);
    crate::tables::lemma_filter_contains(units, p);
    assert forall|i: int| 0 <= i < queue_of(units).len() implies units.contains(
        #[trigger] queue_of(units)[i],
    ) by {
        broadcast use vstd::seq_lib::group_to_multiset_ensures;
        let x = queue_of(units)[i];
        assert(queue_of(units).contains(x));
        assert(queue_of(units).to_multiset().contains(x));
        assert(kept.contains(x));
    }
}

/// The units that wait for the worker, in the order it takes them.
pub open spec fn waiting_of(units: Seq<ReadingUnit>) -> Seq<ReadingUnit> {
    sorted(
        units.filter(|u: ReadingUnit| u.download is Pending),
        |a: ReadingUnit, b: ReadingUnit| turn_le(a, b),
    )
}

/// Turns and queue places rank any two units.
pub proof fn lemma_turns_rank()
    ensures
        is_ranking(|a: ReadingUnit, b: ReadingUnit| turn_le(a, b)),
        is_ranking(|a: ReadingUnit, b: ReadingUnit| queue_le(a, b)),
{
}

/// The pages of the downloaded units.
pub open spec fn downloaded_pages(units: Seq<ReadingUnit>) -> int
    decreases units.len(),
{
    if units.len() == 0 {
        0
    } else {
        let u = units.last();
        downloaded_pages(units.drop_last()) + if u.download is Downloaded && u.page_count is Some {
            u.page_count->0 as int
        } else {
            0
        }
    }
}

/// Moves the named units whose state passes the test to a state.
fn move_units<F: Fn(&DownloadState) -> bool>(
    units: &mut Vec<ReadingUnit>,
    ids: &Vec<Uuid>,
    test: F,
    Ghost(p): Ghost<spec_fn(DownloadState) -> bool>,
    to: DownloadState,
) -> (r: u32)
    requires
        forall|d: &DownloadState| #[trigger] test.requires((d,)),
        forall|d: &DownloadState, b: bool| #[trigger] test.ensures((d,), b) ==> b == p(*d),
    ensures
        final(units)@ == all_moved(old(units)@, ids@, p, to),
        r == count32(moved_count(old(units)@, ids@, p)),
{
    let to_ref = &to;
    let hit = |u: &ReadingUnit| -> (b: bool)
        ensures b == (ids@.contains(u.id) && p(u.download))
    { includes(ids, u.id) && test(&u.download) };
    let n = count(units, hit, Ghost(|u: ReadingUnit| ids@.contains(u.id) && p(u.download)));
    let step = |u: &ReadingUnit| -> (v: ReadingUnit)
        ensures v == (if ids@.contains(u.id) && p(u.download) { (ReadingUnit { download: *to_ref, ..*u }) } else { *u })
    {
        let mut v = u.clone();
        if includes(ids, u.id) && test(&u.download) {
            v.download = to_ref.clone();
        }
        v
    };
    change_all(units, step, Ghost(|u: ReadingUnit| moved(u, ids@, p, to)));
    to_count(n)
}

impl Db {
    /// Queues the units that a reader asked for; what is queued or downloaded is left
    /// alone. Says how many were queued.
    pub fn mark_pending(&mut self, unit_ids: &Vec<Uuid>) -> (r: u32)
        requires
            old(self).wf(),
        ensures
            final(self).wf(),
            final(self)@ == (DbView {
                units: all_moved(
                    old(self)@.units,
                    unit_ids@,
                    |d: DownloadState| queueable(d, true),
                    DownloadState::Pending,
                ),
                ..old(self)@
            }),
            r == count32(
                moved_count(old(self)@.units, unit_ids@, |d: DownloadState| queueable(d, true)),
            ),
            alike_but_for_states(old(self)@.units, final(self)@.units),
            forall|i: int|
                0 <= i < old(self)@.units.len() ==> if unit_ids@.contains(old(self)@.units[i].id) && (old(self)@.units[i].download is Absent || old(self)@.units[i].download is Failed || old(self)@.units[i].download is Unavailable) {
                    (#[trigger] final(self)@.units[i]).download is Pending
                } else {
                    final(self)@.units[i] == old(self)@.units[i]
                },
            r == count32(differing(old(self)@.units, final(self)@.units) as int),
    {
        proof {
            lemma_move(self@.units, unit_ids@, |d: DownloadState| queueable(d, true), DownloadState::Pending);
        }
        self.queue(unit_ids, true)
    }

    /// Queues the units that nobody asked for: one that the source does not offer is
    /// passed over, or it would be tried again at every check. Says how many were
    /// queued.
    pub fn mark_pending_new(&mut self, unit_ids: &Vec<Uuid>) -> (r: u32)
        requires
            old(self).wf(),
        ensures
            final(self).wf(),
            final(self)@ == (DbView {
                units: all_moved(
                    old(self)@.units,
                    unit_ids@,
                    |d: DownloadState| queueable(d, false),
                    DownloadState::Pending,
                ),
                ..old(self)@
            }),
            r == count32(
                moved_count(old(self)@.units, unit_ids@, |d: DownloadState| queueable(d, false)),
            ),
            alike_but_for_states(old(self)@.units, final(self)@.units),
            forall|i: int|
                0 <= i < old(self)@.units.len() ==> if unit_ids@.contains(old(self)@.units[i].id) && (old(self)@.units[i].download is Absent || old(self)@.units[i].download is Failed) {
                    (#[trigger] final(self)@.units[i]).download is Pending
                } else {
                    final(self)@.units[i] == old(self)@.units[i]
                },
            r == count32(differing(old(self)@.units, final(self)@.units) as int),
    {
        proof {
            lemma_move(self@.units, unit_ids@, |d: DownloadState| queueable(d, false), DownloadState::Pending);
        }
        self.queue(unit_ids, false)
    }

    /// Queues units.
    fn queue(&mut self, unit_ids: &Vec<Uuid>, include_unavailable: bool) -> (r: u32)
        requires
            old(self).wf(),
        ensures
            final(self).wf(),
            final(self)@ == (DbView {
                units: all_moved(
                    old(self)@.units,
                    unit_ids@,
                    |d: DownloadState| queueable(d, include_unavailable),
                    DownloadState::Pending,
                ),
                ..old(self)@
            }),
            r == count32(
                moved_count(
                    old(self)@.units,
                    unit_ids@,
                    |d: DownloadState| queueable(d, include_unavailable),
                ),
            ),
    {
        let test = |d: &DownloadState| -> (b: bool)
            ensures b == queueable(*d, include_unavailable)
        {
            match d {
                DownloadState::Absent => true,
                DownloadState::Failed { .. } => true,
                DownloadState::Unavailable { .. } => include_unavailable,
                _ => false,
            }
        };
        let ghost p = |d: DownloadState| queueable(d, include_unavailable);
        proof {
            lemma_units_changed(
                self@,
                |u: ReadingUnit| moved(u, unit_ids@, p, DownloadState::Pending),
            );
        }
        move_units(&mut self.units, unit_ids, test, Ghost(p), DownloadState::Pending)
    }

    /// Puts failed units back into the queue. One that the source does not offer has
    /// not failed. Says how many were moved.
    pub fn retry_failed(&mut self, unit_ids: &Vec<Uuid>) -> (r: u32)
        requires
            old(self).wf(),
        ensures
            final(self).wf(),
            final(self)@ == (DbView {
                units: all_moved(
                    old(self)@.units,
                    unit_ids@,
                    |d: DownloadState| d is Failed,
                    DownloadState::Pending,
                ),
                ..old(self)@
            }),
            r == count32(moved_count(old(self)@.units, unit_ids@, |d: DownloadState| d is Failed)),
            alike_but_for_states(old(self)@.units, final(self)@.units),
            forall|i: int|
                0 <= i < old(self)@.units.len() ==> if unit_ids@.contains(old(self)@.units[i].id) && (old(self)@.units[i].download is Failed) {
                    (#[trigger] final(self)@.units[i]).download is Pending
                } else {
                    final(self)@.units[i] == old(self)@.units[i]
                },
            r == count32(differing(old(self)@.units, final(self)@.units) as int),
    {
        proof {
            lemma_move(self@.units, unit_ids@, |d: DownloadState| d is Failed, DownloadState::Pending);
        }
        let test = |d: &DownloadState| -> (b: bool)
            ensures b == (*d is Failed)
        {
            match d {
                DownloadState::Failed { .. } => true,
                _ => false,
            }
        };
        let ghost p = |d: DownloadState| d is Failed;
        proof {
            lemma_units_changed(
                self@,
                |u: ReadingUnit| moved(u, unit_ids@, p, DownloadState::Pending),
            );
        }
        move_units(&mut self.units, unit_ids, test, Ghost(p), DownloadState::Pending)
    }

    /// Takes waiting, failed and unoffered units out of the queue; what is on its way
    /// or downloaded stays. Says how many were moved.
    pub fn dismiss_downloads(&mut self, unit_ids: &Vec<Uuid>) -> (r: u32)
        requires
            old(self).wf(),
        ensures
            final(self).wf(),
            final(self)@ == (DbView {
                units: all_moved(
                    old(self)@.units,
                    unit_ids@,
                    |d: DownloadState| dismissable(d),
                    DownloadState::Absent,
                ),
                ..old(self)@
            }),
            r == count32(
                moved_count(old(self)@.units, unit_ids@, |d: DownloadState| dismissable(d)),
            ),
            alike_but_for_states(old(self)@.units, final(self)@.units),
            forall|i: int|
                0 <= i < old(self)@.units.len() ==> if unit_ids@.contains(old(self)@.units[i].id) && (old(self)@.units[i].download is Pending || old(self)@.units[i].download is Failed || old(self)@.units[i].download is Unavailable) {
                    (#[trigger] final(self)@.units[i]).download is Absent
                } else {
                    final(self)@.units[i] == old(self)@.units[i]
                },
            r == count32(differing(old(self)@.units, final(self)@.units) as int),
    {
        proof {
            lemma_move(self@.units, unit_ids@, |d: DownloadState| dismissable(d), DownloadState::Absent);
        }
        let test = |d: &DownloadState| -> (b: bool)
            ensures b == dismissable(*d)
        {
            match d {
                DownloadState::Pending => true,
                DownloadState::Failed { .. } => true,
                DownloadState::Unavailable { .. } => true,
                _ => false,
            }
        };
        let ghost p = |d: DownloadState| dismissable(d);
        proof {
            lemma_units_changed(self@, |u: ReadingUnit| moved(u, unit_ids@, p, DownloadState::Absent));
        }
        move_units(&mut self.units, unit_ids, test, Ghost(p), DownloadState::Absent)
    }

    /// Forgets the server's copies of units; their page counts stay. Gives the
    /// identifiers of those that were downloaded, whose directories may go.
    pub fn remove_downloads(&mut self, unit_ids: &Vec<Uuid>) -> (r: Vec<Uuid>)
        requires
            old(self).wf(),
        ensures
            final(self).wf(),
            final(self)@ == (DbView {
                units: all_moved(
                    old(self)@.units,
                    unit_ids@,
                    |d: DownloadState| d is Downloaded,
                    DownloadState::Absent,
                ),
                ..old(self)@
            }),
            r@ == downloaded_of(old(self)@.units, unit_ids@),
            alike_but_for_states(old(self)@.units, final(self)@.units),
            forall|i: int|
                0 <= i < old(self)@.units.len() ==> if unit_ids@.contains(old(self)@.units[i].id) && (old(self)@.units[i].download is Downloaded) {
                    (#[trigger] final(self)@.units[i]).download is Absent
                } else {
                    final(self)@.units[i] == old(self)@.units[i]
                },
    {
        proof {
            lemma_move(self@.units, unit_ids@, |d: DownloadState| d is Downloaded, DownloadState::Absent);
        }
        let mut removed: Vec<Uuid> = Vec::new();
        let mut k: usize = 0;
        assert(unit_ids@.take(0) =~= Seq::empty());
        while k < unit_ids.len()
            invariant
                k <= unit_ids@.len(),
                removed@ == downloaded_of(self@.units, unit_ids@.take(k as int)),
            decreases unit_ids@.len() - k,
        {
            let id = unit_ids[k];
            assert(unit_ids@.take(k + 1).drop_last() =~= unit_ids@.take(k as int));
            let hit = |u: &ReadingUnit| -> (b: bool)
                ensures b == (u.id == id && u.download is Downloaded)
            {
                u.id == id && match u.download {
                    DownloadState::Downloaded { .. } => true,
                    _ => false,
                }
            };
            let found = position(
                &self.units,
                hit,
                Ghost(|u: ReadingUnit| u.id == id && u.download is Downloaded),
            );
            assert(found is Some == is_downloaded(self@.units, id)) by {
                if found is Some {
                    assert(self@.units[found->0 as int].id == id);
                }
            }
            if found.is_some() && !includes(&removed, id) {
                removed.push(id);
            }
            k += 1;
        }
        assert(unit_ids@.take(unit_ids@.len() as int) =~= unit_ids@);
        let test = |d: &DownloadState| -> (b: bool)
            ensures b == (*d is Downloaded)
        {
            match d {
                DownloadState::Downloaded { .. } => true,
                _ => false,
            }
        };
        let ghost p = |d: DownloadState| d is Downloaded;
        proof {
            lemma_units_changed(self@, |u: ReadingUnit| moved(u, unit_ids@, p, DownloadState::Absent));
        }
        let _ = move_units(&mut self.units, unit_ids, test, Ghost(p), DownloadState::Absent);
        removed
    }

    /// Records that the worker has begun a unit.
    pub fn set_downloading(&mut self, id: Uuid)
        requires
            old(self).wf(),
        ensures
            final(self).wf(),
            final(self)@ == (DbView {
                units: old(self)@.units.map_values(
                    |u: ReadingUnit|
                        if u.id == id {
                            ReadingUnit { download: DownloadState::Downloading, ..u }
                        } else {
                            u
                        },
                ),
                ..old(self)@
            }),
            alike_but_for_states(old(self)@.units, final(self)@.units),
            forall|i: int|
                0 <= i < old(self)@.units.len() ==> if old(self)@.units[i].id == id {
                    (#[trigger] final(self)@.units[i]).download is Downloading
                } else {
                    final(self)@.units[i] == old(self)@.units[i]
                },
    {
        let ghost f = |u: ReadingUnit|
            if u.id == id {
                ReadingUnit { download: DownloadState::Downloading, ..u }
            } else {
                u
            };
        proof {
            lemma_units_changed(self@, f);
        }
        let step = |u: &ReadingUnit| -> (v: ReadingUnit)
            ensures v == (if u.id == id { (ReadingUnit { download: DownloadState::Downloading, ..*u }) } else { *u })
        {
            let mut v = u.clone();
            if u.id == id {
                v.download = DownloadState::Downloading;
            }
            v
        };
        change_all(&mut self.units, step, Ghost(f));
    }

    /// Records how a download ended, now.
    pub fn finish_download(&mut self, id: Uuid, outcome: Result<u32, DownloadFailure>) -> (r: bool)
        requires
            old(self).wf(),
        ensures
            final(self).wf(),
            exists|now: Timestamp|
                crate::clock::is_reading(now) && final(self)@ == (DbView {
                    units: #[trigger] all_finished(old(self)@.units, id, outcome, now),
                    ..old(self)@
                }),
            r == crate::db::has_unit(old(self)@.units, id),
    {
        let now = crate::clock::utc_now();
        let r = self.finish_download_at(id, outcome, now);
        assert(self@.units == all_finished(old(self)@.units, id, outcome, now));
        r
    }

    /// Records how a download ended. Says whether the unit was still there, so that
    /// its pages can be discarded where it was not.
    pub fn finish_download_at(
        &mut self,
        id: Uuid,
        outcome: Result<u32, DownloadFailure>,
        now: Timestamp,
    ) -> (r: bool)
        requires
            old(self).wf(),
        ensures
            final(self).wf(),
            final(self)@ == (DbView {
                units: all_finished(old(self)@.units, id, outcome, now),
                ..old(self)@
            }),
            r == crate::db::has_unit(old(self)@.units, id),
    {
        let r = self.knows_unit(id);
        let how = &outcome;
        let ghost f = |u: ReadingUnit|
            if u.id == id {
                finished(u, outcome, now)
            } else {
                u
            };
        proof {
            lemma_units_changed(self@, f);
        }
        let step = |u: &ReadingUnit| -> (v: ReadingUnit)
            ensures v == (if u.id == id { finished(*u, *how, now) } else { *u })
        {
            let mut v = u.clone();
            if u.id == id {
                match how {
                    Ok(pages) => {
                        v.download = DownloadState::Downloaded { at: now };
                        v.page_count = Some(*pages);
                    },
                    Err(DownloadFailure::Failed(reason)) => {
                        v.download = DownloadState::Failed { at: now, reason: reason.clone() };
                    },
                    Err(DownloadFailure::Unavailable(reason)) => {
                        v.download = DownloadState::Unavailable { at: now, reason: reason.clone() };
                    },
                }
            }
            v
        };
        change_all(&mut self.units, step, Ghost(f));
        r
    }

    /// Puts units that were on their way when the server stopped back into the queue.
    pub fn recover_downloads(&mut self)
        requires
            old(self).wf(),
        ensures
            final(self).wf(),
            final(self)@ == (DbView {
                units: old(self)@.units.map_values(
                    |u: ReadingUnit|
                        if u.download is Downloading {
                            ReadingUnit { download: DownloadState::Pending, ..u }
                        } else {
                            u
                        },
                ),
                ..old(self)@
            }),
            alike_but_for_states(old(self)@.units, final(self)@.units),
            forall|i: int|
                0 <= i < old(self)@.units.len() ==> if old(self)@.units[i].download is Downloading {
                    (#[trigger] final(self)@.units[i]).download is Pending
                } else {
                    final(self)@.units[i] == old(self)@.units[i]
                },
    {
        let ghost f = |u: ReadingUnit|
            if u.download is Downloading {
                ReadingUnit { download: DownloadState::Pending, ..u }
            } else {
                u
            };
        proof {
            lemma_units_changed(self@, f);
        }
        let step = |u: &ReadingUnit| -> (v: ReadingUnit)
            ensures v == (if u.download is Downloading { (ReadingUnit { download: DownloadState::Pending, ..*u }) } else { *u })
        {
            let mut v = u.clone();
            match u.download {
                DownloadState::Downloading => {
                    v.download = DownloadState::Pending;
                },
                _ => {},
            }
            v
        };
        change_all(&mut self.units, step, Ghost(f));
    }

    /// The unit that the worker takes next.
    pub fn next_pending_download(&self) -> (r: Option<ReadingUnit>)
        ensures
            r == if waiting_of(self@.units).len() > 0 {
                Some(waiting_of(self@.units)[0])
            } else {
                None
            },
    {
        let waits = |u: &ReadingUnit| -> (b: bool)
            ensures b == (u.download is Pending)
        {
            match u.download {
                DownloadState::Pending => true,
                _ => false,
            }
        };
        let rows = pick(&self.units, waits, Ghost(|u: ReadingUnit| u.download is Pending));
        let in_turn = |a: &ReadingUnit, b: &ReadingUnit| -> (r: bool)
            ensures r == turn_le(*a, *b)
        { takes_turn(a, b) };
        let rows = sort_by(rows, in_turn, Ghost(|a: ReadingUnit, b: ReadingUnit| turn_le(a, b)));
        if rows.len() > 0 {
            Some(rows[0].clone())
        } else {
            None
        }
    }

    /// The queue: what is on its way, then what waits, what failed and what the source
    /// does not offer, each in the order in which the worker takes units.
    pub fn download_queue(&self) -> (r: Vec<ReadingUnit>)
        ensures
            r@ == queue_of(self@.units),
    {
        let queued = |u: &ReadingUnit| -> (b: bool)
            ensures b == in_queue(*u)
        {
            match u.download {
                DownloadState::Absent => false,
                DownloadState::Downloaded { .. } => false,
                _ => true,
            }
        };
        let rows = pick(&self.units, queued, Ghost(|u: ReadingUnit| in_queue(u)));
        let in_line = |a: &ReadingUnit, b: &ReadingUnit| -> (r: bool)
            ensures r == queue_le(*a, *b)
        {
            let x = rank_of(&a.download);
            let y = rank_of(&b.download);
            x < y || (x == y && takes_turn(a, b))
        };
        sort_by(rows, in_line, Ghost(|a: ReadingUnit, b: ReadingUnit| queue_le(a, b)))
    }

    /// How many units are downloaded, and how many pages they have.
    pub fn downloaded_summary(&self) -> (r: (u32, u32))
        ensures
            r.0 == count32(self@.units.filter(|u: ReadingUnit| u.download is Downloaded).len() as int),
            r.1 == count32(downloaded_pages(self@.units)),
    {
        let saved = |u: &ReadingUnit| -> (b: bool)
            ensures b == (u.download is Downloaded)
        {
            match u.download {
                DownloadState::Downloaded { .. } => true,
                _ => false,
            }
        };
        let n = count(&self.units, saved, Ghost(|u: ReadingUnit| u.download is Downloaded));
        let mut pages: u128 = 0;
        let mut i: usize = 0;
        assert(self.units@.take(0) =~= Seq::empty());
        while i < self.units.len()
            invariant
                i <= self.units@.len(),
                self@.units == self.units@,
                pages == downloaded_pages(self.units@.take(i as int)),
                pages <= i * 0xffff_ffff,
            decreases self.units@.len() - i,
        {
            assert(self.units@.take(i + 1).drop_last() =~= self.units@.take(i as int));
            assert(i * 0xffff_ffff + 0xffff_ffff == (i + 1) * 0xffff_ffff) by (nonlinear_arith);
            assert((i + 1) * 0xffff_ffff <= 0x1_0000_0000_0000_0000 * 0xffff_ffff) by (nonlinear_arith)
                requires
                    i + 1 <= 0x1_0000_0000_0000_0000,
            ;
            match self.units[i].download {
                DownloadState::Downloaded { .. } => {
                    match self.units[i].page_count {
                        Some(c) => {
                            pages = pages + c as u128;
                        },
                        None => {},
                    }
                },
                _ => {},
            }
            i += 1;
        }
        assert(self.units@.take(self.units@.len() as int) =~= self.units@);
        (to_count(n), (pages % 0x1_0000_0000u128) as u32)
    }
}

/// The rows that meet a condition.
pub(crate) fn pick<F: Fn(&ReadingUnit) -> bool>(
    rows: &Vec<ReadingUnit>,
    test: F,
    Ghost(p): Ghost<spec_fn(ReadingUnit) -> bool>,
) -> (r: Vec<ReadingUnit>)
    requires
        crate::tables::decides(test, p),
    ensures
        r@ == rows@.filter(p),
{
    let mut out: Vec<ReadingUnit> = Vec::new();
    let mut i: usize = 0;
    proof {
        lemma_filter_none(rows@.take(0), p);
        assert(rows@.take(0).filter(p) =~= Seq::empty());
    }
    while i < rows.len()
        invariant
            crate::tables::decides(test, p),
            i <= rows@.len(),
            out@ == rows@.take(i as int).filter(p),
        decreases rows@.len() - i,
    {
        proof {
            lemma_filter_take(rows@, i as int, p);
        }
        if test(&rows[i]) {
            out.push(rows[i].clone());
        }
        i += 1;
    }
    assert(rows@.take(rows@.len() as int) =~= rows@);
    out
}

/// Whether `a` is taken no later than `b`.
fn takes_turn(a: &ReadingUnit, b: &ReadingUnit) -> (r: bool)
    ensures
        r == turn_le(*a, *b),
{
    let by_number = match a.number {
        Some(x) => match b.number {
            Some(y) => x.rank <= y.rank,
            None => true,
        },
        None => b.number.is_none(),
    };
    a.fetched_at.before(&b.fetched_at) || (a.fetched_at.secs == b.fetched_at.secs && a.fetched_at.nanos
        == b.fetched_at.nanos && by_number)
}

/// The place of a state in the queue.
fn rank_of(d: &DownloadState) -> (r: u8)
    ensures
        r == state_rank(*d),
{
    match d {
        DownloadState::Downloading => 0,
        DownloadState::Pending => 1,
        DownloadState::Failed { .. } => 2,
        _ => 3,
    }
}

/// The queue shows waiting units in the order in which the worker takes them.
pub proof fn law_queue_shows_the_worker_order(units: Seq<ReadingUnit>)
    ensures
        queue_of(units).filter(|u: ReadingUnit| u.download is Pending) == waiting_of(units),
{
    let q = |u: ReadingUnit| in_queue(u);
    let w = |u: ReadingUnit| u.download is Pending;
    let by_queue = |a: ReadingUnit, b: ReadingUnit| queue_le(a, b);
    let by_turn = |a: ReadingUnit, b: ReadingUnit| turn_le(a, b);
    lemma_turns_rank();
    lemma_sorted_filter(units.filter(q), by_queue, w);
    lemma_filter_twice(units);
    let waiting = units.filter(w);
    lemma_filter_contains(units, w);
    assert forall|x: ReadingUnit, y: ReadingUnit|
        waiting.contains(x) && waiting.contains(y) implies #[trigger] by_queue(x, y) == by_turn(x, y) by {}
    lemma_sorted_agree(waiting, by_queue, by_turn);
}

/// Waiting units are in the queue, so picking them from it picks all of them.
proof fn lemma_filter_twice(units: Seq<ReadingUnit>)
    ensures
        units.filter(|u: ReadingUnit| in_queue(u)).filter(|u: ReadingUnit| u.download is Pending)
            == units.filter(|u: ReadingUnit| u.download is Pending),
    decreases units.len(),
{
    reveal(Seq::filter);
    if units.len() > 0 {
        lemma_filter_twice(units.drop_last());
        let q = |u: ReadingUnit| in_queue(u);
        if in_queue(units.last()) {
            assert(units.filter(q).drop_last() =~= units.drop_last().filter(q));
        }
    }
}

/// Queueing again what was just queued changes nothing more.
pub proof fn law_queueing_settles(units: Seq<ReadingUnit>, ids: Seq<Uuid>, include_unavailable: bool)
    ensures
        ({
            let p = |d: DownloadState| queueable(d, include_unavailable);
            let once = all_moved(units, ids, p, DownloadState::Pending);
            all_moved(once, ids, p, DownloadState::Pending) == once && moved_count(once, ids, p) == 0
        }),
{
    let p = |d: DownloadState| queueable(d, include_unavailable);
    let once = all_moved(units, ids, p, DownloadState::Pending);
    assert(all_moved(once, ids, p, DownloadState::Pending) =~= once);
    lemma_filter_none(once, |u: ReadingUnit| ids.contains(u.id) && p(u.download));
}

/// Nothing but removing downloads takes a downloaded unit's pages away: queueing,
/// retrying and dismissing leave it as it is.
pub proof fn law_queue_leaves_downloads(u: ReadingUnit, ids: Seq<Uuid>, include_unavailable: bool)
    requires
        u.download is Downloaded,
    ensures
        moved(u, ids, |d: DownloadState| queueable(d, include_unavailable), DownloadState::Pending) == u,
        moved(u, ids, |d: DownloadState| d is Failed, DownloadState::Pending) == u,
        moved(u, ids, |d: DownloadState| dismissable(d), DownloadState::Absent) == u,
{
}

/// A unit that the source does not offer is left alone by checks and by retrying in
/// bulk; a reader who asks for it by name gets it queued.
pub proof fn law_unavailable_waits_for_the_reader(u: ReadingUnit, ids: Seq<Uuid>)
    requires
        u.download is Unavailable,
        ids.contains(u.id),
    ensures
        moved(u, ids, |d: DownloadState| queueable(d, false), DownloadState::Pending) == u,
        moved(u, ids, |d: DownloadState| d is Failed, DownloadState::Pending) == u,
        moved(u, ids, |d: DownloadState| queueable(d, true), DownloadState::Pending).download
            == DownloadState::Pending,
{
}

}
