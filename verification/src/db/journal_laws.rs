//! What holds of the journal, of places and of read marks.

use vstd::prelude::*;

use crate::clock::Timestamp;
use crate::db::plain::{event_there, has_read, publication_there, recorded_for, sooner, unit_there};
use crate::db::progress::{
    all_appended, cursor_of, entries_after, events_of, has_event, is_known, known_of, law_journal_only_grows, position_in, pushed, slice_after,
    JournalState, PAGE_LIMIT,
};
use crate::db::read_marks::{first_unknown, lemma_first_unknown, lemma_with_marks, law_unmarking_unmarks, with_marks, without_marks};
use crate::db::units::marked;
use crate::db::{has_unit, DbView, JournalEntry};
use crate::domain::progress::{lemma_newest, newest, Locations, ProgressEvent};
use crate::ids::Uuid;
use crate::tables::lemma_filter_contains;

verus! {

/// What a batch leaves in the journal: behind what was there, only events of the batch, and
/// each of them that was not there before.
proof fn lemma_batch(j: JournalState, user_id: Uuid, events: Seq<ProgressEvent>, i: int)
    ensures
        ({
            let out = all_appended(j, user_id, events).journal;
            &&& out.len() >= j.journal.len()
            &&& forall|k: int|
                j.journal.len() <= k < out.len() ==> (#[trigger] out[k]).user_id == user_id
                    && events.contains(out[k].event) && !has_event(j.journal, out[k].event.id)
            &&& 0 <= i < events.len() && !has_event(j.journal, events[i].id) && (forall|k: int|
                0 <= k < i ==> (#[trigger] events[k]).id != events[i].id) ==> recorded_for(
                out,
                user_id,
                events[i],
            )
        }),
    decreases events.len(),
{
    law_journal_only_grows(j, user_id, events);
    if events.len() > 0 {
        let init = events.drop_last();
        lemma_batch(j, user_id, init, i);
        law_journal_only_grows(j, user_id, init);
        let before = all_appended(j, user_id, init).journal;
        let out = all_appended(j, user_id, events).journal;
        assert forall|k: int| j.journal.len() <= k < out.len() implies (#[trigger] out[k]).user_id == user_id
            && events.contains(out[k].event) && !has_event(j.journal, out[k].event.id) by {
            if k < before.len() {
                assert(out[k] == before[k]);
                let n = choose|n: int| 0 <= n < init.len() && init[n] == before[k].event;
                assert(events[n] == before[k].event);
            } else {
                assert(events[events.len() - 1] == out[k].event);
                if has_event(j.journal, out[k].event.id) {
                    let n = choose|n: int|
                        0 <= n < j.journal.len() && (#[trigger] j.journal[n]).event.id == out[k].event.id;
                    assert(before.take(j.journal.len() as int)[n] == j.journal[n]);
                    assert(before[n].event.id == out[k].event.id);
                }
            }
        }
        if 0 <= i < events.len() && !has_event(j.journal, events[i].id) && (forall|k: int|
            0 <= k < i ==> (#[trigger] events[k]).id != events[i].id) {
            if i < init.len() {
                assert(init[i] == events[i]);
                assert forall|k: int| 0 <= k < i implies (#[trigger] init[k]).id != init[i].id by {
                    assert(init[k] == events[k]);
                }
                let k = choose|k: int|
                    0 <= k < before.len() && (#[trigger] before[k]).user_id == user_id && before[k].event
                        == events[i];
                assert(out[k] == before[k]);
            } else {
                assert(!has_event(before, events[i].id)) by {
                    if has_event(before, events[i].id) {
                        let k = choose|k: int|
                            0 <= k < before.len() && (#[trigger] before[k]).event.id == events[i].id;
                        if k < j.journal.len() {
                            assert(before.take(j.journal.len() as int)[k] == j.journal[k]);
                            assert(j.journal[k].event.id == events[i].id);
                        } else {
                            let n = choose|n: int| 0 <= n < init.len() && init[n] == before[k].event;
                            assert(events[n] == init[n]);
                        }
                    }
                }
                assert(out[out.len() - 1].event == events[i]);
            }
        }
    }
}

/// A push records exactly what can apply: an event is taken where its publication and its
/// unit are there, under the reader who pushed it, just as it came; one that the journal
/// has already is not taken again; and nothing that was there changes.
pub proof fn law_a_push_records_what_applies(
    db: DbView,
    user_id: Uuid,
    events: Seq<ProgressEvent>,
    i: int,
)
    requires
        0 <= i < events.len(),
        !event_there(db.journal, events[i].id),
        forall|k: int| 0 <= k < i ==> (#[trigger] events[k]).id != events[i].id,
        forall|k: int| 0 <= k < events.len() && (#[trigger] events[k]).id == events[i].id ==> events[k] == events[i],
    ensures
        recorded_for(pushed(db, user_id, events).journal, user_id, events[i]) <==> publication_there(
            db.publications,
            events[i].publication_id,
        ) && unit_there(db.units, events[i].unit_id),
        pushed(db, user_id, events).journal.take(db.journal.len() as int) == db.journal,
        forall|k: int|
            db.journal.len() <= k < pushed(db, user_id, events).journal.len() ==> (
            #[trigger] pushed(db, user_id, events).journal[k]).user_id == user_id && events.contains(
                pushed(db, user_id, events).journal[k].event,
            ) && !event_there(db.journal, pushed(db, user_id, events).journal[k].event.id),
        pushed(db, user_id, events).units == db.units,
        pushed(db, user_id, events).marks == db.marks,
{
    let p = |e: ProgressEvent| is_known(db.publications, db.units, e);
    let known = known_of(db, events);
    let j = JournalState { journal: db.journal, next_seq: db.next_seq };
    let out = pushed(db, user_id, events).journal;
    let e = events[i];
    lemma_filter_contains(events, p);
    law_journal_only_grows(j, user_id, known);
    assert(events.contains(e));
    if is_known(db.publications, db.units, e) {
        assert(known.contains(e));
        let n = lemma_first_place(known, e);
        assert forall|k: int| 0 <= k < n implies (#[trigger] known[k]).id != known[n].id by {
            if known[k].id == e.id {
                assert(known.contains(known[k]));
                let m = choose|m: int| 0 <= m < events.len() && events[m] == known[k];
                assert(events[m] == e);
            }
        }
        lemma_batch(j, user_id, known, n);
    } else {
        lemma_batch(j, user_id, known, 0);
        if recorded_for(out, user_id, e) {
            let k = choose|k: int|
                0 <= k < out.len() && (#[trigger] out[k]).user_id == user_id && out[k].event == e;
            if k < db.journal.len() {
                assert(out.take(db.journal.len() as int)[k] == db.journal[k]);
                assert(db.journal[k].event.id == e.id);
            } else {
                assert(known.contains(e));
            }
        }
    }
    assert forall|k: int| db.journal.len() <= k < out.len() implies (#[trigger] out[k]).user_id == user_id
        && events.contains(out[k].event) && !event_there(db.journal, out[k].event.id) by {
        assert(known.contains(out[k].event));
        assert(!has_event(db.journal, out[k].event.id));
    }
}

/// The first place of an item.
proof fn lemma_first_place(s: Seq<ProgressEvent>, e: ProgressEvent) -> (n: int)
    requires
        s.contains(e),
    ensures
        0 <= n < s.len(),
        s[n] == e,
        forall|k: int| 0 <= k < n ==> #[trigger] s[k] != e,
    decreases s.len(),
{
    let d = s.drop_last();
    if d.contains(e) {
        let n = lemma_first_place(d, e);
        assert forall|k: int| 0 <= k < n implies #[trigger] s[k] != e by {
            assert(d[k] == s[k]);
        }
        n
    } else {
        let m = choose|m: int| 0 <= m < s.len() && s[m] == e;
        assert(m == s.len() - 1) by {
            if m < d.len() {
                assert(d[m] == e);
            }
        }
        assert forall|k: int| 0 <= k < m implies #[trigger] s[k] != e by {
            if s[k] == e {
                assert(d[k] == e);
            }
        }
        m
    }
}

/// A reader's place in a publication is that of their latest event there, by the time the
/// device saw it, and of the greatest identifier among those of one time: its unit, its page
/// and its time. There is none exactly where the reader has no event there.
pub proof fn law_the_place_is_the_latest_event(
    journal: Seq<JournalEntry>,
    user_id: Uuid,
    publication_id: Uuid,
)
    ensures
        position_in(journal, user_id, publication_id) is None <==> forall|k: int|
            0 <= k < journal.len() && (#[trigger] journal[k]).user_id == user_id
                ==> journal[k].event.publication_id != publication_id,
        position_in(journal, user_id, publication_id) matches Some(place) ==> exists|n: int|
            {
                &&& 0 <= n < journal.len()
                &&& (#[trigger] journal[n]).user_id == user_id
                &&& journal[n].event.publication_id == publication_id
                &&& place.unit_id == journal[n].event.unit_id
                &&& place.locations == (Locations::Page { page: journal[n].event.page })
                &&& place.at == journal[n].event.at
                &&& forall|k: int|
                    0 <= k < journal.len() && (#[trigger] journal[k]).user_id == user_id
                        && journal[k].event.publication_id == publication_id ==> sooner(
                        journal[k].event.at,
                        journal[n].event.at,
                    ) || (journal[k].event.at == journal[n].event.at && journal[k].event.id
                        <= journal[n].event.id)
            },
{
    let p = |e: JournalEntry| e.user_id == user_id && e.event.publication_id == publication_id;
    let own = journal.filter(p);
    let events = events_of(journal, user_id, publication_id);
    lemma_newest(events);
    lemma_filter_contains(journal, p);
    assert forall|k: int|
        0 <= k < journal.len() && p(#[trigger] journal[k]) implies events.contains(journal[k].event) by {
        assert(journal.contains(journal[k]));
        assert(own.contains(journal[k]));
        let m = choose|m: int| 0 <= m < own.len() && own[m] == journal[k];
        assert(events[m] == journal[k].event);
    }
    if events.len() > 0 {
        let best = newest(events)->0;
        let m = choose|m: int| 0 <= m < events.len() && events[m] == best;
        assert(own.contains(own[m]));
        assert(journal.contains(own[m]));
        let n = choose|n: int| 0 <= n < journal.len() && journal[n] == own[m];
        assert(p(journal[n]));
        assert(journal[n].event == best);
        assert forall|k: int|
            0 <= k < journal.len() && (#[trigger] journal[k]).user_id == user_id
                && journal[k].event.publication_id == publication_id implies sooner(
            journal[k].event.at,
            journal[n].event.at,
        ) || (journal[k].event.at == journal[n].event.at && journal[k].event.id <= journal[n].event.id) by {
            assert(p(journal[k]));
            let i = choose|i: int| 0 <= i < events.len() && events[i] == journal[k].event;
            assert(crate::domain::progress::not_newer(events[i], best));
        }
    } else {
        assert forall|k: int| 0 <= k < journal.len() && (#[trigger] journal[k]).user_id == user_id implies journal[k].event.publication_id
            != publication_id by {
            if p(journal[k]) {
                assert(events.contains(journal[k].event));
            }
        }
    }
}

/// A slice of the journal holds only entries of the reader that arrived behind the cursor,
/// is never longer than it may be, holds all of them where they fit, and ends at the cursor
/// that comes with it.
pub proof fn law_slices_hold_what_arrived(journal: Seq<JournalEntry>, user_id: Uuid, since: int, k: int)
    requires
        0 <= k < journal.len(),
    ensures
        ({
            let slice = slice_after(journal, user_id, since);
            &&& slice.len() <= 1000
            &&& forall|i: int|
                0 <= i < slice.len() ==> journal.contains(#[trigger] slice[i]) && slice[i].user_id == user_id
                    && slice[i].seq > since
            &&& slice.len() < 1000 ==> (slice.contains(journal[k]) <==> journal[k].user_id == user_id
                && journal[k].seq > since)
            &&& cursor_of(slice) is None <==> slice.len() == 0
            &&& slice.len() > 0 ==> cursor_of(slice) == Some(slice[slice.len() - 1].seq)
        }),
{
    let p = |e: JournalEntry| e.user_id == user_id && e.seq > since;
    let rest = entries_after(journal, user_id, since);
    let slice = slice_after(journal, user_id, since);
    lemma_filter_contains(journal, p);
    assert(journal.contains(journal[k]));
    assert forall|i: int| 0 <= i < slice.len() implies journal.contains(#[trigger] slice[i]) && slice[i].user_id
        == user_id && slice[i].seq > since by {
        assert(rest[i] == slice[i]);
        assert(rest.contains(rest[i]));
    }
    assert(PAGE_LIMIT == 1000);
}

/// Marking units read gives the reader marks on exactly those, besides the ones that are
/// there; it is refused where one of the units is not there, and touches no other reader.
pub proof fn law_marking_marks(
    db: DbView,
    user_id: Uuid,
    ids: Seq<Uuid>,
    now: Timestamp,
    who: Uuid,
    unit_id: Uuid,
)
    requires
        db.wf(),
    ensures
        first_unknown(db.units, ids) is None <==> forall|i: int|
            0 <= i < ids.len() ==> unit_there(db.units, #[trigger] ids[i]),
        first_unknown(db.units, ids) is None ==> (has_read(
            with_marks(db.marks, user_id, ids, now),
            who,
            unit_id,
        ) <==> has_read(db.marks, who, unit_id) || (who == user_id && ids.contains(unit_id))),
        has_read(without_marks(db.marks, user_id, ids), who, unit_id) <==> has_read(
            db.marks,
            who,
            unit_id,
        ) && !(who == user_id && ids.contains(unit_id)),
{
    lemma_first_unknown(db.units, ids);
    assert forall|i: int| 0 <= i < ids.len() implies (unit_there(db.units, #[trigger] ids[i]) <==> has_unit(
        db.units,
        ids[i],
    )) by {}
    law_unmarking_unmarks(db.marks, user_id, ids, who, unit_id);
    let after = without_marks(db.marks, user_id, ids);
    assert(marked(after, who, unit_id) <==> has_read(after, who, unit_id));
    assert(marked(db.marks, who, unit_id) <==> has_read(db.marks, who, unit_id));
    if first_unknown(db.units, ids) is None {
        lemma_with_marks(db.marks, db.units, user_id, ids, now);
        let out = with_marks(db.marks, user_id, ids, now);
        assert(marked(out, who, unit_id) <==> has_read(out, who, unit_id));
    }
}

/// An event of a push counts as taken exactly where its publication and its unit are there, and as
/// skipped otherwise.
pub proof fn law_known_events_are_counted(db: DbView, events: Seq<ProgressEvent>, e: ProgressEvent)
    ensures
        known_of(db, events).contains(e) <==> events.contains(e) && publication_there(
            db.publications,
            e.publication_id,
        ) && unit_there(db.units, e.unit_id),
        known_of(db, events.push(e)).len() == known_of(db, events).len() + if publication_there(
            db.publications,
            e.publication_id,
        ) && unit_there(db.units, e.unit_id) {
            1int
        } else {
            0
        },
        known_of(db, Seq::empty()).len() == 0,
{
    let p = |e: ProgressEvent| is_known(db.publications, db.units, e);
    reveal(Seq::filter);
    crate::tables::lemma_filter_contains(events, p);
    crate::tables::lemma_filter_push(events, e, p);
    assert(publication_there(db.publications, e.publication_id) <==> crate::db::has_publication(
        db.publications,
        e.publication_id,
    ));
    assert(unit_there(db.units, e.unit_id) <==> crate::db::has_unit(db.units, e.unit_id));
    assert(known_of(db, events).contains(e) <==> events.contains(e) && p(e));
}

}
