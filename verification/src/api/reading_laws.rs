//! What reading marks, and what a place leaves behind.

use vstd::prelude::*;

use crate::api::progress::{all_shown_read, is_event_of, lemma_place, lemma_shown_are_units, place_of, push_taken_in, shown_read, taken_in, unit_ids_of};
use crate::clock::Timestamp;
use crate::db::listing::{reading_le, units_of};
use crate::db::plain::{event_there, has_read, recorded_for};
use crate::db::progress::{has_event, pushed};
use crate::db::read_marks::lemma_with_marks;
use crate::db::units::marked;
use crate::db::{units_distinct, DbView};
use crate::domain::api::SetLocatorRequest;
use crate::domain::progress::{locator_of, Locations, ProgressEvent};
use crate::domain::publication::ReadingUnit;
use crate::ids::Uuid;
use crate::order::lemma_sorted;
use crate::tables::{kept_places, lemma_filter_contains, lemma_kept_places};

verus! {

/// A reader on this page of a unit has seen its last page, as far as its pages are counted.
pub open spec fn on_the_last_page(u: ReadingUnit, page: u32) -> bool {
    u.page_count is Some && page + 1 >= u.page_count->0
}

/// An event shows that a unit has been read: in the publication's reading order the unit
/// comes before the event's, or it is the event's and the reader was on its last page.
pub open spec fn shows_read(units: Seq<ReadingUnit>, e: ProgressEvent, unit_id: Uuid) -> bool {
    let own = units_of(units, e.publication_id);
    exists|i: int, at: int|
        0 <= i <= at < own.len() && (#[trigger] own[i]).id == unit_id && (#[trigger] own[at]).id == e.unit_id
            && (i < at || on_the_last_page(own[at], e.page))
}

/// A publication's units in reading order have different identifiers.
proof fn lemma_own_distinct(units: Seq<ReadingUnit>, publication_id: Uuid)
    requires
        units_distinct(units),
    ensures
        forall|i: int, j: int|
            0 <= i < j < units_of(units, publication_id).len() ==> (#[trigger] units_of(
                units,
                publication_id,
            )[i]).id != (#[trigger] units_of(units, publication_id)[j]).id,
{
    let p = |u: ReadingUnit| u.publication_id == publication_id;
    let le = |a: ReadingUnit, b: ReadingUnit| reading_le(a, b);
    let kept = units.filter(p);
    let own = units_of(units, publication_id);
    lemma_kept_places(units, p);
    let at = kept_places(units, p);
    assert(kept.no_duplicates()) by {
        assert forall|i: int, j: int| 0 <= i < kept.len() && 0 <= j < kept.len() && i != j implies kept[i]
            != kept[j] by {
            assert(kept[i] == units[at[i]] && kept[j] == units[at[j]]);
            assert(at[i] < at[j] || at[j] < at[i]);
        }
    }
    lemma_sorted(kept, le);
    crate::order::lemma_sorted_no_duplicates(kept, le);
    lemma_filter_contains(units, p);
    assert forall|i: int, j: int| 0 <= i < j < own.len() implies (#[trigger] own[i]).id != (
    #[trigger] own[j]).id by {
        assert(own.contains(own[i]) && own.contains(own[j]));
        assert(units.contains(own[i]) && units.contains(own[j]));
        let a = choose|a: int| 0 <= a < units.len() && units[a] == own[i];
        let b = choose|b: int| 0 <= b < units.len() && units[b] == own[j];
        if own[i].id == own[j].id {
            assert(units[a].id == units[b].id);
            assert(a == b);
        }
    }
}

/// What one event shows to have been read, by its units.
proof fn lemma_shown(units: Seq<ReadingUnit>, e: ProgressEvent, unit_id: Uuid)
    requires
        units_distinct(units),
    ensures
        shown_read(units_of(units, e.publication_id), e).contains(unit_id) <==> shows_read(
            units,
            e,
            unit_id,
        ),
{
    let own = units_of(units, e.publication_id);
    let out = shown_read(own, e);
    lemma_place(own, e.unit_id);
    lemma_own_distinct(units, e.publication_id);
    match place_of(own, e.unit_id) {
        None => {},
        Some(at) => {
            let before = unit_ids_of(own.take(at));
            if out.contains(unit_id) {
                let n = choose|n: int| 0 <= n < out.len() && out[n] == unit_id;
                if n < at {
                    assert(out[n] == before[n]);
                    assert(own[n].id == unit_id && own[at].id == e.unit_id);
                } else {
                    assert(own[at].id == unit_id);
                    assert(on_the_last_page(own[at], e.page));
                }
            }
            if shows_read(units, e, unit_id) {
                let (i, k) = choose|i: int, k: int|
                    0 <= i <= k < own.len() && (#[trigger] own[i]).id == unit_id && (#[trigger] own[k]).id
                        == e.unit_id && (i < k || on_the_last_page(own[k], e.page));
                assert(k == at) by {
                    if k < at {
                        assert(own[k].id != own[at].id);
                    } else if at < k {
                        assert(own[at].id != own[k].id);
                    }
                }
                if i < at {
                    assert(before[i] == unit_id);
                    assert(out[i] == unit_id);
                } else {
                    assert(out[at] == unit_id);
                }
            }
        },
    }
}

/// What events show to have been read, by their units.
proof fn lemma_all_shown(units: Seq<ReadingUnit>, events: Seq<ProgressEvent>, unit_id: Uuid)
    requires
        units_distinct(units),
    ensures
        all_shown_read(units, events).contains(unit_id) <==> exists|k: int|
            0 <= k < events.len() && shows_read(units, #[trigger] events[k], unit_id),
    decreases events.len(),
{
    if events.len() > 0 {
        let init = events.drop_last();
        let e = events.last();
        lemma_all_shown(units, init, unit_id);
        lemma_shown(units, e, unit_id);
        let before = all_shown_read(units, init);
        let more = shown_read(units_of(units, e.publication_id), e);
        let out = all_shown_read(units, events);
        if out.contains(unit_id) {
            let n = choose|n: int| 0 <= n < out.len() && out[n] == unit_id;
            if n < before.len() {
                assert(before[n] == unit_id);
                assert(before.contains(unit_id));
                let k = choose|k: int|
                    0 <= k < init.len() && shows_read(units, #[trigger] init[k], unit_id);
                assert(events[k] == init[k]);
            } else {
                assert(more[n - before.len()] == unit_id);
                assert(more.contains(unit_id));
                assert(shows_read(units, events[events.len() - 1], unit_id));
            }
        }
        if exists|k: int| 0 <= k < events.len() && shows_read(units, #[trigger] events[k], unit_id) {
            let k = choose|k: int|
                0 <= k < events.len() && shows_read(units, #[trigger] events[k], unit_id);
            if k < init.len() {
                assert(init[k] == events[k]);
                let n = choose|n: int| 0 <= n < before.len() && before[n] == unit_id;
                assert(out[n] == unit_id);
            } else {
                let n = choose|n: int| 0 <= n < more.len() && more[n] == unit_id;
                assert(out[before.len() + n] == unit_id);
            }
        }
    }
}

/// After a push a reader has read what they had read, and exactly what the events show: in
/// reading order every unit before an event's own, and that one where the event was on its
/// last counted page. Nobody else's marks change.
pub proof fn law_a_push_marks_what_was_read(
    db: DbView,
    user_id: Uuid,
    events: Seq<ProgressEvent>,
    now: Timestamp,
    who: Uuid,
    unit_id: Uuid,
)
    requires
        db.wf(),
    ensures
        has_read(push_taken_in(db, user_id, events, now).marks, who, unit_id) <==> has_read(
            db.marks,
            who,
            unit_id,
        ) || (who == user_id && exists|k: int|
            0 <= k < events.len() && shows_read(db.units, #[trigger] events[k], unit_id)),
        push_taken_in(db, user_id, events, now).journal == pushed(db, user_id, events).journal,
        push_taken_in(db, user_id, events, now).units == db.units,
{
    let ids = all_shown_read(db.units, events);
    lemma_shown_are_units(db.units, events);
    lemma_all_shown(db.units, events, unit_id);
    lemma_with_marks(db.marks, db.units, user_id, ids, now);
    let out = push_taken_in(db, user_id, events, now).marks;
    assert(marked(out, who, unit_id) <==> has_read(out, who, unit_id));
    assert(marked(db.marks, who, unit_id) <==> has_read(db.marks, who, unit_id));
}

/// Setting a place on the unit at `at` in reading order gives the reader marks on every unit
/// before it, on that unit exactly where the page is its last counted one, and on none
/// behind it; and the place is in the journal as the reader's.
pub proof fn law_a_place_marks_what_was_read(
    db: DbView,
    user_id: Uuid,
    e: ProgressEvent,
    now: Timestamp,
    at: int,
    i: int,
    who: Uuid,
    unit_id: Uuid,
)
    requires
        db.wf(),
        0 <= at < units_of(db.units, e.publication_id).len(),
        units_of(db.units, e.publication_id)[at].id == e.unit_id,
        0 <= i < units_of(db.units, e.publication_id).len(),
    ensures
        ({
            let own = units_of(db.units, e.publication_id);
            let after = taken_in(db, user_id, e, now);
            &&& has_read(after.marks, user_id, own[i].id) <==> has_read(db.marks, user_id, own[i].id) || i < at
                || (i == at && own[at].page_count is Some && e.page + 1 >= own[at].page_count->0)
            &&& who != user_id ==> (has_read(after.marks, who, unit_id) <==> has_read(
                db.marks,
                who,
                unit_id,
            ))
            &&& (forall|k: int| 0 <= k < own.len() ==> (#[trigger] own[k]).id != unit_id) ==> (has_read(
                after.marks,
                who,
                unit_id,
            ) <==> has_read(db.marks, who, unit_id))
            &&& !event_there(db.journal, e.id) ==> recorded_for(after.journal, user_id, e)
            &&& after.units == db.units
        }),
{
    let own = units_of(db.units, e.publication_id);
    let after = taken_in(db, user_id, e, now);
    let events = seq![e];
    assert(events[0] == e);
    lemma_own_distinct(db.units, e.publication_id);
    law_a_push_marks_what_was_read(db, user_id, events, now, user_id, own[i].id);
    law_a_push_marks_what_was_read(db, user_id, events, now, who, unit_id);
    assert(after.marks == push_taken_in(db, user_id, events, now).marks);
    if shows_read(db.units, e, own[i].id) {
        let (a, b) = choose|a: int, b: int|
            0 <= a <= b < own.len() && (#[trigger] own[a]).id == own[i].id && (#[trigger] own[b]).id
                == e.unit_id && (a < b || on_the_last_page(own[b], e.page));
        assert(a == i && b == at) by {
            if a != i {
                assert(own[a].id != own[i].id || own[i].id != own[a].id);
                if a < i {
                    assert(own[a].id != own[i].id);
                } else {
                    assert(own[i].id != own[a].id);
                }
            }
            if b < at {
                assert(own[b].id != own[at].id);
            } else if at < b {
                assert(own[at].id != own[b].id);
            }
        }
    }
    if i < at || (i == at && on_the_last_page(own[at], e.page)) {
        assert(own[i].id == own[i].id && own[at].id == e.unit_id);
        assert(shows_read(db.units, e, own[i].id));
        assert(shows_read(db.units, events[0], own[i].id));
    }
    if !event_there(db.journal, e.id) {
        assert(!has_event(db.journal, e.id));
        let n = db.journal.len() as int;
        assert(after.journal[n].user_id == user_id && after.journal[n].event == e);
    }
}

/// A place that is set is an event of that publication, on the unit and the page that the reader
/// named, from the device that said so, at that time; and the reader is told so.
pub proof fn law_a_place_is_where_the_reader_said(
    e: ProgressEvent,
    publication_id: Uuid,
    req: SetLocatorRequest,
    id: Uuid,
    now: Timestamp,
)
    requires
        is_event_of(e, publication_id, req, id, now),
    ensures
        e.id == id && e.publication_id == publication_id && e.at == now,
        e.unit_id == req.unit_id && e.page == req.page && e.device == req.device,
        locator_of(e).unit_id == req.unit_id,
        locator_of(e).locations == (Locations::Page { page: req.page }),
        locator_of(e).at == now,
{
}

}
