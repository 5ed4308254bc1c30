//! The journal's end of the API: places are set, journals pushed and read, and what has
//! been read is marked on the way.

use vstd::prelude::*;

use crate::api::error::ApiError;
use crate::clock::{is_reading, Timestamp};
use crate::db::listing::{unit_with, units_of};
use crate::db::progress::{appended, known_of, next_after, pushed};
use crate::db::read_marks::{lemma_first_unknown, lemma_with_marks, with_marks};
use crate::db::units::marked;
use crate::db::{has_publication, has_unit, Db, DbView};
use crate::domain::api::{EventsResponse, PushEventsRequest, PushEventsResponse, SetLocatorRequest};
use crate::domain::progress::{locator, locator_of, Locations, Locator, ProgressEvent};
use crate::domain::publication::ReadingUnit;
use crate::ids::{timely_form, Uuid};
use crate::tables::count32;

verus! {

/// Where a reader's copy of the journal ends.
#[derive(Clone, Copy, Debug, PartialEq, Eq, Structural)]
pub struct EventsQuery {
    pub since: Option<i64>,
}

// ---- reading marks what was read ----

/// A reader on this page has come to the end of a unit, as far as its pages are known.
pub open spec fn reached_end(u: ReadingUnit, page: u32) -> bool {
    match u.page_count {
        Some(n) => n == 0 || page >= n - 1,
        None => false,
    }
}

/// Where a unit stands among units.
pub open spec fn place_of(units: Seq<ReadingUnit>, id: Uuid) -> Option<int>
    decreases units.len(),
{
    if units.len() == 0 {
        None
    } else {
        match place_of(units.drop_last(), id) {
            Some(i) => Some(i),
            None => if units.last().id == id {
                Some(units.len() - 1)
            } else {
                None
            },
        }
    }
}

/// The identifiers of units.
pub open spec fn unit_ids_of(units: Seq<ReadingUnit>) -> Seq<Uuid> {
    units.map_values(|u: ReadingUnit| u.id)
}

/// What an event shows to have been read, of a publication's units in reading order:
/// all before the event's unit, and that unit once its end is reached.
pub open spec fn shown_read(units: Seq<ReadingUnit>, e: ProgressEvent) -> Seq<Uuid> {
    match place_of(units, e.unit_id) {
        None => Seq::empty(),
        Some(i) => {
            let before = unit_ids_of(units.take(i));
            if reached_end(units[i], e.page) {
                before.push(e.unit_id)
            } else {
                before
            }
        },
    }
}

/// What events show to have been read.
pub open spec fn all_shown_read(units: Seq<ReadingUnit>, events: Seq<ProgressEvent>) -> Seq<Uuid>
    decreases events.len(),
{
    if events.len() == 0 {
        Seq::empty()
    } else {
        all_shown_read(units, events.drop_last()) + shown_read(
            units_of(units, events.last().publication_id),
            events.last(),
        )
    }
}

pub(crate) proof fn lemma_place(units: Seq<ReadingUnit>, id: Uuid)
    ensures
        match place_of(units, id) {
            Some(i) => 0 <= i < units.len() && units[i].id == id && forall|j: int|
                0 <= j < i ==> (#[trigger] units[j]).id != id,
            None => forall|j: int| 0 <= j < units.len() ==> (#[trigger] units[j]).id != id,
        },
    decreases units.len(),
{
    if units.len() > 0 {
        let d = units.drop_last();
        lemma_place(d, id);
        assert(forall|j: int| 0 <= j < d.len() ==> #[trigger] units[j] == d[j]);
    }
}

/// Every unit of a publication in reading order is one of the units.
pub(crate) proof fn lemma_units_of_are_units(units: Seq<ReadingUnit>, publication_id: Uuid)
    ensures
        forall|i: int|
            0 <= i < units_of(units, publication_id).len() ==> has_unit(
                units,
                (#[trigger] units_of(units, publication_id)[i]).id,
            ),
{
    let p = |u: ReadingUnit| u.publication_id == publication_id;
    let kept = units.filter(p);
    let le = |a: ReadingUnit, b: ReadingUnit| crate::db::listing::reading_le(a, b);
    let out = units_of(units, publication_id);
    crate::order::lemma_sorted_multiset(kept, le);
    crate::tables::lemma_filter_contains(units, p);
    assert forall|i: int| 0 <= i < out.len() implies has_unit(units, (#[trigger] out[i]).id) by {
        broadcast use vstd::seq_lib::group_to_multiset_ensures;
        assert(out.contains(out[i]));
        assert(out.to_multiset().contains(out[i]));
        assert(kept.contains(out[i]));
        assert(units.contains(out[i]));
        let k = choose|k: int| 0 <= k < units.len() && units[k] == out[i];
        assert(units[k].id == out[i].id);
    }
}

/// What events show to have been read is of units.
pub proof fn lemma_shown_are_units(units: Seq<ReadingUnit>, events: Seq<ProgressEvent>)
    ensures
        forall|i: int|
            0 <= i < all_shown_read(units, events).len() ==> has_unit(
                units,
                #[trigger] all_shown_read(units, events)[i],
            ),
    decreases events.len(),
{
    if events.len() > 0 {
        lemma_shown_are_units(units, events.drop_last());
        let e = events.last();
        let own = units_of(units, e.publication_id);
        lemma_units_of_are_units(units, e.publication_id);
        lemma_place(own, e.unit_id);
        let before = all_shown_read(units, events.drop_last());
        let more = shown_read(own, e);
        let out = all_shown_read(units, events);
        assert forall|i: int| 0 <= i < out.len() implies has_unit(units, #[trigger] out[i]) by {
            if i < before.len() {
                assert(out[i] == before[i]);
            } else {
                let k = i - before.len();
                assert(out[i] == more[k]);
                let at = place_of(own, e.unit_id)->0;
                if k < at {
                    assert(more[k] == own[k].id);
                } else {
                    assert(more[k] == own[at].id);
                }
            }
        }
    }
}

/// Collects what an event shows to have been read.
fn push_shown_read(units: &Vec<ReadingUnit>, e: &ProgressEvent, ids: &mut Vec<Uuid>)
    ensures
        final(ids)@ == old(ids)@ + shown_read(units@, *e),
{
    let mut i: usize = 0;
    proof {
        lemma_place(units@, e.unit_id);
    }
    while i < units.len() && units[i].id != e.unit_id
        invariant
            i <= units@.len(),
            forall|j: int| 0 <= j < i ==> (#[trigger] units@[j]).id != e.unit_id,
        decreases units@.len() - i,
    {
        i += 1;
    }
    if i == units.len() {
        assert(ids@ =~= old(ids)@ + shown_read(units@, *e));
        return;
    }
    let at: usize = i;
    assert(place_of(units@, e.unit_id) == Some(at as int));
    let ghost had = ids@;
    let mut k: usize = 0;
    while k < at
        invariant
            k <= at < units@.len(),
            ids@ == had + unit_ids_of(units@.take(k as int)),
        decreases at - k,
    {
        ids.push(units[k].id);
        assert(unit_ids_of(units@.take(k + 1)) =~= unit_ids_of(units@.take(k as int)).push(
            units@[k as int].id,
        ));
        assert(ids@ =~= had + unit_ids_of(units@.take(k + 1)));
        k += 1;
    }
    let ended = match units[at].page_count {
        Some(n) => n == 0 || e.page >= n - 1,
        None => false,
    };
    if ended {
        ids.push(e.unit_id);
    }
    assert(ids@ =~= old(ids)@ + shown_read(units@, *e));
}

/// Marks what events show to have been read: everything before an event's unit in
/// reading order, and the unit itself once its last known page is reached. Marks are
/// only ever added.
pub fn auto_mark_read(db: &mut Db, user_id: Uuid, events: &Vec<ProgressEvent>, now: Timestamp)
    requires
        old(db).wf(),
    ensures
        final(db).wf(),
        final(db)@ == (DbView {
            marks: with_marks(
                old(db)@.marks,
                user_id,
                all_shown_read(old(db)@.units, events@),
                now,
            ),
            ..old(db)@
        }),
{
    let mut ids: Vec<Uuid> = Vec::new();
    let mut i: usize = 0;
    assert(events@.take(0) =~= Seq::empty());
    while i < events.len()
        invariant
            *db == *old(db),
            i <= events@.len(),
            ids@ == all_shown_read(db@.units, events@.take(i as int)),
        decreases events@.len() - i,
    {
        assert(events@.take(i + 1).drop_last() =~= events@.take(i as int));
        let units = db.list_units(events[i].publication_id);
        push_shown_read(&units, &events[i], &mut ids);
        i += 1;
    }
    assert(events@.take(events@.len() as int) =~= events@);
    proof {
        lemma_shown_are_units(db@.units, events@);
        lemma_first_unknown(db@.units, ids@);
    }
    let _ = db.mark_read_at(user_id, &ids, now);
}

/// Reading only ever adds marks: what was marked stays marked, for every reader, and
/// nothing of other readers changes.
pub proof fn law_reading_only_adds_marks(
    db: DbView,
    user_id: Uuid,
    events: Seq<ProgressEvent>,
    now: Timestamp,
    who: Uuid,
    unit_id: Uuid,
)
    requires
        db.wf(),
    ensures
        ({
            let after = with_marks(db.marks, user_id, all_shown_read(db.units, events), now);
            &&& marked(db.marks, who, unit_id) ==> marked(after, who, unit_id)
            &&& who != user_id ==> (marked(after, who, unit_id) <==> marked(db.marks, who, unit_id))
        }),
{
    lemma_shown_are_units(db.units, events);
    lemma_with_marks(db.marks, db.units, user_id, all_shown_read(db.units, events), now);
}

/// After an event, every unit that comes before its own in reading order is marked read,
/// and its own once its last known page is reached.
pub proof fn law_reading_on_marks_what_came_before(
    db: DbView,
    user_id: Uuid,
    e: ProgressEvent,
    now: Timestamp,
    at: int,
    i: int,
)
    requires
        db.wf(),
        place_of(units_of(db.units, e.publication_id), e.unit_id) == Some(at),
        0 <= i < at || (i == at && reached_end(units_of(db.units, e.publication_id)[at], e.page)),
    ensures
        marked(
            with_marks(db.marks, user_id, all_shown_read(db.units, seq![e]), now),
            user_id,
            units_of(db.units, e.publication_id)[i].id,
        ),
{
    let own = units_of(db.units, e.publication_id);
    let ids = all_shown_read(db.units, seq![e]);
    lemma_place(own, e.unit_id);
    assert(seq![e].drop_last() =~= Seq::<ProgressEvent>::empty());
    assert(all_shown_read(db.units, Seq::<ProgressEvent>::empty()) =~= Seq::<Uuid>::empty());
    assert(ids =~= shown_read(own, e));
    lemma_shown_are_units(db.units, seq![e]);
    lemma_with_marks(db.marks, db.units, user_id, ids, now);
    assert(ids[i] == own[i].id);
    assert(ids.contains(own[i].id));
}

// ---- requests ----

/// The event that a request to set a place makes.
pub open spec fn is_event_of(
    e: ProgressEvent,
    publication_id: Uuid,
    req: SetLocatorRequest,
    id: Uuid,
    now: Timestamp,
) -> bool {
    &&& e.id == id
    &&& e.publication_id == publication_id
    &&& e.unit_id == req.unit_id
    &&& e.page == req.page
    &&& e.device == req.device
    &&& e.at == now
}

/// The tables after an event was taken in: it is in the journal, and what it shows to
/// have been read is marked.
pub open spec fn taken_in(db: DbView, user_id: Uuid, e: ProgressEvent, now: Timestamp) -> DbView {
    DbView {
        journal: appended(db.journal, db.next_seq, user_id, e),
        next_seq: next_after(db.journal, db.next_seq, e),
        marks: with_marks(db.marks, user_id, all_shown_read(db.units, seq![e]), now),
        ..db
    }
}

/// Sets a reader's place, with an identifier and a time at hand. The unit has to be one
/// of the publication's.
pub fn set_position_at(
    db: &mut Db,
    user_id: Uuid,
    publication_id: Uuid,
    req: SetLocatorRequest,
    id: Uuid,
    now: Timestamp,
) -> (r: Result<Locator, ApiError>)
    requires
        old(db).wf(),
        old(db)@.next_seq < i64::MAX,
    ensures
        final(db).wf(),
        if !has_unit(old(db)@.units, req.unit_id) {
            r == Err::<Locator, ApiError>(ApiError::NotFound) && final(db)@ == old(db)@
        } else if unit_with(old(db)@.units, req.unit_id).publication_id != publication_id {
            &&& r matches Err(ApiError::Unprocessable(m)) && m@ == "chapter does not belong to this manga"@
            &&& final(db)@ == old(db)@
        } else {
            exists|e: ProgressEvent|
                {
                    &&& is_event_of(e, publication_id, req, id, now)
                    &&& r == Ok::<Locator, ApiError>(locator_of(e))
                    &&& final(db)@ == #[trigger] taken_in(old(db)@, user_id, e, now)
                }
        },
        r is Ok <==> exists|k: int|
            0 <= k < old(db)@.units.len() && (#[trigger] old(db)@.units[k]).id == req.unit_id
                && old(db)@.units[k].publication_id == publication_id,
        r matches Ok(l) ==> l.unit_id == req.unit_id && l.locations == (Locations::Page { page: req.page }) && l.at
            == now,
{
    let unit = match db.get_unit(req.unit_id) {
        Ok(u) => u,
        Err(e) => {
            return Err(ApiError::from_db(e));
        },
    };
    proof {
        let k = choose|k: int| 0 <= k < db@.units.len() && (#[trigger] db@.units[k]).id == req.unit_id;
        assert forall|j: int| 0 <= j < db@.units.len() && (#[trigger] db@.units[j]).id == req.unit_id implies j
            == k by {}
    }
    if unit.publication_id != publication_id {
        return Err(ApiError::Unprocessable("chapter does not belong to this manga".to_owned()));
    }
    let event = ProgressEvent {
        id,
        publication_id,
        unit_id: req.unit_id,
        page: req.page,
        device: req.device,
        at: now,
    };
    proof {
        let k = choose|k: int| 0 <= k < db@.units.len() && (#[trigger] db@.units[k]).id == req.unit_id;
        assert(has_publication(db@.publications, db@.units[k].publication_id));
    }
    match db.append_event(user_id, &event) {
        Ok(()) => {},
        Err(e) => {
            return Err(ApiError::from_db(e));
        },
    }
    let ghost journaled = db@;
    let place = locator(&event);
    let ghost seen = event;
    let mut events: Vec<ProgressEvent> = Vec::new();
    events.push(event);
    assert(events@ =~= seq![seen]);
    auto_mark_read(db, user_id, &events, now);
    assert(db@ =~= taken_in(old(db)@, user_id, seen, now));
    assert(is_event_of(seen, publication_id, req, id, now));
    Ok(place)
}

/// Sets a reader's place.
pub fn set_position(db: &mut Db, user_id: Uuid, publication_id: Uuid, req: SetLocatorRequest) -> (r: Result<
    Locator,
    ApiError,
>)
    requires
        old(db).wf(),
        old(db)@.next_seq < i64::MAX,
    ensures
        final(db).wf(),
        if !has_unit(old(db)@.units, req.unit_id) {
            r == Err::<Locator, ApiError>(ApiError::NotFound) && final(db)@ == old(db)@
        } else if unit_with(old(db)@.units, req.unit_id).publication_id != publication_id {
            &&& r matches Err(ApiError::Unprocessable(m)) && m@ == "chapter does not belong to this manga"@
            &&& final(db)@ == old(db)@
        } else {
            exists|e: ProgressEvent, id: Uuid, now: Timestamp|
                {
                    &&& #[trigger] is_event_of(e, publication_id, req, id, now)
                    &&& timely_form(id)
                    &&& is_reading(now)
                    &&& r == Ok::<Locator, ApiError>(locator_of(e))
                    &&& final(db)@ == taken_in(old(db)@, user_id, e, now)
                }
        },
        r is Ok <==> exists|k: int|
            0 <= k < old(db)@.units.len() && (#[trigger] old(db)@.units[k]).id == req.unit_id
                && old(db)@.units[k].publication_id == publication_id,
        r matches Ok(l) ==> l.unit_id == req.unit_id && l.locations == (Locations::Page { page: req.page }),
{
    let id = crate::ids::timely_uuid();
    let now = crate::clock::utc_now();
    set_position_at(db, user_id, publication_id, req, id, now)
}

/// The tables after a push: the events that name known units are in the journal, and
/// what the events show to have been read is marked.
pub open spec fn push_taken_in(db: DbView, user_id: Uuid, events: Seq<ProgressEvent>, now: Timestamp) -> DbView {
    let journaled = pushed(db, user_id, events);
    DbView {
        marks: with_marks(
            journaled.marks,
            user_id,
            all_shown_read(journaled.units, events),
            now,
        ),
        ..journaled
    }
}

/// Takes in the journal of a device that was offline. Events of what is no longer there
/// are skipped and counted; the rest is taken.
pub fn push_events(db: &mut Db, user_id: Uuid, req: &PushEventsRequest, now: Timestamp) -> (r: PushEventsResponse)
    requires
        old(db).wf(),
        old(db)@.next_seq + req.events@.len() <= i64::MAX,
    ensures
        final(db).wf(),
        final(db)@ == push_taken_in(old(db)@, user_id, req.events@, now),
        r.accepted == count32(known_of(old(db)@, req.events@).len() as int),
        r.skipped == count32(req.events@.len() - known_of(old(db)@, req.events@).len()),
{
    let (accepted, skipped) = db.append_events(user_id, &req.events);
    auto_mark_read(db, user_id, &req.events, now);
    PushEventsResponse { accepted, skipped }
}

/// A slice of a reader's journal, from where their copy ends.
pub fn events(db: &Db, user_id: Uuid, query: EventsQuery) -> (r: EventsResponse)
    ensures
        ({
            let from: int = match query.since {
                Some(s) => s as int,
                None => 0,
            };
            let slice = crate::db::progress::slice_after(db@.journal, user_id, from);
            r.events@ == crate::db::progress::events_in(slice) && r.next_since
                == crate::db::progress::cursor_of(slice)
        }),
{
    let (events, next_since) = db.events_since(user_id, query.since);
    EventsResponse { events, next_since }
}

}
