//! The journal: appended to, and read from a cursor.

use vstd::prelude::*;

use crate::db::{
    has_publication, has_unit, journal_ordered, journal_placed, Db, DbError, DbView, JournalEntry,
};
use crate::domain::progress::{locator, locator_of, merge_position, newest, Locator, ProgressEvent};
use crate::domain::publication::{PublicationView, ReadingUnit};
use crate::ids::Uuid;
use crate::tables::{any, count32, lemma_filter_none, lemma_filter_push, lemma_filter_take, to_count};

verus! {

/// The most entries that one slice of the journal holds.
pub const PAGE_LIMIT: usize = 1000;

/// The journal has an event with this identifier.
pub open spec fn has_event(journal: Seq<JournalEntry>, id: Uuid) -> bool {
    exists|i: int| 0 <= i < journal.len() && (#[trigger] journal[i]).event.id == id
}

/// The journal with an event appended under the number `seq`, unless it has it.
pub open spec fn appended(
    journal: Seq<JournalEntry>,
    seq: int,
    user_id: Uuid,
    event: ProgressEvent,
) -> Seq<JournalEntry> {
    if has_event(journal, event.id) {
        journal
    } else {
        journal.push(JournalEntry { seq: seq as i64, user_id, event })
    }
}

/// The next number, once an event was appended.
pub open spec fn next_after(journal: Seq<JournalEntry>, seq: int, event: ProgressEvent) -> int {
    if has_event(journal, event.id) {
        seq
    } else {
        seq + 1
    }
}

/// The journal and the next number.
#[verifier::ext_equal]
pub struct JournalState {
    pub journal: Seq<JournalEntry>,
    pub next_seq: int,
}

/// A journal with a batch appended, event by event.
pub open spec fn all_appended(
    j: JournalState,
    user_id: Uuid,
    events: Seq<ProgressEvent>,
) -> JournalState
    decreases events.len(),
{
    if events.len() == 0 {
        j
    } else {
        let before = all_appended(j, user_id, events.drop_last());
        JournalState {
            journal: appended(before.journal, before.next_seq, user_id, events.last()),
            next_seq: next_after(before.journal, before.next_seq, events.last()),
        }
    }
}

/// The server knows the event's publication and unit.
pub open spec fn is_known(
    publications: Seq<PublicationView>,
    units: Seq<ReadingUnit>,
    e: ProgressEvent,
) -> bool {
    has_publication(publications, e.publication_id) && has_unit(units, e.unit_id)
}

/// The events of a batch that can apply.
pub open spec fn known_of(db: DbView, events: Seq<ProgressEvent>) -> Seq<ProgressEvent> {
    events.filter(|e: ProgressEvent| is_known(db.publications, db.units, e))
}

/// The tables with a batch appended for a reader, events that cannot apply left out.
pub open spec fn pushed(db: DbView, user_id: Uuid, events: Seq<ProgressEvent>) -> DbView {
    let j = all_appended(
        JournalState { journal: db.journal, next_seq: db.next_seq },
        user_id,
        known_of(db, events),
    );
    DbView { journal: j.journal, next_seq: j.next_seq, ..db }
}

/// A reader's events of one publication, as they arrived.
pub open spec fn events_of(
    journal: Seq<JournalEntry>,
    user_id: Uuid,
    publication_id: Uuid,
) -> Seq<ProgressEvent> {
    journal.filter(
        |e: JournalEntry| e.user_id == user_id && e.event.publication_id == publication_id,
    ).map_values(|e: JournalEntry| e.event)
}

/// A reader's place in a publication.
pub open spec fn position_in(
    journal: Seq<JournalEntry>,
    user_id: Uuid,
    publication_id: Uuid,
) -> Option<Locator> {
    match newest(events_of(journal, user_id, publication_id)) {
        Some(e) => Some(locator_of(e)),
        None => None,
    }
}

/// A reader's entries with numbers above `since`.
pub open spec fn entries_after(journal: Seq<JournalEntry>, user_id: Uuid, since: int) -> Seq<JournalEntry> {
    journal.filter(|e: JournalEntry| e.user_id == user_id && e.seq > since)
}

/// The first of a reader's entries above `since`, at most a slice full.
pub open spec fn slice_after(journal: Seq<JournalEntry>, user_id: Uuid, since: int) -> Seq<JournalEntry> {
    let rest = entries_after(journal, user_id, since);
    if rest.len() > PAGE_LIMIT {
        rest.take(PAGE_LIMIT as int)
    } else {
        rest
    }
}

/// Where the slice after a slice starts.
pub open spec fn cursor_of(slice: Seq<JournalEntry>) -> Option<i64> {
    if slice.len() > 0 {
        Some(slice.last().seq)
    } else {
        None
    }
}

/// The events of journal entries.
pub open spec fn events_in(s: Seq<JournalEntry>) -> Seq<ProgressEvent> {
    s.map_values(|e: JournalEntry| e.event)
}

/// Appending one event keeps the journal in order and in place.
pub proof fn lemma_appended(
    journal: Seq<JournalEntry>,
    next_seq: int,
    publications: Seq<PublicationView>,
    user_id: Uuid,
    event: ProgressEvent,
)
    requires
        journal_ordered(journal, next_seq),
        journal_placed(journal, publications),
        has_publication(publications, event.publication_id),
        next_seq <= i64::MAX,
    ensures
        journal_ordered(
            appended(journal, next_seq, user_id, event),
            next_after(journal, next_seq, event),
        ),
        journal_placed(appended(journal, next_seq, user_id, event), publications),
        has_event(appended(journal, next_seq, user_id, event), event.id),
        forall|id: Uuid|
            has_event(journal, id) ==> #[trigger] has_event(
                appended(journal, next_seq, user_id, event),
                id,
            ),
{
    let out = appended(journal, next_seq, user_id, event);
    if !has_event(journal, event.id) {
        assert forall|i: int| 0 <= i < journal.len() implies (#[trigger] journal[i]).event.id != event.id by {}
        assert(out[out.len() - 1].event.id == event.id);
        assert forall|id: Uuid| has_event(journal, id) implies #[trigger] has_event(out, id) by {
            let i = choose|i: int| 0 <= i < journal.len() && (#[trigger] journal[i]).event.id == id;
            assert(out[i].event.id == id);
        }
    }
}

/// Appending a batch keeps the journal in order and in place, uses at most one
/// number per event, and leaves every event of the batch in the journal.
pub proof fn lemma_all_appended(
    j: JournalState,
    publications: Seq<PublicationView>,
    user_id: Uuid,
    events: Seq<ProgressEvent>,
)
    requires
        journal_ordered(j.journal, j.next_seq),
        journal_placed(j.journal, publications),
        forall|i: int|
            0 <= i < events.len() ==> has_publication(
                publications,
                (#[trigger] events[i]).publication_id,
            ),
        j.next_seq + events.len() <= i64::MAX,
    ensures
        ({
            let out = all_appended(j, user_id, events);
            &&& journal_ordered(out.journal, out.next_seq)
            &&& journal_placed(out.journal, publications)
            &&& j.next_seq <= out.next_seq <= j.next_seq + events.len()
            &&& forall|id: Uuid| has_event(j.journal, id) ==> #[trigger] has_event(out.journal, id)
            &&& forall|i: int|
                0 <= i < events.len() ==> has_event(out.journal, (#[trigger] events[i]).id)
        }),
    decreases events.len(),
{
    if events.len() > 0 {
        let init = events.drop_last();
        assert forall|i: int| 0 <= i < init.len() implies has_publication(
            publications,
            (#[trigger] init[i]).publication_id,
        ) by {
            assert(init[i] == events[i]);
        }
        lemma_all_appended(j, publications, user_id, init);
        let before = all_appended(j, user_id, init);
        assert(has_publication(publications, events[events.len() - 1].publication_id));
        lemma_appended(before.journal, before.next_seq, publications, user_id, events.last());
        let out = all_appended(j, user_id, events);
        assert forall|i: int| 0 <= i < events.len() implies has_event(
            out.journal,
            (#[trigger] events[i]).id,
        ) by {
            if i < init.len() {
                assert(init[i] == events[i]);
            }
        }
    }
}

/// Appending events that are all there already changes nothing.
pub proof fn lemma_nothing_appended(j: JournalState, user_id: Uuid, events: Seq<ProgressEvent>)
    requires
        forall|i: int| 0 <= i < events.len() ==> has_event(j.journal, (#[trigger] events[i]).id),
    ensures
        all_appended(j, user_id, events) == j,
    decreases events.len(),
{
    if events.len() > 0 {
        let init = events.drop_last();
        assert forall|i: int| 0 <= i < init.len() implies has_event(
            j.journal,
            (#[trigger] init[i]).id,
        ) by {
            assert(init[i] == events[i]);
        }
        lemma_nothing_appended(j, user_id, init);
        assert(has_event(j.journal, events[events.len() - 1].id));
    }
}

/// Every event that can apply is of a known publication.
pub proof fn lemma_known_of(db: DbView, events: Seq<ProgressEvent>)
    ensures
        known_of(db, events).len() <= events.len(),
        forall|i: int|
            0 <= i < known_of(db, events).len() ==> is_known(
                db.publications,
                db.units,
                #[trigger] known_of(db, events)[i],
            ),
{
    let p = |e: ProgressEvent| is_known(db.publications, db.units, e);
    crate::tables::lemma_kept_places(events, p);
    crate::tables::lemma_filter_len(events, p);
    assert forall|i: int| 0 <= i < known_of(db, events).len() implies is_known(
        db.publications,
        db.units,
        #[trigger] known_of(db, events)[i],
    ) by {
        let _ = crate::tables::kept_places(events, p)[i];
    }
}

/// Pushing a batch keeps the tables' promises.
pub proof fn lemma_pushed(db: DbView, user_id: Uuid, events: Seq<ProgressEvent>)
    requires
        db.wf(),
        db.next_seq + events.len() <= i64::MAX,
    ensures
        pushed(db, user_id, events).wf(),
        pushed(db, user_id, events).next_seq <= db.next_seq + events.len(),
{
    lemma_known_of(db, events);
    lemma_all_appended(
        JournalState { journal: db.journal, next_seq: db.next_seq },
        db.publications,
        user_id,
        known_of(db, events),
    );
}

/// Pushing the same batch again changes nothing, whoever's journal it first went to:
/// a device may retry a push as often as it likes.
pub proof fn law_replaying_changes_nothing(
    db: DbView,
    user_id: Uuid,
    again: Uuid,
    events: Seq<ProgressEvent>,
)
    requires
        db.wf(),
        db.next_seq + events.len() <= i64::MAX,
    ensures
        pushed(pushed(db, user_id, events), again, events) == pushed(db, user_id, events),
{
    let once = pushed(db, user_id, events);
    lemma_known_of(db, events);
    lemma_all_appended(
        JournalState { journal: db.journal, next_seq: db.next_seq },
        db.publications,
        user_id,
        known_of(db, events),
    );
    assert(known_of(once, events) == known_of(db, events));
    lemma_nothing_appended(
        JournalState { journal: once.journal, next_seq: once.next_seq },
        again,
        known_of(db, events),
    );
}

/// What was in the journal stays there, in its place: pushing only ever adds behind it.
pub proof fn law_journal_only_grows(j: JournalState, user_id: Uuid, events: Seq<ProgressEvent>)
    ensures
        all_appended(j, user_id, events).journal.len() >= j.journal.len(),
        all_appended(j, user_id, events).journal.take(j.journal.len() as int) == j.journal,
    decreases events.len(),
{
    if events.len() > 0 {
        law_journal_only_grows(j, user_id, events.drop_last());
        let before = all_appended(j, user_id, events.drop_last());
        let out = all_appended(j, user_id, events);
        assert(out.journal.take(j.journal.len() as int) =~= before.journal.take(j.journal.len() as int));
    } else {
        assert(j.journal.take(j.journal.len() as int) =~= j.journal);
    }
}

/// Entries above a number, in an ordered journal, are a run at its end.
proof fn lemma_entries_ordered(journal: Seq<JournalEntry>, next_seq: int, user_id: Uuid, since: int)
    requires
        journal_ordered(journal, next_seq),
    ensures
        forall|i: int, j: int|
            0 <= i < j < entries_after(journal, user_id, since).len() ==> (#[trigger] entries_after(
                journal,
                user_id,
                since,
            )[i]).seq < (#[trigger] entries_after(journal, user_id, since)[j]).seq,
        forall|i: int|
            0 <= i < entries_after(journal, user_id, since).len() ==> (#[trigger] entries_after(
                journal,
                user_id,
                since,
            )[i]).seq > since,
{
    let p = |e: JournalEntry| e.user_id == user_id && e.seq > since;
    crate::tables::lemma_kept_places(journal, p);
    let at = crate::tables::kept_places(journal, p);
    let out = entries_after(journal, user_id, since);
    assert forall|i: int, j: int| 0 <= i < j < out.len() implies (#[trigger] out[i]).seq < (
    #[trigger] out[j]).seq by {
        assert(at[i] < at[j]);
        assert(journal[at[i]] == out[i] && journal[at[j]] == out[j]);
    }
    assert forall|i: int| 0 <= i < out.len() implies (#[trigger] out[i]).seq > since by {
        assert(journal[at[i]] == out[i]);
    }
}

/// Raising the number below which entries are left out leaves out exactly those up
/// to it.
proof fn lemma_entries_after_later(
    journal: Seq<JournalEntry>,
    user_id: Uuid,
    since: int,
    later: int,
)
    requires
        since <= later,
    ensures
        entries_after(journal, user_id, later) == entries_after(journal, user_id, since).filter(
            |e: JournalEntry| e.seq > later,
        ),
    decreases journal.len(),
{
    reveal(Seq::filter);
    let q = |e: JournalEntry| e.seq > later;
    let p = |e: JournalEntry| e.user_id == user_id && e.seq > since;
    let p2 = |e: JournalEntry| e.user_id == user_id && e.seq > later;
    if journal.len() > 0 {
        lemma_entries_after_later(journal.drop_last(), user_id, since, later);
        if p(journal.last()) {
            assert(journal.filter(p).drop_last() =~= journal.drop_last().filter(p));
        }
    } else {
        assert(entries_after(journal, user_id, later) =~= entries_after(journal, user_id, since).filter(
            q,
        ));
    }
}

/// In an ordered run, the entries above one of its numbers are those behind it.
proof fn lemma_filter_ordered(s: Seq<JournalEntry>, k: int)
    requires
        0 <= k < s.len(),
        forall|i: int, j: int| 0 <= i < j < s.len() ==> (#[trigger] s[i]).seq < (#[trigger] s[j]).seq,
    ensures
        s.filter(|e: JournalEntry| e.seq > s[k].seq) == s.skip(k + 1),
    decreases s.len(),
{
    let bound = s[k].seq;
    let q = |e: JournalEntry| e.seq > bound;
    let d = s.drop_last();
    assert(s =~= d.push(s.last()));
    lemma_filter_push(d, s.last(), q);
    if k == s.len() - 1 {
        assert forall|i: int| 0 <= i < s.len() implies !q(#[trigger] s[i]) by {
            if i < k {
                assert(s[i].seq < s[k].seq);
            }
        }
        lemma_filter_none(s, q);
        assert(s.filter(q) =~= s.skip(k + 1));
    } else {
        assert(s[k].seq < s[s.len() - 1].seq);
        assert forall|i: int, j: int| 0 <= i < j < d.len() implies (#[trigger] d[i]).seq < (
        #[trigger] d[j]).seq by {
            assert(d[i] == s[i] && d[j] == s[j]);
        }
        lemma_filter_ordered(d, k);
        assert(d[k] == s[k]);
        assert(s.skip(k + 1) =~= d.skip(k + 1).push(s.last()));
    }
}

/// Reading on from a slice's cursor misses nothing and repeats nothing: what comes
/// after the cursor is what was left after the slice.
pub proof fn law_cursor_reads_on(
    journal: Seq<JournalEntry>,
    next_seq: int,
    user_id: Uuid,
    since: int,
)
    requires
        journal_ordered(journal, next_seq),
        slice_after(journal, user_id, since).len() > 0,
    ensures
        ({
            let slice = slice_after(journal, user_id, since);
            let cursor = cursor_of(slice)->0;
            &&& slice + entries_after(journal, user_id, cursor as int) == entries_after(
                journal,
                user_id,
                since,
            )
            &&& cursor > since
        }),
{
    let all = entries_after(journal, user_id, since);
    let slice = slice_after(journal, user_id, since);
    let k = slice.len() - 1;
    lemma_entries_ordered(journal, next_seq, user_id, since);
    assert(slice[k] == all[k]);
    lemma_filter_ordered(all, k);
    lemma_entries_after_later(journal, user_id, since, all[k].seq as int);
    assert(slice + all.skip(k + 1) =~= all);
}

/// Entries that arrive later stand behind every cursor given out before: none is
/// ever missed, however old the event it records.
pub proof fn law_late_events_come_after_the_cursor(
    j: JournalState,
    publications: Seq<PublicationView>,
    user_id: Uuid,
    event: ProgressEvent,
    since: int,
)
    requires
        journal_ordered(j.journal, j.next_seq),
        j.next_seq <= i64::MAX,
        since < j.next_seq,
        !has_event(j.journal, event.id),
    ensures
        entries_after(appended(j.journal, j.next_seq, user_id, event), user_id, since)
            == entries_after(j.journal, user_id, since).push(
            JournalEntry { seq: j.next_seq as i64, user_id, event },
        ),
{
    let p = |e: JournalEntry| e.user_id == user_id && e.seq > since;
    lemma_filter_push(j.journal, JournalEntry { seq: j.next_seq as i64, user_id, event }, p);
}

/// The entries of a journal that meet a condition.
pub(crate) fn pick_entries<F: Fn(&JournalEntry) -> bool>(
    rows: &Vec<JournalEntry>,
    test: F,
    Ghost(p): Ghost<spec_fn(JournalEntry) -> bool>,
) -> (r: Vec<ProgressEvent>)
    requires
        crate::tables::decides(test, p),
    ensures
        r@ == events_in(rows@.filter(p)),
{
    let mut out: Vec<ProgressEvent> = Vec::new();
    let mut i: usize = 0;
    proof {
        lemma_filter_none(rows@.take(0), p);
        assert(events_in(rows@.take(0).filter(p)) =~= Seq::empty());
    }
    while i < rows.len()
        invariant
            crate::tables::decides(test, p),
            i <= rows@.len(),
            out@ == events_in(rows@.take(i as int).filter(p)),
        decreases rows@.len() - i,
    {
        proof {
            lemma_filter_take(rows@, i as int, p);
        }
        if test(&rows[i]) {
            out.push(rows[i].event.clone());
            assert(out@ =~= events_in(rows@.take(i + 1).filter(p)));
        }
        i += 1;
    }
    assert(rows@.take(rows@.len() as int) =~= rows@);
    out
}

impl Db {
    /// Whether the journal has an event with this identifier.
    pub(crate) fn knows_event(&self, id: Uuid) -> (r: bool)
        ensures
            r == has_event(self@.journal, id),
    {
        let is_it = |e: &JournalEntry| -> (b: bool)
            ensures b == (e.event.id == id)
        { e.event.id == id };
        any(&self.journal, is_it, Ghost(|e: JournalEntry| e.event.id == id))
    }

    /// Appends an event for a reader. One that is there already is taken as it is;
    /// one of an unknown publication is refused.
    pub fn append_event(&mut self, user_id: Uuid, event: &ProgressEvent) -> (r: Result<(), DbError>)
        requires
            old(self).wf(),
            old(self)@.next_seq < i64::MAX,
        ensures
            final(self).wf(),
            match r {
                Ok(_) => {
                    &&& has_event(old(self)@.journal, event.id) || has_publication(
                        old(self)@.publications,
                        event.publication_id,
                    )
                    &&& final(self)@ == (DbView {
                        journal: appended(
                            old(self)@.journal,
                            old(self)@.next_seq,
                            user_id,
                            *event,
                        ),
                        next_seq: next_after(old(self)@.journal, old(self)@.next_seq, *event),
                        ..old(self)@
                    })
                },
                Err(e) => {
                    &&& !has_event(old(self)@.journal, event.id)
                    &&& !has_publication(old(self)@.publications, event.publication_id)
                    &&& final(self)@ == old(self)@
                    &&& e matches DbError::Constraint(m) && m@ == "unknown manga"@
                },
            },
    {
        if self.knows_event(event.id) {
            return Ok(());
        }
        if !self.knows_publication(event.publication_id) {
            return Err(DbError::Constraint("unknown manga".to_owned()));
        }
        proof {
            lemma_appended(self@.journal, self@.next_seq, self@.publications, user_id, *event);
        }
        let seq: i64 = self.next_seq;
        self.journal.push(JournalEntry { seq, user_id, event: event.clone() });
        self.next_seq = seq + 1;
        Ok(())
    }

    /// Appends a batch for a reader. Events of publications or units that the server
    /// does not know can never apply and are skipped; events that are there already
    /// count as accepted.
    pub fn append_events(&mut self, user_id: Uuid, events: &Vec<ProgressEvent>) -> (r: (u32, u32))
        requires
            old(self).wf(),
            old(self)@.next_seq + events@.len() <= i64::MAX,
        ensures
            final(self).wf(),
            final(self)@ == pushed(old(self)@, user_id, events@),
            r.0 == count32(known_of(old(self)@, events@).len() as int),
            r.1 == count32(events@.len() - known_of(old(self)@, events@).len()),
    {
        let ghost before = self@;
        let ghost p = |e: ProgressEvent| is_known(before.publications, before.units, e);
        let mut accepted: usize = 0;
        let mut k: usize = 0;
        proof {
            lemma_filter_none(events@.take(0), p);
            assert(events@.take(0).filter(p) =~= Seq::empty());
            assert(self@ =~= pushed(before, user_id, events@.take(0)));
        }
        while k < events.len()
            invariant
                k <= events@.len(),
                before.wf(),
                before.next_seq + events@.len() <= i64::MAX,
                p == (|e: ProgressEvent| is_known(before.publications, before.units, e)),
                self@ == pushed(before, user_id, events@.take(k as int)),
                accepted == events@.take(k as int).filter(p).len(),
                accepted <= k,
            decreases events@.len() - k,
        {
            let event = &events[k];
            proof {
                lemma_pushed(before, user_id, events@.take(k as int));
                lemma_filter_take(events@, k as int, p);
            }
            let ghost done = events@.take(k as int).filter(p);
            if self.knows_publication(event.publication_id) && self.knows_unit(event.unit_id) {
                accepted += 1;
                assert(done.push(*event).drop_last() =~= done);
                if !self.knows_event(event.id) {
                    let seq: i64 = self.next_seq;
                    self.journal.push(JournalEntry { seq, user_id, event: event.clone() });
                    self.next_seq = seq + 1;
                }
            }
            assert(self@ =~= pushed(before, user_id, events@.take(k + 1)));
            k += 1;
        }
        assert(events@.take(events@.len() as int) =~= events@);
        proof {
            lemma_pushed(before, user_id, events@);
        }
        (to_count(accepted), to_count(events.len() - accepted))
    }

    /// A reader's place in a publication: that of the newest event.
    pub fn latest_position(&self, user_id: Uuid, publication_id: Uuid) -> (r: Option<Locator>)
        ensures
            r == position_in(self@.journal, user_id, publication_id),
    {
        let hit = |e: &JournalEntry| -> (b: bool)
            ensures b == (e.user_id == user_id && e.event.publication_id == publication_id)
        { e.user_id == user_id && e.event.publication_id == publication_id };
        let events = pick_entries(
            &self.journal,
            hit,
            Ghost(|e: JournalEntry| e.user_id == user_id && e.event.publication_id == publication_id),
        );
        match merge_position(&events) {
            Some(e) => Some(locator(&e)),
            None => None,
        }
    }

    /// A slice of a reader's journal, behind the cursor `since`, and the cursor for
    /// the next slice. The cursor is the number of arrival: events carry the time
    /// and identifier of the device that saw them, and may arrive late.
    pub fn events_since(&self, user_id: Uuid, since: Option<i64>) -> (r: (
        Vec<ProgressEvent>,
        Option<i64>,
    ))
        ensures
            ({
                let from: int = match since {
                    Some(s) => s as int,
                    None => 0,
                };
                let slice = slice_after(self@.journal, user_id, from);
                r.0@ == events_in(slice) && r.1 == cursor_of(slice)
            }),
    {
        let from: i64 = match since {
            Some(s) => s,
            None => 0,
        };
        let ghost p = |e: JournalEntry| e.user_id == user_id && e.seq > from;
        let ghost all = self.journal@.filter(p);
        let mut out: Vec<ProgressEvent> = Vec::new();
        let mut last: Option<i64> = None;
        let mut i: usize = 0;
        proof {
            lemma_filter_none(self.journal@.take(0), p);
            assert(events_in(self.journal@.take(0).filter(p)) =~= Seq::empty());
        }
        while i < self.journal.len() && out.len() < PAGE_LIMIT
            invariant
                i <= self.journal@.len(),
                p == (|e: JournalEntry| e.user_id == user_id && e.seq > from),
                out@ == events_in(self.journal@.take(i as int).filter(p)),
                last == cursor_of(self.journal@.take(i as int).filter(p)),
                out@.len() <= PAGE_LIMIT,
            decreases self.journal@.len() - i,
        {
            proof {
                lemma_filter_take(self.journal@, i as int, p);
            }
            let e = &self.journal[i];
            if e.user_id == user_id && e.seq > from {
                out.push(e.event.clone());
                last = Some(e.seq);
                assert(out@ =~= events_in(self.journal@.take(i + 1).filter(p)));
            }
            i += 1;
        }
        proof {
            let got = self.journal@.take(i as int).filter(p);
            assert(entries_after(self@.journal, user_id, from as int) =~= all);
            if i == self.journal@.len() {
                assert(self.journal@.take(i as int) =~= self.journal@);
                assert(all.take(all.len() as int) =~= all);
            } else {
                lemma_filter_prefix(self.journal@, i as int, p);
            }
            assert(slice_after(self@.journal, user_id, from as int) =~= got);
        }
        (out, last)
    }

    /// A reader's whole journal, as it arrived.
    pub fn export_events(&self, user_id: Uuid) -> (r: Vec<ProgressEvent>)
        ensures
            r@ == events_in(self@.journal.filter(|e: JournalEntry| e.user_id == user_id)),
    {
        let hit = |e: &JournalEntry| -> (b: bool)
            ensures b == (e.user_id == user_id)
        { e.user_id == user_id };
        pick_entries(&self.journal, hit, Ghost(|e: JournalEntry| e.user_id == user_id))
    }
}

/// Filtering a prefix gives a prefix of the filtered whole.
proof fn lemma_filter_prefix<T>(s: Seq<T>, i: int, p: spec_fn(T) -> bool)
    requires
        0 <= i <= s.len(),
    ensures
        s.take(i).filter(p).len() <= s.filter(p).len(),
        s.filter(p).take(s.take(i).filter(p).len() as int) == s.take(i).filter(p),
    decreases s.len() - i,
{
    if i == s.len() {
        assert(s.take(i) =~= s);
        assert(s.filter(p).take(s.filter(p).len() as int) =~= s.filter(p));
    } else {
        lemma_filter_prefix(s, i + 1, p);
        lemma_filter_take(s, i, p);
        let a = s.take(i).filter(p);
        let b = s.take(i + 1).filter(p);
        assert(s.filter(p).take(a.len() as int) =~= b.take(a.len() as int));
        assert(b.take(a.len() as int) =~= a);
    }
}

}
