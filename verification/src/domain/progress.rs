//! The reading journal: every device appends what it saw, and the newest event
//! of a publication is the reader's place in it.

use vstd::prelude::*;

use crate::clock::Timestamp;
use crate::ids::Uuid;

verus! {

/// A reader was on a page.
#[derive(Debug, PartialEq, Eq)]
pub struct ProgressEvent {
    pub id: Uuid,
    pub publication_id: Uuid,
    pub unit_id: Uuid,
    pub page: u32,
    pub device: String,
    pub at: Timestamp,
}

impl Clone for ProgressEvent {
    fn clone(&self) -> (r: Self)
        ensures
            r == *self,
    {
        ProgressEvent {
            id: self.id,
            publication_id: self.publication_id,
            unit_id: self.unit_id,
            page: self.page,
            device: self.device.clone(),
            at: self.at,
        }
    }
}

/// A place inside a unit.
#[derive(Clone, Copy, Debug, PartialEq, Eq, Structural)]
pub enum Locations {
    Page { page: u32 },
}

/// A reader's place in a publication.
#[derive(Clone, Copy, Debug, PartialEq, Eq, Structural)]
pub struct Locator {
    pub unit_id: Uuid,
    pub locations: Locations,
    pub at: Timestamp,
}

impl Locator {
    /// The page of the place.
    pub fn page(&self) -> (r: u32)
        ensures
            self.locations == (Locations::Page { page: r }),
    {
        match self.locations {
            Locations::Page { page } => page,
        }
    }
}

/// The place that an event records.
pub open spec fn locator_of(e: ProgressEvent) -> Locator {
    Locator { unit_id: e.unit_id, locations: Locations::Page { page: e.page }, at: e.at }
}

/// The place that an event records.
pub fn locator(e: &ProgressEvent) -> (r: Locator)
    ensures
        r == locator_of(*e),
{
    Locator { unit_id: e.unit_id, locations: Locations::Page { page: e.page }, at: e.at }
}

/// `a` does not come after `b`: it is older, or as old with no greater identifier.
pub open spec fn not_newer(a: ProgressEvent, b: ProgressEvent) -> bool {
    a.at.lt(b.at) || (a.at == b.at && a.id <= b.id)
}

/// The newest of two events; the later argument where neither is newer.
pub open spec fn newer(a: ProgressEvent, b: ProgressEvent) -> ProgressEvent {
    if not_newer(a, b) {
        b
    } else {
        a
    }
}

/// The newest event of a journal: the latest time, ties broken by the greatest identifier.
pub open spec fn newest(events: Seq<ProgressEvent>) -> Option<ProgressEvent>
    decreases events.len(),
{
    if events.len() == 0 {
        None
    } else {
        match newest(events.drop_last()) {
            None => Some(events.last()),
            Some(best) => Some(newer(best, events.last())),
        }
    }
}

/// No two events of a journal share an identifier.
pub open spec fn distinct_events(events: Seq<ProgressEvent>) -> bool {
    forall|i: int, j: int|
        0 <= i < events.len() && 0 <= j < events.len() && (#[trigger] events[i]).id == (
        #[trigger] events[j]).id ==> events[i] == events[j]
}

/// The newest event is in the journal, and no event comes after it.
pub proof fn lemma_newest(events: Seq<ProgressEvent>)
    ensures
        newest(events) is None <==> events.len() == 0,
        newest(events) matches Some(best) ==> events.contains(best) && forall|i: int|
            0 <= i < events.len() ==> not_newer(#[trigger] events[i], best),
    decreases events.len(),
{
    if events.len() > 0 {
        let before = events.drop_last();
        lemma_newest(before);
        let best = newest(events)->0;
        if before.len() > 0 {
            let was = newest(before)->0;
            let k = choose|k: int| 0 <= k < before.len() && before[k] == was;
            assert(events[k] == was);
            assert(events[events.len() - 1] == events.last());
            assert forall|i: int| 0 <= i < events.len() implies not_newer(#[trigger] events[i], best) by {
                if i < before.len() {
                    assert(before[i] == events[i]);
                }
            }
        } else {
            assert(events[0] == best);
        }
    }
}

/// The merged place does not depend on the order in which events arrived, nor on
/// how often: journals that hold the same events have the same newest one.
pub proof fn law_newest_ignores_order(a: Seq<ProgressEvent>, b: Seq<ProgressEvent>)
    requires
        distinct_events(a),
        forall|e: ProgressEvent| a.contains(e) <==> b.contains(e),
    ensures
        newest(a) == newest(b),
{
    lemma_newest(a);
    lemma_newest(b);
    if a.len() > 0 {
        assert(a.contains(a[0]));
        let x = newest(a)->0;
        assert(b.contains(x));
        let y = newest(b)->0;
        assert(a.contains(y));
        let i = choose|i: int| 0 <= i < a.len() && a[i] == y;
        let j = choose|j: int| 0 <= j < b.len() && b[j] == x;
        let k = choose|k: int| 0 <= k < a.len() && a[k] == x;
        assert(not_newer(a[i], x));
        assert(not_newer(b[j], y));
        assert(a[i].id == a[k].id);
    } else if b.len() > 0 {
        assert(b.contains(b[0]));
        assert(a.contains(b[0]));
    }
}

/// Merging the places of two journals gives the place of both together, so a
/// device may keep its own place and settle it with the server's later.
pub proof fn law_newest_merges(a: Seq<ProgressEvent>, b: Seq<ProgressEvent>)
    ensures
        newest(a + b) == match (newest(a), newest(b)) {
            (None, y) => y,
            (x, None) => x,
            (Some(x), Some(y)) => Some(newer(x, y)),
        },
    decreases b.len(),
{
    lemma_newest(a);
    lemma_newest(b);
    if b.len() == 0 {
        assert(a + b =~= a);
    } else {
        law_newest_merges(a, b.drop_last());
        lemma_newest(b.drop_last());
        assert((a + b).drop_last() =~= a + b.drop_last());
        assert((a + b).last() == b.last());
    }
}

/// The newest event of a journal.
pub fn merge_position(events: &Vec<ProgressEvent>) -> (r: Option<ProgressEvent>)
    ensures
        r == newest(events@),
{
    let mut best: Option<usize> = None;
    let mut i: usize = 0;
    assert(events@.take(0) =~= Seq::empty());
    while i < events.len()
        invariant
            i <= events@.len(),
            match best {
                None => newest(events@.take(i as int)) is None,
                Some(b) => b < i && newest(events@.take(i as int)) == Some(events@[b as int]),
            },
        decreases events@.len() - i,
    {
        assert(events@.take(i + 1).drop_last() =~= events@.take(i as int));
        let wins = match best {
            None => true,
            Some(b) => {
                let held = &events[b];
                let next = &events[i];
                held.at.before(&next.at) || (held.at.secs == next.at.secs && held.at.nanos
                    == next.at.nanos && held.id <= next.id)
            },
        };
        if wins {
            best = Some(i);
        }
        i += 1;
    }
    assert(events@.take(events@.len() as int) =~= events@);
    match best {
        None => None,
        Some(b) => Some(events[b].clone()),
    }
}

}
