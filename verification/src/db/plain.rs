//! Plain words for what the tables hold. Laws are stated in them, apart from the functions
//! that the operations are described with.

use vstd::prelude::*;

use crate::clock::Timestamp;
use crate::db::{JournalEntry, ReadMark};
use crate::domain::progress::ProgressEvent;
use crate::domain::publication::{PublicationView, ReadingUnit};
use crate::ids::Uuid;

verus! {

/// A reader has a mark on a unit.
pub open spec fn has_read(marks: Seq<ReadMark>, reader: Uuid, unit_id: Uuid) -> bool {
    exists|k: int|
        0 <= k < marks.len() && (#[trigger] marks[k]).user_id == reader && marks[k].unit_id == unit_id
}

/// Some unit has the identifier.
pub open spec fn unit_there(units: Seq<ReadingUnit>, id: Uuid) -> bool {
    exists|k: int| 0 <= k < units.len() && (#[trigger] units[k]).id == id
}

/// Some publication has the identifier.
pub open spec fn publication_there(publications: Seq<PublicationView>, id: Uuid) -> bool {
    exists|k: int| 0 <= k < publications.len() && (#[trigger] publications[k]).id == id
}

/// The journal holds an event under an identifier.
pub open spec fn event_there(journal: Seq<JournalEntry>, id: Uuid) -> bool {
    exists|k: int| 0 <= k < journal.len() && (#[trigger] journal[k]).event.id == id
}

/// The journal holds this event as this reader's.
pub open spec fn recorded_for(journal: Seq<JournalEntry>, reader: Uuid, e: ProgressEvent) -> bool {
    exists|k: int|
        0 <= k < journal.len() && (#[trigger] journal[k]).user_id == reader && journal[k].event == e
}

/// A point in time that comes before another.
pub open spec fn sooner(a: Timestamp, b: Timestamp) -> bool {
    a.secs < b.secs || (a.secs == b.secs && a.nanos < b.nanos)
}

/// One of the texts reads like this.
pub open spec fn one_reads(texts: Seq<String>, text: Seq<char>) -> bool {
    exists|k: int| 0 <= k < texts.len() && (#[trigger] texts[k])@ == text
}

/// Two lists hold the same texts.
pub open spec fn same_texts(a: Seq<String>, b: Seq<String>) -> bool {
    forall|t: Seq<char>| #[trigger] one_reads(a, t) <==> one_reads(b, t)
}

/// A list holds no text twice.
pub open spec fn no_text_twice(a: Seq<String>) -> bool {
    forall|i: int, j: int|
        0 <= i < j < a.len() ==> (#[trigger] a[i])@ != (#[trigger] a[j])@
}

/// Two publications are alike in everything but the order and number of their genres.
pub open spec fn same_publication(p: PublicationView, q: PublicationView) -> bool {
    &&& p.id == q.id
    &&& p.kind == q.kind
    &&& p.origin == q.origin
    &&& p.title == q.title
    &&& p.description == q.description
    &&& p.cover_url == q.cover_url
    &&& p.auto_download == q.auto_download
    &&& p.category == q.category
    &&& p.added_at == q.added_at
    &&& p.last_checked_at == q.last_checked_at
    &&& p.missing_since == q.missing_since
    &&& same_texts(p.genres, q.genres)
}

/// Two units are alike in everything that a source or a reader's device tells of them.
pub open spec fn same_unit(u: ReadingUnit, v: ReadingUnit) -> bool {
    &&& u.id == v.id
    &&& u.publication_id == v.publication_id
    &&& u.source_key == v.source_key
    &&& u.title == v.title
    &&& u.number == v.number
    &&& u.source_order == v.source_order
    &&& u.scanlator == v.scanlator
    &&& u.fetched_at == v.fetched_at
    &&& u.published_at == v.published_at
    &&& u.page_count == v.page_count
}

/// Units in the same places, alike in everything but their download states.
pub open spec fn alike_but_for_states(before: Seq<ReadingUnit>, after: Seq<ReadingUnit>) -> bool {
    &&& before.len() == after.len()
    &&& forall|i: int|
        0 <= i < before.len() ==> same_unit(before[i], #[trigger] after[i])
}

/// In how many places two tables of units differ.
pub open spec fn differing(before: Seq<ReadingUnit>, after: Seq<ReadingUnit>) -> nat
    decreases before.len(),
{
    if before.len() == 0 || after.len() == 0 {
        0
    } else {
        differing(before.drop_last(), after.drop_last()) + if before.last() != after.last() {
            1nat
        } else {
            0nat
        }
    }
}

/// Publications in the same places, of which none has changed but the one with the identifier.
pub open spec fn others_unchanged(
    before: Seq<PublicationView>,
    after: Seq<PublicationView>,
    id: Uuid,
) -> bool {
    &&& before.len() == after.len()
    &&& forall|i: int|
        0 <= i < before.len() && before[i].id != id ==> #[trigger] after[i] == before[i]
}

}
