//! Units: merging a source's listing into the rows that are there.

use vstd::prelude::*;

use crate::clock::{is_reading, utc_now, Timestamp};
use crate::db::{
    has_publication, has_unit, journal_ordered, journal_placed, marks_distinct, marks_placed, units_distinct, units_placed, Db, DbError, DbView,
    JournalEntry, ReadMark, UnitFileOp, UnitSync, dangling, is_dangling, is_taken, taken,
};
use crate::domain::publication::{DownloadState, PublicationView, ReadingUnit};
use crate::domain::source::ChapterRef;
use crate::domain::progress::ProgressEvent;
use crate::ids::{fresh_ids, timely_forms, Uuid};
use crate::tables::{
    any, change_all, includes, kept_places, lemma_filter_contains, lemma_filter_none, lemma_filter_take, lemma_kept_places, retain,
};
use crate::text::same;

verus! {

/// Where a listing first has the key.
pub open spec fn first_entry(listing: Seq<ChapterRef>, key: Seq<char>) -> Option<int>
    decreases listing.len(),
{
    if listing.len() == 0 {
        None
    } else {
        match first_entry(listing.drop_last(), key) {
            Some(k) => Some(k),
            None => if listing.last().key@ == key {
                Some(listing.len() - 1)
            } else {
                None
            },
        }
    }
}

/// `first_entry` gives a place that has the key, with none before it.
pub proof fn lemma_first_entry(listing: Seq<ChapterRef>, key: Seq<char>)
    ensures
        first_entry(listing, key) matches Some(k) ==> 0 <= k < listing.len() && listing[k].key@ == key
            && forall|j: int| 0 <= j < k ==> (#[trigger] listing[j]).key@ != key,
        first_entry(listing, key) is None ==> forall|j: int|
            0 <= j < listing.len() ==> (#[trigger] listing[j]).key@ != key,
    decreases listing.len(),
{
    if listing.len() > 0 {
        lemma_first_entry(listing.drop_last(), key);
        assert(forall|j: int| 0 <= j < listing.len() - 1 ==> listing[j] == listing.drop_last()[j]);
    }
}

/// The listing has the key.
pub open spec fn listed(listing: Seq<ChapterRef>, key: Seq<char>) -> bool {
    first_entry(listing, key) is Some
}

/// A publication has a unit with the key.
pub open spec fn has_key(units: Seq<ReadingUnit>, publication_id: Uuid, key: Seq<char>) -> bool {
    exists|i: int|
        0 <= i < units.len() && (#[trigger] units[i]).publication_id == publication_id
            && units[i].source_key@ == key
}

/// A known unit after its listing entry: title, number and place are taken from
/// the entry; a release date is taken where the entry has one, and never cleared.
pub open spec fn refreshed(u: ReadingUnit, c: ChapterRef) -> ReadingUnit {
    ReadingUnit {
        title: c.title,
        number: c.number,
        source_order: c.source_order,
        published_at: if c.published_at is Some {
            c.published_at
        } else {
            u.published_at
        },
        ..u
    }
}

/// A unit made from a listing entry.
pub open spec fn unit_from(c: ChapterRef, id: Uuid, publication_id: Uuid, now: Timestamp) -> ReadingUnit {
    ReadingUnit {
        id,
        publication_id,
        source_key: c.key,
        title: c.title,
        number: c.number,
        source_order: c.source_order,
        scanlator: c.scanlator,
        fetched_at: now,
        published_at: c.published_at,
        download: DownloadState::Absent,
        page_count: None,
        read: false,
    }
}

/// The units for the entries whose keys are not known yet, in listing order, a
/// repeated key taken once.
pub open spec fn fresh_units(
    known: Seq<ReadingUnit>,
    publication_id: Uuid,
    listing: Seq<ChapterRef>,
    ids: Seq<Uuid>,
    now: Timestamp,
) -> Seq<ReadingUnit>
    decreases listing.len(),
{
    if listing.len() == 0 {
        Seq::empty()
    } else {
        let before = fresh_units(known, publication_id, listing.drop_last(), ids, now);
        let c = listing.last();
        if has_key(known, publication_id, c.key@) || listed(listing.drop_last(), c.key@) {
            before
        } else {
            before.push(unit_from(c, ids[listing.len() - 1], publication_id, now))
        }
    }
}

/// A row after the listing: refreshed where it is listed.
pub open spec fn refreshed_row(
    u: ReadingUnit,
    publication_id: Uuid,
    listing: Seq<ChapterRef>,
) -> ReadingUnit {
    if u.publication_id == publication_id && listed(listing, u.source_key@) {
        refreshed(u, listing[first_entry(listing, u.source_key@)->0])
    } else {
        u
    }
}

/// All rows after the listing: known ones refreshed, new ones behind them.
pub open spec fn upserted(
    units: Seq<ReadingUnit>,
    publication_id: Uuid,
    listing: Seq<ChapterRef>,
    ids: Seq<Uuid>,
    now: Timestamp,
) -> Seq<ReadingUnit> {
    units.map_values(|u: ReadingUnit| refreshed_row(u, publication_id, listing)) + fresh_units(
        units,
        publication_id,
        listing,
        ids,
        now,
    )
}

/// A row that fell out of the listing.
pub open spec fn is_stale(u: ReadingUnit, publication_id: Uuid, listing: Seq<ChapterRef>) -> bool {
    u.publication_id == publication_id && !listed(listing, u.source_key@)
}

/// A listed row that is recognizably the same chapter as `stale`: it has the same
/// number, or the same title where neither has a number.
pub open spec fn is_twin(
    v: ReadingUnit,
    stale: ReadingUnit,
    publication_id: Uuid,
    listing: Seq<ChapterRef>,
) -> bool {
    &&& v.publication_id == publication_id
    &&& listed(listing, v.source_key@)
    &&& match stale.number {
        Some(n) => v.number == Some(n),
        None => v.number is None && v.title@ == stale.title@,
    }
}

/// Row `i` is a twin of `stale`, and no other row is.
pub open spec fn is_only_twin(
    units: Seq<ReadingUnit>,
    stale: ReadingUnit,
    publication_id: Uuid,
    listing: Seq<ChapterRef>,
    i: int,
) -> bool {
    &&& 0 <= i < units.len()
    &&& is_twin(units[i], stale, publication_id, listing)
    &&& forall|j: int|
        0 <= j < units.len() && is_twin(#[trigger] units[j], stale, publication_id, listing) ==> j == i
}

/// There is exactly one twin.
pub open spec fn has_only_twin(
    units: Seq<ReadingUnit>,
    stale: ReadingUnit,
    publication_id: Uuid,
    listing: Seq<ChapterRef>,
) -> bool {
    exists|i: int| is_only_twin(units, stale, publication_id, listing, i)
}

/// The one twin.
pub open spec fn only_twin(
    units: Seq<ReadingUnit>,
    stale: ReadingUnit,
    publication_id: Uuid,
    listing: Seq<ChapterRef>,
) -> ReadingUnit {
    units[choose|i: int| is_only_twin(units, stale, publication_id, listing, i)]
}

/// The reader has marked the unit.
pub open spec fn marked(marks: Seq<ReadMark>, user_id: Uuid, unit_id: Uuid) -> bool {
    exists|k: int|
        0 <= k < marks.len() && (#[trigger] marks[k]).user_id == user_id && marks[k].unit_id == unit_id
}

/// The marks on `from` moved to `to`; where a reader has marked both, the mark on
/// `to` stays.
pub open spec fn moved_marks(marks: Seq<ReadMark>, from: Uuid, to: Uuid) -> Seq<ReadMark> {
    marks.filter(|m: ReadMark| !(m.unit_id == from && marked(marks, m.user_id, to))).map_values(
        |m: ReadMark|
            if m.unit_id == from {
                ReadMark { unit_id: to, ..m }
            } else {
                m
            },
    )
}

/// A journal entry with its unit replaced where it is `from`.
pub open spec fn moved_entry(e: JournalEntry, from: Uuid, to: Uuid) -> JournalEntry {
    if e.event.unit_id == from {
        JournalEntry { event: ProgressEvent { unit_id: to, ..e.event }, ..e }
    } else {
        e
    }
}

/// The stale unit's pages are worth handing to its twin.
pub open spec fn hands_over(stale: ReadingUnit, twin: ReadingUnit) -> bool {
    stale.download is Downloaded && !(twin.download is Downloaded)
}

/// A row after the stale unit's pages went to its twin.
pub open spec fn after_hand_over(u: ReadingUnit, stale: ReadingUnit, twin: ReadingUnit) -> ReadingUnit {
    if hands_over(stale, twin) && u.id == twin.id {
        ReadingUnit { download: stale.download, page_count: stale.page_count, ..u }
    } else {
        u
    }
}

/// What a sync changes, and what it leaves to be done.
#[verifier::ext_equal]
pub struct SyncState {
    pub units: Seq<ReadingUnit>,
    pub marks: Seq<ReadMark>,
    pub journal: Seq<JournalEntry>,
    /// What has to be done to the page directories.
    pub ops: Seq<UnitFileOp>,
    /// Units that took the place of a stale one.
    pub merged: Seq<Uuid>,
}

/// The stale unit merged into its twin: marks and journal follow, pages are handed
/// over where only the stale unit has them, and the stale row goes.
pub open spec fn merged_into(s: SyncState, stale: ReadingUnit, twin: ReadingUnit) -> SyncState {
    SyncState {
        units: s.units.map_values(|u: ReadingUnit| after_hand_over(u, stale, twin)).filter(
            |u: ReadingUnit| u.id != stale.id,
        ),
        marks: moved_marks(s.marks, stale.id, twin.id),
        journal: s.journal.map_values(|e: JournalEntry| moved_entry(e, stale.id, twin.id)),
        ops: s.ops.push(
            if hands_over(stale, twin) {
                UnitFileOp::Rename { from: stale.id, to: twin.id }
            } else {
                UnitFileOp::Remove { unit: stale.id }
            },
        ),
        merged: s.merged.push(twin.id),
    }
}

/// The stale unit gone, with the marks on it.
pub open spec fn dropped(s: SyncState, stale: ReadingUnit) -> SyncState {
    SyncState {
        units: s.units.filter(|u: ReadingUnit| u.id != stale.id),
        marks: s.marks.filter(|m: ReadMark| m.unit_id != stale.id),
        ops: s.ops.push(UnitFileOp::Remove { unit: stale.id }),
        ..s
    }
}

/// Nothing of the unit is kept on disk, or on its way there.
pub open spec fn nothing_saved(u: ReadingUnit) -> bool {
    u.download is Absent || u.download is Failed
}

/// One stale unit settled: merged where it has exactly one twin; else dropped where
/// nothing of it is saved; else kept.
pub open spec fn settled(
    s: SyncState,
    publication_id: Uuid,
    listing: Seq<ChapterRef>,
    stale: ReadingUnit,
) -> SyncState {
    if has_only_twin(s.units, stale, publication_id, listing) {
        merged_into(s, stale, only_twin(s.units, stale, publication_id, listing))
    } else if nothing_saved(stale) {
        dropped(s, stale)
    } else {
        s
    }
}

/// All stale units settled, in their order.
pub open spec fn all_settled(
    s: SyncState,
    publication_id: Uuid,
    listing: Seq<ChapterRef>,
    stale: Seq<ReadingUnit>,
) -> SyncState
    decreases stale.len(),
{
    if stale.len() == 0 {
        s
    } else {
        settled(
            all_settled(s, publication_id, listing, stale.drop_last()),
            publication_id,
            listing,
            stale.last(),
        )
    }
}

/// The state before any stale unit is settled.
pub open spec fn before_settling(
    db: DbView,
    publication_id: Uuid,
    listing: Seq<ChapterRef>,
    ids: Seq<Uuid>,
    now: Timestamp,
) -> SyncState {
    SyncState {
        units: upserted(db.units, publication_id, listing, ids, now),
        marks: db.marks,
        journal: db.journal,
        ops: Seq::empty(),
        merged: Seq::empty(),
    }
}

/// What a sync makes of the tables. An empty listing changes nothing: it says more
/// of the source's mood than of the publication.
pub open spec fn synced(
    db: DbView,
    publication_id: Uuid,
    listing: Seq<ChapterRef>,
    ids: Seq<Uuid>,
    now: Timestamp,
) -> SyncState {
    let start = before_settling(db, publication_id, listing, ids, now);
    if listing.len() == 0 {
        start
    } else {
        all_settled(
            start,
            publication_id,
            listing,
            db.units.filter(|u: ReadingUnit| is_stale(u, publication_id, listing)),
        )
    }
}

/// Identifiers are at hand for every entry, all different, and none of them taken.
pub open spec fn ids_usable(ids: Seq<Uuid>, n: nat, units: Seq<ReadingUnit>) -> bool {
    &&& n <= ids.len()
    &&& forall|i: int, j: int| 0 <= i < j < n ==> #[trigger] ids[i] != #[trigger] ids[j]
    &&& forall|i: int| 0 <= i < n ==> !has_unit(units, #[trigger] ids[i])
}

/// The tables take the listing: it is empty, or its publication is there; and the
/// identifiers can be used.
pub open spec fn sync_allowed(
    db: DbView,
    publication_id: Uuid,
    listing: Seq<ChapterRef>,
    ids: Seq<Uuid>,
) -> bool {
    &&& listing.len() > 0 ==> has_publication(db.publications, publication_id)
    &&& ids_usable(ids, listing.len(), db.units)
}

// ---- what settling keeps ----

/// The new units are of the publication, listed, unknown so far, and take their
/// identifiers from those given; no two share a key or an identifier.
pub proof fn lemma_fresh_units(
    known: Seq<ReadingUnit>,
    publication_id: Uuid,
    listing: Seq<ChapterRef>,
    ids: Seq<Uuid>,
    now: Timestamp,
)
    requires
        listing.len() <= ids.len(),
        forall|i: int, j: int|
            0 <= i < j < listing.len() ==> #[trigger] ids[i] != #[trigger] ids[j],
    ensures
        ({
            let fresh = fresh_units(known, publication_id, listing, ids, now);
            &&& fresh.len() <= listing.len()
            &&& forall|i: int|
                0 <= i < fresh.len() ==> {
                    &&& (#[trigger] fresh[i]).publication_id == publication_id
                    &&& listed(listing, fresh[i].source_key@)
                    &&& !has_key(known, publication_id, fresh[i].source_key@)
                    &&& exists|k: int| 0 <= k < listing.len() && fresh[i].id == #[trigger] ids[k]
                    &&& fresh[i].download is Absent
                    &&& !fresh[i].read
                }
            &&& forall|i: int, j: int|
                0 <= i < j < fresh.len() ==> {
                    &&& (#[trigger] fresh[i]).id != (#[trigger] fresh[j]).id
                    &&& fresh[i].source_key@ != fresh[j].source_key@
                }
        }),
    decreases listing.len(),
{
    if listing.len() > 0 {
        let init = listing.drop_last();
        assert forall|i: int, j: int| 0 <= i < j < init.len() implies #[trigger] ids[i]
            != #[trigger] ids[j] by {}
        lemma_fresh_units(known, publication_id, init, ids, now);
        let before = fresh_units(known, publication_id, init, ids, now);
        let fresh = fresh_units(known, publication_id, listing, ids, now);
        let c = listing.last();
        assert forall|i: int| 0 <= i < fresh.len() implies {
            &&& (#[trigger] fresh[i]).publication_id == publication_id
            &&& listed(listing, fresh[i].source_key@)
            &&& !has_key(known, publication_id, fresh[i].source_key@)
            &&& exists|k: int| 0 <= k < listing.len() && fresh[i].id == #[trigger] ids[k]
            &&& fresh[i].download is Absent
            &&& !fresh[i].read
        } by {
            if i < before.len() {
                assert(fresh[i] == before[i]);
                let k = choose|k: int| 0 <= k < init.len() && before[i].id == #[trigger] ids[k];
                assert(0 <= k < listing.len() && fresh[i].id == ids[k]);
            } else {
                assert(fresh[i] == unit_from(c, ids[listing.len() - 1], publication_id, now));
                assert(fresh[i].id == ids[listing.len() - 1]);
            }
        }
        assert forall|i: int, j: int| 0 <= i < j < fresh.len() implies {
            &&& (#[trigger] fresh[i]).id != (#[trigger] fresh[j]).id
            &&& fresh[i].source_key@ != fresh[j].source_key@
        } by {
            assert(fresh[i] == before[i]);
            if j < before.len() {
                assert(fresh[j] == before[j]);
            } else {
                let k = choose|k: int| 0 <= k < init.len() && before[i].id == #[trigger] ids[k];
                assert(ids[k] != ids[listing.len() - 1]);
                assert(listed(init, before[i].source_key@));
            }
        }
    }
}

/// Merging the listing keeps identifiers and keys distinct, and every unit in its place.
pub proof fn lemma_upserted(
    units: Seq<ReadingUnit>,
    publications: Seq<PublicationView>,
    publication_id: Uuid,
    listing: Seq<ChapterRef>,
    ids: Seq<Uuid>,
    now: Timestamp,
)
    requires
        units_distinct(units),
        units_placed(units, publications),
        ids_usable(ids, listing.len(), units),
        listing.len() > 0 ==> has_publication(publications, publication_id),
    ensures
        units_distinct(upserted(units, publication_id, listing, ids, now)),
        units_placed(upserted(units, publication_id, listing, ids, now), publications),
        forall|id: Uuid|
            has_unit(units, id) ==> #[trigger] has_unit(
                upserted(units, publication_id, listing, ids, now),
                id,
            ),
{
    let fresh = fresh_units(units, publication_id, listing, ids, now);
    let all = upserted(units, publication_id, listing, ids, now);
    let n = units.len() as int;
    lemma_fresh_units(units, publication_id, listing, ids, now);
    assert forall|i: int| 0 <= i < n implies (#[trigger] all[i]).id == units[i].id
        && all[i].publication_id == units[i].publication_id && all[i].source_key
        == units[i].source_key by {}
    assert forall|i: int| n <= i < all.len() implies #[trigger] all[i] == fresh[i - n] by {}
    assert forall|i: int, j: int| 0 <= i < n && n <= j < all.len() implies (#[trigger] all[i]).id != (
    #[trigger] all[j]).id by {
        let k = choose|k: int| 0 <= k < listing.len() && fresh[j - n].id == #[trigger] ids[k];
        assert(!has_unit(units, ids[k]));
        assert(units[i].id != ids[k]);
    }
    assert forall|i: int, j: int|
        0 <= i < all.len() && 0 <= j < all.len() && (#[trigger] all[i]).id == (#[trigger] all[j]).id implies i
        == j by {
        if i < n && j < n {
            assert(units[i].id == units[j].id);
        } else if i >= n && j >= n {
            if i < j {
                assert(fresh[i - n].id != fresh[j - n].id);
            } else if j < i {
                assert(fresh[j - n].id != fresh[i - n].id);
            }
        }
    }
    assert forall|i: int, j: int|
        0 <= i < all.len() && 0 <= j < all.len() && (#[trigger] all[i]).publication_id == (
        #[trigger] all[j]).publication_id && all[i].source_key@ == all[j].source_key@ implies i == j by {
        if i < n && j < n {
            assert(units[i].publication_id == units[j].publication_id);
        } else if i >= n && j >= n {
            if i < j {
                assert(fresh[i - n].source_key@ != fresh[j - n].source_key@);
            } else if j < i {
                assert(fresh[j - n].source_key@ != fresh[i - n].source_key@);
            }
        } else if i < n {
            assert(!has_key(units, publication_id, fresh[j - n].source_key@));
            assert(units[i].source_key@ != fresh[j - n].source_key@);
        } else {
            assert(!has_key(units, publication_id, fresh[i - n].source_key@));
            assert(units[j].source_key@ != fresh[i - n].source_key@);
        }
    }
    assert forall|i: int| 0 <= i < all.len() implies has_publication(
        publications,
        (#[trigger] all[i]).publication_id,
    ) by {
        if i < n {
            assert(has_publication(publications, units[i].publication_id));
        }
    }
    assert forall|id: Uuid| has_unit(units, id) implies #[trigger] has_unit(all, id) by {
        let i = choose|i: int| 0 <= i < units.len() && (#[trigger] units[i]).id == id;
        assert(all[i].id == id);
    }
}

/// Where the marks on one unit move to another, no reader ends up with two marks on
/// it, a reader has marked the target exactly where either was marked, and all
/// other marks stay.
pub proof fn lemma_moved_marks(marks: Seq<ReadMark>, from: Uuid, to: Uuid)
    requires
        marks_distinct(marks),
        from != to,
    ensures
        marks_distinct(moved_marks(marks, from, to)),
        forall|u: Uuid|
            #[trigger] marked(moved_marks(marks, from, to), u, to) <==> marked(marks, u, to) || marked(
                marks,
                u,
                from,
            ),
        forall|u: Uuid| !#[trigger] marked(moved_marks(marks, from, to), u, from),
        forall|u: Uuid, x: Uuid|
            x != from && x != to ==> (#[trigger] marked(moved_marks(marks, from, to), u, x) <==> marked(
                marks,
                u,
                x,
            )),
        forall|i: int|
            0 <= i < moved_marks(marks, from, to).len() ==> (#[trigger] moved_marks(
                marks,
                from,
                to,
            )[i]).unit_id == to || exists|k: int|
                0 <= k < marks.len() && marks[k].unit_id == moved_marks(marks, from, to)[i].unit_id
                    && marks[k].unit_id != from,
{
    let keep = |m: ReadMark| !(m.unit_id == from && marked(marks, m.user_id, to));
    let kept = marks.filter(keep);
    let out = moved_marks(marks, from, to);
    lemma_kept_places(marks, keep);
    lemma_filter_contains(marks, keep);
    let at = kept_places(marks, keep);
    assert forall|i: int| 0 <= i < out.len() implies #[trigger] out[i] == (if kept[i].unit_id == from {
        ReadMark { unit_id: to, ..kept[i] }
    } else {
        kept[i]
    }) && kept[i] == marks[at[i]] && 0 <= at[i] < marks.len() && keep(kept[i]) by {}
    assert forall|i: int, j: int|
        0 <= i < out.len() && 0 <= j < out.len() && (#[trigger] out[i]).user_id == (
        #[trigger] out[j]).user_id && out[i].unit_id == out[j].unit_id implies i == j by {
        assert(at[i] < at[j] || at[j] < at[i] || i == j);
        if kept[i].unit_id == kept[j].unit_id {
            assert(marks[at[i]].user_id == marks[at[j]].user_id);
            assert(at[i] == at[j]);
        } else if kept[i].unit_id == from {
            assert(marks[at[j]].unit_id == to);
            assert(marked(marks, kept[i].user_id, to));
        } else {
            assert(marks[at[i]].unit_id == to);
            assert(marked(marks, kept[j].user_id, to));
        }
    }
    assert forall|u: Uuid|
        #[trigger] marked(out, u, to) <==> marked(marks, u, to) || marked(marks, u, from) by {
        if marked(out, u, to) {
            let k = choose|k: int|
                0 <= k < out.len() && (#[trigger] out[k]).user_id == u && out[k].unit_id == to;
            assert(marks[at[k]].user_id == u);
        }
        if marked(marks, u, to) {
            let k = choose|k: int|
                0 <= k < marks.len() && (#[trigger] marks[k]).user_id == u && marks[k].unit_id == to;
            assert(marks.contains(marks[k]));
            assert(kept.contains(marks[k]));
            let m = choose|m: int| 0 <= m < kept.len() && kept[m] == marks[k];
            assert(out[m].user_id == u && out[m].unit_id == to);
        } else if marked(marks, u, from) {
            let k = choose|k: int|
                0 <= k < marks.len() && (#[trigger] marks[k]).user_id == u && marks[k].unit_id == from;
            assert(marks.contains(marks[k]));
            assert(kept.contains(marks[k]));
            let m = choose|m: int| 0 <= m < kept.len() && kept[m] == marks[k];
            assert(out[m].user_id == u && out[m].unit_id == to);
        }
    }
    assert forall|u: Uuid, x: Uuid| x != from && x != to implies (#[trigger] marked(out, u, x) <==> marked(
        marks,
        u,
        x,
    )) by {
        if marked(out, u, x) {
            let k = choose|k: int|
                0 <= k < out.len() && (#[trigger] out[k]).user_id == u && out[k].unit_id == x;
            assert(marks[at[k]].user_id == u);
        }
        if marked(marks, u, x) {
            let k = choose|k: int|
                0 <= k < marks.len() && (#[trigger] marks[k]).user_id == u && marks[k].unit_id == x;
            assert(marks.contains(marks[k]));
            assert(kept.contains(marks[k]));
            let m = choose|m: int| 0 <= m < kept.len() && kept[m] == marks[k];
            assert(out[m].user_id == u && out[m].unit_id == x);
        }
    }
    assert forall|i: int| 0 <= i < out.len() implies (#[trigger] out[i]).unit_id == to || exists|k: int|
        0 <= k < marks.len() && marks[k].unit_id == out[i].unit_id && marks[k].unit_id != from by {
        if out[i].unit_id != to {
            assert(marks[at[i]].unit_id == out[i].unit_id);
        }
    }
}

/// Filtering and relabelling units without touching identifiers, publications and
/// keys keeps them distinct and in place.
proof fn lemma_units_filtered(
    units: Seq<ReadingUnit>,
    publications: Seq<PublicationView>,
    f: spec_fn(ReadingUnit) -> ReadingUnit,
    p: spec_fn(ReadingUnit) -> bool,
)
    requires
        units_distinct(units),
        units_placed(units, publications),
        forall|u: ReadingUnit|
            (#[trigger] f(u)).id == u.id && f(u).publication_id == u.publication_id && f(u).source_key
                == u.source_key,
    ensures
        units_distinct(units.map_values(f).filter(p)),
        units_placed(units.map_values(f).filter(p), publications),
{
    let m = units.map_values(f);
    lemma_kept_places(m, p);
    let at = kept_places(m, p);
    let out = m.filter(p);
    assert forall|i: int| 0 <= i < out.len() implies 0 <= at[i] < units.len() && (#[trigger] out[i]).id
        == units[at[i]].id && out[i].publication_id == units[at[i]].publication_id && out[i].source_key
        == units[at[i]].source_key by {
        assert(m[at[i]] == f(units[at[i]]));
    }
    assert forall|i: int, j: int|
        0 <= i < out.len() && 0 <= j < out.len() && (#[trigger] out[i]).id == (#[trigger] out[j]).id implies i
        == j by {
        assert(units[at[i]].id == units[at[j]].id);
        assert(at[i] < at[j] || at[j] < at[i] || i == j);
    }
    assert forall|i: int, j: int|
        0 <= i < out.len() && 0 <= j < out.len() && (#[trigger] out[i]).publication_id == (
        #[trigger] out[j]).publication_id && out[i].source_key@ == out[j].source_key@ implies i == j by {
        assert(units[at[i]].publication_id == units[at[j]].publication_id);
        assert(at[i] < at[j] || at[j] < at[i] || i == j);
    }
    assert forall|i: int| 0 <= i < out.len() implies has_publication(
        publications,
        (#[trigger] out[i]).publication_id,
    ) by {
        assert(has_publication(publications, units[at[i]].publication_id));
    }
}

/// What settling keeps intact.
pub open spec fn sound(s: SyncState, publications: Seq<PublicationView>) -> bool {
    &&& units_distinct(s.units)
    &&& units_placed(s.units, publications)
    &&& marks_distinct(s.marks)
    &&& marks_placed(s.marks, s.units)
}

/// A unit other than the one dropped is still there.
proof fn lemma_unit_survives(
    units: Seq<ReadingUnit>,
    f: spec_fn(ReadingUnit) -> ReadingUnit,
    gone: Uuid,
    id: Uuid,
)
    requires
        has_unit(units, id),
        id != gone,
        forall|u: ReadingUnit| (#[trigger] f(u)).id == u.id,
    ensures
        has_unit(units.map_values(f).filter(|u: ReadingUnit| u.id != gone), id),
{
    let p = |u: ReadingUnit| u.id != gone;
    let m = units.map_values(f);
    let i = choose|i: int| 0 <= i < units.len() && (#[trigger] units[i]).id == id;
    assert(m[i] == f(units[i]));
    assert(m.contains(m[i]));
    lemma_filter_contains(m, p);
    assert(m.filter(p).contains(m[i]));
    let k = choose|k: int| 0 <= k < m.filter(p).len() && m.filter(p)[k] == m[i];
    assert(m.filter(p)[k].id == id);
}

/// Settling one stale unit keeps the tables sound.
pub proof fn lemma_settled(
    s: SyncState,
    publications: Seq<PublicationView>,
    publication_id: Uuid,
    listing: Seq<ChapterRef>,
    stale: ReadingUnit,
)
    requires
        sound(s, publications),
        is_stale(stale, publication_id, listing),
        has_unit(s.units, stale.id),
        forall|i: int|
            0 <= i < s.units.len() && (#[trigger] s.units[i]).id == stale.id ==> s.units[i].source_key
                == stale.source_key && s.units[i].publication_id == stale.publication_id,
    ensures
        sound(settled(s, publication_id, listing, stale), publications),
{
    let p = |u: ReadingUnit| u.id != stale.id;
    if has_only_twin(s.units, stale, publication_id, listing) {
        let t = only_twin(s.units, stale, publication_id, listing);
        let ti = choose|i: int| is_only_twin(s.units, stale, publication_id, listing, i);
        assert(s.units[ti] == t);
        assert(t.id != stale.id);
        let f = |u: ReadingUnit| after_hand_over(u, stale, t);
        let out = merged_into(s, stale, t);
        lemma_units_filtered(s.units, publications, f, p);
        lemma_moved_marks(s.marks, stale.id, t.id);
        lemma_unit_survives(s.units, f, stale.id, t.id);
        assert forall|i: int| 0 <= i < out.marks.len() implies has_unit(
            out.units,
            (#[trigger] out.marks[i]).unit_id,
        ) by {
            if out.marks[i].unit_id != t.id {
                let k = choose|k: int|
                    0 <= k < s.marks.len() && s.marks[k].unit_id == out.marks[i].unit_id
                        && s.marks[k].unit_id != stale.id;
                assert(has_unit(s.units, s.marks[k].unit_id));
                lemma_unit_survives(s.units, f, stale.id, out.marks[i].unit_id);
            }
        }
    } else if nothing_saved(stale) {
        let f = |u: ReadingUnit| u;
        let out = dropped(s, stale);
        assert(s.units.map_values(f) =~= s.units);
        lemma_units_filtered(s.units, publications, f, p);
        let q = |m: ReadMark| m.unit_id != stale.id;
        lemma_kept_places(s.marks, q);
        let at = kept_places(s.marks, q);
        assert forall|i: int, j: int|
            0 <= i < out.marks.len() && 0 <= j < out.marks.len() && (#[trigger] out.marks[i]).user_id == (
            #[trigger] out.marks[j]).user_id && out.marks[i].unit_id == out.marks[j].unit_id implies i == j by {
            assert(s.marks[at[i]].user_id == s.marks[at[j]].user_id);
            assert(at[i] < at[j] || at[j] < at[i] || i == j);
        }
        assert forall|i: int| 0 <= i < out.marks.len() implies has_unit(
            out.units,
            (#[trigger] out.marks[i]).unit_id,
        ) by {
            assert(has_unit(s.units, s.marks[at[i]].unit_id));
            lemma_unit_survives(s.units, f, stale.id, out.marks[i].unit_id);
        }
    }
}

/// Settling one stale unit leaves the rows of the others as they are.
pub proof fn lemma_settled_keeps(
    s: SyncState,
    publication_id: Uuid,
    listing: Seq<ChapterRef>,
    stale: ReadingUnit,
    other: ReadingUnit,
)
    requires
        s.units.contains(other),
        other.id != stale.id,
        is_stale(other, publication_id, listing),
        units_distinct(s.units),
    ensures
        settled(s, publication_id, listing, stale).units.contains(other),
{
    let p = |u: ReadingUnit| u.id != stale.id;
    let k = choose|k: int| 0 <= k < s.units.len() && s.units[k] == other;
    if has_only_twin(s.units, stale, publication_id, listing) {
        let t = only_twin(s.units, stale, publication_id, listing);
        let ti = choose|i: int| is_only_twin(s.units, stale, publication_id, listing, i);
        assert(s.units[ti] == t);
        let f = |u: ReadingUnit| after_hand_over(u, stale, t);
        let m = s.units.map_values(f);
        assert(t.id != other.id) by {
            if t.id == other.id {
                assert(ti == k);
            }
        }
        assert(m[k] == other);
        assert(m.contains(other));
        lemma_filter_contains(m, p);
    } else if nothing_saved(stale) {
        lemma_filter_contains(s.units, p);
    }
}

/// Settling a run of stale units keeps the tables sound, and leaves the rows of
/// those not yet settled as they are.
pub proof fn lemma_all_settled(
    s: SyncState,
    publications: Seq<PublicationView>,
    publication_id: Uuid,
    listing: Seq<ChapterRef>,
    stale: Seq<ReadingUnit>,
    n: int,
)
    requires
        0 <= n <= stale.len(),
        sound(s, publications),
        forall|i: int|
            0 <= i < stale.len() ==> is_stale(#[trigger] stale[i], publication_id, listing)
                && s.units.contains(stale[i]),
        forall|i: int, j: int|
            0 <= i < j < stale.len() ==> (#[trigger] stale[i]).id != (#[trigger] stale[j]).id,
    ensures
        ({
            let t = all_settled(s, publication_id, listing, stale.take(n));
            &&& sound(t, publications)
            &&& forall|i: int| n <= i < stale.len() ==> t.units.contains(#[trigger] stale[i])
        }),
    decreases n,
{
    if n == 0 {
        assert(stale.take(0) =~= Seq::empty());
    } else {
        lemma_all_settled(s, publications, publication_id, listing, stale, n - 1);
        assert(stale.take(n).drop_last() =~= stale.take(n - 1));
        let before = all_settled(s, publication_id, listing, stale.take(n - 1));
        let x = stale[n - 1];
        assert(before.units.contains(x));
        let k = choose|k: int| 0 <= k < before.units.len() && before.units[k] == x;
        assert(has_unit(before.units, x.id));
        assert forall|i: int|
            0 <= i < before.units.len() && (#[trigger] before.units[i]).id == x.id implies before.units[i].source_key
            == x.source_key && before.units[i].publication_id == x.publication_id by {
            assert(i == k);
        }
        lemma_settled(before, publications, publication_id, listing, x);
        assert forall|i: int| n <= i < stale.len() implies settled(
            before,
            publication_id,
            listing,
            x,
        ).units.contains(#[trigger] stale[i]) by {
            assert(stale[n - 1].id != stale[i].id);
            lemma_settled_keeps(before, publication_id, listing, x, stale[i]);
        }
    }
}

/// The stale rows, as they stand after the listing was merged in.
pub proof fn lemma_stale_rows(
    units: Seq<ReadingUnit>,
    publication_id: Uuid,
    listing: Seq<ChapterRef>,
    ids: Seq<Uuid>,
    now: Timestamp,
)
    requires
        units_distinct(units),
    ensures
        ({
            let stale = units.filter(|u: ReadingUnit| is_stale(u, publication_id, listing));
            &&& forall|i: int|
                0 <= i < stale.len() ==> is_stale(#[trigger] stale[i], publication_id, listing) && upserted(
                    units,
                    publication_id,
                    listing,
                    ids,
                    now,
                ).contains(stale[i]) && units.contains(stale[i])
            &&& forall|i: int, j: int|
                0 <= i < j < stale.len() ==> (#[trigger] stale[i]).id != (#[trigger] stale[j]).id
        }),
{
    let p = |u: ReadingUnit| is_stale(u, publication_id, listing);
    let stale = units.filter(p);
    lemma_kept_places(units, p);
    let at = kept_places(units, p);
    let all = upserted(units, publication_id, listing, ids, now);
    assert forall|i: int| 0 <= i < stale.len() implies is_stale(
        #[trigger] stale[i],
        publication_id,
        listing,
    ) && all.contains(stale[i]) && units.contains(stale[i]) by {
        assert(units[at[i]] == stale[i]);
        assert(all[at[i]] == stale[i]);
    }
    assert forall|i: int, j: int| 0 <= i < j < stale.len() implies (#[trigger] stale[i]).id != (
    #[trigger] stale[j]).id by {
        assert(units[at[i]] == stale[i] && units[at[j]] == stale[j]);
        assert(at[i] < at[j]);
    }
}

/// Changing the unit of journal entries changes neither their order nor their
/// publications.
pub proof fn lemma_moved_journal(
    journal: Seq<JournalEntry>,
    next_seq: int,
    publications: Seq<PublicationView>,
    from: Uuid,
    to: Uuid,
)
    requires
        journal_ordered(journal, next_seq),
        journal_placed(journal, publications),
    ensures
        journal_ordered(
            journal.map_values(|e: JournalEntry| moved_entry(e, from, to)),
            next_seq,
        ),
        journal_placed(
            journal.map_values(|e: JournalEntry| moved_entry(e, from, to)),
            publications,
        ),
{
    let out = journal.map_values(|e: JournalEntry| moved_entry(e, from, to));
    assert forall|i: int| 0 <= i < out.len() implies (#[trigger] out[i]).seq == journal[i].seq
        && out[i].event.id == journal[i].event.id && out[i].event.publication_id
        == journal[i].event.publication_id by {}
}

/// Settling keeps the journal in order.
pub proof fn lemma_all_settled_journal(
    s: SyncState,
    publications: Seq<PublicationView>,
    next_seq: int,
    publication_id: Uuid,
    listing: Seq<ChapterRef>,
    stale: Seq<ReadingUnit>,
)
    requires
        journal_ordered(s.journal, next_seq),
        journal_placed(s.journal, publications),
    ensures
        journal_ordered(all_settled(s, publication_id, listing, stale).journal, next_seq),
        journal_placed(all_settled(s, publication_id, listing, stale).journal, publications),
    decreases stale.len(),
{
    if stale.len() > 0 {
        lemma_all_settled_journal(s, publications, next_seq, publication_id, listing, stale.drop_last());
        let before = all_settled(s, publication_id, listing, stale.drop_last());
        let x = stale.last();
        if has_only_twin(before.units, x, publication_id, listing) {
            lemma_moved_journal(
                before.journal,
                next_seq,
                publications,
                x.id,
                only_twin(before.units, x, publication_id, listing).id,
            );
        }
    }
}

/// A sync keeps the tables' promises.
pub proof fn lemma_synced_wf(
    db: DbView,
    publication_id: Uuid,
    listing: Seq<ChapterRef>,
    ids: Seq<Uuid>,
    now: Timestamp,
)
    requires
        db.wf(),
        sync_allowed(db, publication_id, listing, ids),
    ensures
        ({
            let s = synced(db, publication_id, listing, ids, now);
            (DbView { units: s.units, marks: s.marks, journal: s.journal, ..db }).wf()
        }),
{
    let start = before_settling(db, publication_id, listing, ids, now);
    let stale = db.units.filter(|u: ReadingUnit| is_stale(u, publication_id, listing));
    lemma_upserted(db.units, db.publications, publication_id, listing, ids, now);
    assert(sound(start, db.publications)) by {
        assert forall|i: int| 0 <= i < start.marks.len() implies has_unit(
            start.units,
            (#[trigger] start.marks[i]).unit_id,
        ) by {
            assert(has_unit(db.units, db.marks[i].unit_id));
        }
    }
    if listing.len() > 0 {
        lemma_stale_rows(db.units, publication_id, listing, ids, now);
        lemma_all_settled(start, db.publications, publication_id, listing, stale, stale.len() as int);
        assert(stale.take(stale.len() as int) =~= stale);
        lemma_all_settled_journal(start, db.publications, db.next_seq, publication_id, listing, stale);
    }
}

// ---- the sync itself ----

/// Finds a listing's first entry for a key.
pub fn find_entry(listing: &Vec<ChapterRef>, key: &str) -> (r: Option<usize>)
    ensures
        match r {
            Some(k) => k < listing@.len() && first_entry(listing@, key@) == Some(k as int),
            None => first_entry(listing@, key@) is None,
        },
{
    let mut k: usize = 0;
    while k < listing.len()
        invariant
            k <= listing@.len(),
            forall|j: int| 0 <= j < k ==> (#[trigger] listing@[j]).key@ != key@,
        decreases listing@.len() - k,
    {
        if same(listing[k].key.as_str(), key) {
            proof {
                lemma_first_entry(listing@, key@);
            }
            return Some(k);
        }
        k += 1;
    }
    proof {
        lemma_first_entry(listing@, key@);
    }
    None
}

/// Whether identifiers are at hand for `n` entries, all different, none taken.
pub(crate) fn check_ids(ids: &Vec<Uuid>, n: usize, units: &Vec<ReadingUnit>) -> (r: bool)
    ensures
        r == ids_usable(ids@, n as nat, units@),
{
    if ids.len() < n {
        return false;
    }
    let mut i: usize = 0;
    while i < n
        invariant
            i <= n <= ids@.len(),
            forall|a: int, b: int| 0 <= a < b < i ==> #[trigger] ids@[a] != #[trigger] ids@[b],
            forall|a: int| 0 <= a < i ==> !has_unit(units@, #[trigger] ids@[a]),
        decreases n - i,
    {
        let id = ids[i];
        let mut j: usize = 0;
        while j < i
            invariant
                j <= i < n <= ids@.len(),
                id == ids@[i as int],
                forall|a: int| 0 <= a < j ==> #[trigger] ids@[a] != id,
            decreases i - j,
        {
            if ids[j] == id {
                assert(ids@[j as int] == ids@[i as int]);
                return false;
            }
            j += 1;
        }
        let taken = |u: &ReadingUnit| -> (b: bool)
            ensures b == (u.id == id)
        { u.id == id };
        if any(units, taken, Ghost(|u: ReadingUnit| u.id == id)) {
            assert(has_unit(units@, ids@[i as int]));
            return false;
        }
        i += 1;
    }
    true
}

/// The rows of a publication that fell out of the listing.
fn stale_rows(units: &Vec<ReadingUnit>, publication_id: Uuid, listing: &Vec<ChapterRef>) -> (r: Vec<
    ReadingUnit,
>)
    ensures
        r@ == units@.filter(|u: ReadingUnit| is_stale(u, publication_id, listing@)),
{
    let ghost p = |u: ReadingUnit| is_stale(u, publication_id, listing@);
    let mut out: Vec<ReadingUnit> = Vec::new();
    let mut i: usize = 0;
    proof {
        lemma_filter_none(units@.take(0), p);
        assert(units@.take(0).filter(p) =~= Seq::empty());
    }
    while i < units.len()
        invariant
            i <= units@.len(),
            p == (|u: ReadingUnit| is_stale(u, publication_id, listing@)),
            out@ == units@.take(i as int).filter(p),
        decreases units@.len() - i,
    {
        proof {
            lemma_filter_take(units@, i as int, p);
        }
        if units[i].publication_id == publication_id && find_entry(
            listing,
            units[i].source_key.as_str(),
        ).is_none() {
            out.push(units[i].clone());
        }
        i += 1;
    }
    assert(units@.take(units@.len() as int) =~= units@);
    out
}

/// The units for the entries whose keys are not known yet.
pub(crate) fn make_fresh(
    units: &Vec<ReadingUnit>,
    publication_id: Uuid,
    listing: &Vec<ChapterRef>,
    ids: &Vec<Uuid>,
    now: Timestamp,
) -> (r: Vec<ReadingUnit>)
    requires
        listing@.len() <= ids@.len(),
    ensures
        r@ == fresh_units(units@, publication_id, listing@, ids@, now),
{
    let mut out: Vec<ReadingUnit> = Vec::new();
    let mut k: usize = 0;
    assert(listing@.take(0) =~= Seq::empty());
    while k < listing.len()
        invariant
            k <= listing@.len() <= ids@.len(),
            out@ == fresh_units(units@, publication_id, listing@.take(k as int), ids@, now),
        decreases listing@.len() - k,
    {
        let c = &listing[k];
        assert(listing@.take(k + 1).drop_last() =~= listing@.take(k as int));
        assert(listing@.take(k + 1).last() == *c);
        let has_it = |u: &ReadingUnit| -> (b: bool)
            ensures b == (u.publication_id == publication_id && u.source_key@ == c.key@)
        { u.publication_id == publication_id && same(u.source_key.as_str(), c.key.as_str()) };
        let known = any(
            units,
            has_it,
            Ghost(|u: ReadingUnit| u.publication_id == publication_id && u.source_key@ == c.key@),
        );
        assert(known == has_key(units@, publication_id, c.key@));
        let first = match find_entry(listing, c.key.as_str()) {
            Some(j) => j == k,
            None => false,
        };
        proof {
            lemma_first_entry(listing@, c.key@);
            lemma_first_entry(listing@.take(k as int), c.key@);
            assert(first <==> !listed(listing@.take(k as int), c.key@)) by {
                if first {
                    assert(forall|j: int| 0 <= j < k ==> listing@.take(k as int)[j] == listing@[j]);
                } else {
                    let j = first_entry(listing@, c.key@)->0;
                    assert(listing@[k as int].key@ == c.key@);
                    assert(j < k);
                    assert(listing@.take(k as int)[j].key@ == c.key@);
                }
            }
        }
        if !known && first {
            out.push(
                ReadingUnit {
                    id: ids[k],
                    publication_id,
                    source_key: c.key.clone(),
                    title: c.title.clone(),
                    number: c.number,
                    source_order: c.source_order,
                    scanlator: c.scanlator.clone(),
                    fetched_at: now,
                    published_at: c.published_at,
                    download: DownloadState::Absent,
                    page_count: None,
                    read: false,
                },
            );
        }
        k += 1;
    }
    assert(listing@.take(listing@.len() as int) =~= listing@);
    out
}

/// Refreshes the rows that the listing has.
fn refresh_known(units: &mut Vec<ReadingUnit>, publication_id: Uuid, listing: &Vec<ChapterRef>)
    ensures
        final(units)@ == old(units)@.map_values(
            |u: ReadingUnit| refreshed_row(u, publication_id, listing@),
        ),
{
    let refresh = |u: &ReadingUnit| -> (v: ReadingUnit)
        ensures v == refreshed_row(*u, publication_id, listing@)
    {
        let mut v = u.clone();
        if u.publication_id == publication_id {
            match find_entry(listing, u.source_key.as_str()) {
                Some(k) => {
                    let c = &listing[k];
                    v.title = c.title.clone();
                    v.number = c.number;
                    v.source_order = c.source_order;
                    if c.published_at.is_some() {
                        v.published_at = c.published_at;
                    }
                },
                None => {},
            }
        }
        v
    };
    change_all(
        units,
        refresh,
        Ghost(|u: ReadingUnit| refreshed_row(u, publication_id, listing@)),
    );
}

/// The place of the one twin of a stale unit.
fn find_only_twin(
    units: &Vec<ReadingUnit>,
    stale: &ReadingUnit,
    publication_id: Uuid,
    listing: &Vec<ChapterRef>,
) -> (r: Option<usize>)
    ensures
        match r {
            Some(i) => is_only_twin(units@, *stale, publication_id, listing@, i as int),
            None => !has_only_twin(units@, *stale, publication_id, listing@),
        },
{
    let mut found: Option<usize> = None;
    let mut i: usize = 0;
    while i < units.len()
        invariant
            i <= units@.len(),
            match found {
                Some(t) => t < i && is_twin(units@[t as int], *stale, publication_id, listing@) && forall|
                    j: int,
                |
                    0 <= j < i && is_twin(#[trigger] units@[j], *stale, publication_id, listing@) ==> j
                        == t,
                None => forall|j: int|
                    0 <= j < i ==> !is_twin(#[trigger] units@[j], *stale, publication_id, listing@),
            },
        decreases units@.len() - i,
    {
        let v = &units[i];
        let alike = match stale.number {
            Some(n) => match v.number {
                Some(m) => m.rank == n.rank,
                None => false,
            },
            None => v.number.is_none() && same(v.title.as_str(), stale.title.as_str()),
        };
        let twin = v.publication_id == publication_id && alike && find_entry(
            listing,
            v.source_key.as_str(),
        ).is_some();
        assert(twin == is_twin(*v, *stale, publication_id, listing@));
        if twin {
            match found {
                Some(t) => {
                    proof {
                        assert forall|k: int| !is_only_twin(
                            units@,
                            *stale,
                            publication_id,
                            listing@,
                            k,
                        ) by {
                            assert(is_twin(units@[i as int], *stale, publication_id, listing@));
                            assert(is_twin(units@[t as int], *stale, publication_id, listing@));
                        }
                    }
                    return None;
                },
                None => {
                    found = Some(i);
                },
            }
        }
        i += 1;
    }
    found
}

/// The readers who have marked a unit.
fn readers_of(marks: &Vec<ReadMark>, unit_id: Uuid) -> (r: Vec<Uuid>)
    ensures
        forall|u: Uuid| #[trigger] r@.contains(u) <==> marked(marks@, u, unit_id),
{
    let mut out: Vec<Uuid> = Vec::new();
    let mut i: usize = 0;
    while i < marks.len()
        invariant
            i <= marks@.len(),
            forall|u: Uuid| #[trigger] out@.contains(u) <==> marked(marks@.take(i as int), u, unit_id),
        decreases marks@.len() - i,
    {
        let ghost before = out@;
        let ghost seen = marks@.take(i as int);
        let ghost next = marks@.take(i + 1);
        assert(next =~= seen.push(marks@[i as int]));
        if marks[i].unit_id == unit_id {
            out.push(marks[i].user_id);
        }
        proof {
            assert forall|u: Uuid| #[trigger] out@.contains(u) <==> marked(next, u, unit_id) by {
                if out@.contains(u) {
                    let k = choose|k: int| 0 <= k < out@.len() && out@[k] == u;
                    if k < before.len() {
                        assert(before[k] == u);
                        assert(before.contains(u));
                        let m = choose|m: int|
                            0 <= m < seen.len() && (#[trigger] seen[m]).user_id == u && seen[m].unit_id
                                == unit_id;
                        assert(next[m] == seen[m]);
                    } else {
                        assert(next[i as int].user_id == u);
                    }
                }
                if marked(next, u, unit_id) {
                    let m = choose|m: int|
                        0 <= m < next.len() && (#[trigger] next[m]).user_id == u && next[m].unit_id
                            == unit_id;
                    if m < i {
                        assert(seen[m] == next[m]);
                        assert(before.contains(u));
                        let k = choose|k: int| 0 <= k < before.len() && before[k] == u;
                        assert(out@[k] == u);
                    } else {
                        assert(out@[out@.len() - 1] == u);
                    }
                }
            }
        }
        i += 1;
    }
    assert(marks@.take(marks@.len() as int) =~= marks@);
    out
}

/// Moves the marks on one unit to another.
fn move_marks(marks: &mut Vec<ReadMark>, from: Uuid, to: Uuid)
    ensures
        final(marks)@ == moved_marks(old(marks)@, from, to),
{
    let ghost all = marks@;
    let readers = readers_of(marks, to);
    let keep = |m: &ReadMark| -> (b: bool)
        ensures b == !(m.unit_id == from && readers@.contains(m.user_id))
    { !(m.unit_id == from && includes(&readers, m.user_id)) };
    retain(
        marks,
        keep,
        Ghost(|m: ReadMark| !(m.unit_id == from && marked(all, m.user_id, to))),
    );
    let shift = |m: &ReadMark| -> (n: ReadMark)
        ensures n == (if m.unit_id == from { (ReadMark { unit_id: to, ..*m }) } else { *m })
    {
        if m.unit_id == from {
            ReadMark { user_id: m.user_id, unit_id: to, at: m.at }
        } else {
            *m
        }
    };
    change_all(
        marks,
        shift,
        Ghost(
            |m: ReadMark|
                if m.unit_id == from {
                    ReadMark { unit_id: to, ..m }
                } else {
                    m
                },
        ),
    );
}

/// Moves the journal from one unit to another.
fn move_journal(journal: &mut Vec<JournalEntry>, from: Uuid, to: Uuid)
    ensures
        final(journal)@ == old(journal)@.map_values(|e: JournalEntry| moved_entry(e, from, to)),
{
    let shift = |e: &JournalEntry| -> (n: JournalEntry)
        ensures n == moved_entry(*e, from, to)
    {
        let mut n = e.clone();
        if e.event.unit_id == from {
            n.event.unit_id = to;
        }
        n
    };
    change_all(journal, shift, Ghost(|e: JournalEntry| moved_entry(e, from, to)));
}

/// Settles one stale unit.
fn settle(
    units: &mut Vec<ReadingUnit>,
    marks: &mut Vec<ReadMark>,
    journal: &mut Vec<JournalEntry>,
    ops: &mut Vec<UnitFileOp>,
    merged: &mut Vec<Uuid>,
    publication_id: Uuid,
    listing: &Vec<ChapterRef>,
    stale: &ReadingUnit,
)
    ensures
        (SyncState {
            units: final(units)@,
            marks: final(marks)@,
            journal: final(journal)@,
            ops: final(ops)@,
            merged: final(merged)@,
        }) == settled(
            SyncState {
                units: old(units)@,
                marks: old(marks)@,
                journal: old(journal)@,
                ops: old(ops)@,
                merged: old(merged)@,
            },
            publication_id,
            listing@,
            *stale,
        ),
{
    let gone = stale.id;
    let stays = |u: &ReadingUnit| -> (b: bool)
        ensures b == (u.id != gone)
    { u.id != gone };
    match find_only_twin(units, stale, publication_id, listing) {
        Some(i) => {
            let held = units[i].clone();
            let twin = &held;
            proof {
                let t = choose|k: int| is_only_twin(units@, *stale, publication_id, listing@, k);
                assert(is_only_twin(units@, *stale, publication_id, listing@, i as int));
                assert(is_only_twin(units@, *stale, publication_id, listing@, t));
                assert(t == i);
                assert(has_only_twin(units@, *stale, publication_id, listing@));
                assert(*twin == only_twin(units@, *stale, publication_id, listing@));
            }
            move_marks(marks, gone, twin.id);
            move_journal(journal, gone, twin.id);
            let saved = match stale.download {
                DownloadState::Downloaded { .. } => true,
                _ => false,
            };
            let twin_saved = match twin.download {
                DownloadState::Downloaded { .. } => true,
                _ => false,
            };
            let hand_over = |u: &ReadingUnit| -> (v: ReadingUnit)
                ensures v == after_hand_over(*u, *stale, *twin)
            {
                let mut v = u.clone();
                if saved && !twin_saved && u.id == twin.id {
                    v.download = stale.download.clone();
                    v.page_count = stale.page_count;
                }
                v
            };
            change_all(units, hand_over, Ghost(|u: ReadingUnit| after_hand_over(u, *stale, *twin)));
            retain(units, stays, Ghost(|u: ReadingUnit| u.id != gone));
            if saved && !twin_saved {
                ops.push(UnitFileOp::Rename { from: gone, to: twin.id });
            } else {
                ops.push(UnitFileOp::Remove { unit: gone });
            }
            merged.push(twin.id);
        },
        None => {
            let bare = match stale.download {
                DownloadState::Absent => true,
                DownloadState::Failed { .. } => true,
                _ => false,
            };
            if bare {
                retain(units, stays, Ghost(|u: ReadingUnit| u.id != gone));
                let elsewhere = |m: &ReadMark| -> (b: bool)
                    ensures b == (m.unit_id != gone)
                { m.unit_id != gone };
                retain(marks, elsewhere, Ghost(|m: ReadMark| m.unit_id != gone));
                ops.push(UnitFileOp::Remove { unit: gone });
            }
        },
    }
}

/// What a sync with these identifiers at this time does: where the tables take the
/// listing, the rows become those of `synced`, the new units that did not merely
/// take another's place are reported, and so is what to do to the page
/// directories; where they do not, nothing changes.
pub open spec fn sync_outcome(
    before: DbView,
    publication_id: Uuid,
    listing: Seq<ChapterRef>,
    ids: Seq<Uuid>,
    now: Timestamp,
    after: DbView,
    r: Result<UnitSync, DbError>,
) -> bool {
    let s = synced(before, publication_id, listing, ids, now);
    match r {
        Ok(sync) => {
            &&& sync_allowed(before, publication_id, listing, ids)
            &&& after == DbView { units: s.units, marks: s.marks, journal: s.journal, ..before }
            &&& sync.new_units@ == fresh_units(before.units, publication_id, listing, ids, now).filter(
                |u: ReadingUnit| !s.merged.contains(u.id),
            )
            &&& sync.file_ops@ == s.ops
        },
        Err(e) => {
            &&& !sync_allowed(before, publication_id, listing, ids)
            &&& after == before
            &&& if listing.len() > 0 && !has_publication(before.publications, publication_id) {
                is_dangling(e)
            } else {
                is_taken(e)
            }
        },
    }
}

impl Db {
    /// Merges a listing into a publication's units, with identifiers and a time at
    /// hand for new ones. New units are added; known ones keep their identifier
    /// and download state; rows that fell out of the listing are merged into their
    /// re-uploaded twin, dropped where nothing of them is saved, or kept.
    pub fn sync_units_at(
        &mut self,
        publication_id: Uuid,
        listing: &Vec<ChapterRef>,
        ids: &Vec<Uuid>,
        now: Timestamp,
    ) -> (r: Result<UnitSync, DbError>)
        requires
            old(self).wf(),
        ensures
            final(self).wf(),
            sync_outcome(old(self)@, publication_id, listing@, ids@, now, final(self)@, r),
    {
        if listing.len() > 0 && !self.knows_publication(publication_id) {
            return Err(dangling());
        }
        if !check_ids(ids, listing.len(), &self.units) {
            return Err(taken());
        }
        let ghost before = self@;
        let stale = stale_rows(&self.units, publication_id, listing);
        let fresh = make_fresh(&self.units, publication_id, listing, ids, now);
        refresh_known(&mut self.units, publication_id, listing);
        let mut added = fresh.clone();
        proof {
            assert(added@ =~= fresh@);
        }
        self.units.append(&mut added);
        let mut ops: Vec<UnitFileOp> = Vec::new();
        let mut merged: Vec<Uuid> = Vec::new();
        let ghost start = before_settling(before, publication_id, listing@, ids@, now);
        proof {
            assert(self.units@ =~= start.units);
            assert(stale@.take(0) =~= Seq::empty());
        }
        if listing.len() > 0 {
            let mut k: usize = 0;
            while k < stale.len()
                invariant
                    k <= stale@.len(),
                    start == before_settling(before, publication_id, listing@, ids@, now),
                    self@ == (DbView {
                        units: self.units@,
                        marks: self.marks@,
                        journal: self.journal@,
                        ..before
                    }),
                    (SyncState {
                        units: self.units@,
                        marks: self.marks@,
                        journal: self.journal@,
                        ops: ops@,
                        merged: merged@,
                    }) == all_settled(start, publication_id, listing@, stale@.take(k as int)),
                decreases stale@.len() - k,
            {
                assert(stale@.take(k + 1).drop_last() =~= stale@.take(k as int));
                settle(
                    &mut self.units,
                    &mut self.marks,
                    &mut self.journal,
                    &mut ops,
                    &mut merged,
                    publication_id,
                    listing,
                    &stale[k],
                );
                k += 1;
            }
            assert(stale@.take(stale@.len() as int) =~= stale@);
        }
        let mut new_units = fresh;
        let kept = |u: &ReadingUnit| -> (b: bool)
            ensures b == !merged@.contains(u.id)
        { !includes(&merged, u.id) };
        let ghost s = synced(before, publication_id, listing@, ids@, now);
        proof {
            assert(merged@ == s.merged);
            lemma_synced_wf(before, publication_id, listing@, ids@, now);
        }
        retain(&mut new_units, kept, Ghost(|u: ReadingUnit| !s.merged.contains(u.id)));
        Ok(UnitSync { new_units, file_ops: ops })
    }

    /// Merges a listing into a publication's units; identifiers and time are taken
    /// as the call is made.
    pub fn sync_units(&mut self, publication_id: Uuid, listing: &Vec<ChapterRef>) -> (r: Result<
        UnitSync,
        DbError,
    >)
        requires
            old(self).wf(),
        ensures
            final(self).wf(),
            exists|ids: Seq<Uuid>, now: Timestamp|
                timely_forms(ids, listing@.len()) && is_reading(now) && #[trigger] sync_outcome(
                    old(self)@,
                    publication_id,
                    listing@,
                    ids,
                    now,
                    final(self)@,
                    r,
                ),
    {
        let now = utc_now();
        let ids = fresh_ids(listing.len());
        self.sync_units_at(publication_id, listing, &ids, now)
    }
}

}
