//! What a sync of units promises as a whole.

use vstd::prelude::*;

use crate::clock::Timestamp;
use crate::db::units::{
    after_hand_over, all_settled, before_settling, dropped, first_entry, fresh_units, has_key, has_only_twin, is_only_twin, is_stale, is_twin,
    lemma_all_settled, lemma_fresh_units, lemma_moved_marks, lemma_stale_rows, lemma_upserted, listed, marked, merged_into, nothing_saved,
    only_twin, refreshed_row, settled, sound, sync_allowed, sync_outcome, synced, unit_from, upserted, SyncState,
};
use crate::db::{has_unit, marks_distinct, units_distinct, DbView, ReadMark, UnitFileOp, UnitSync};
use crate::domain::publication::ReadingUnit;
use crate::domain::source::ChapterRef;
use crate::ids::Uuid;
use crate::tables::lemma_filter_contains;

verus! {

/// `v` is what became of the unit `u`: it has its identifier, publication and key,
/// its group and the time it was first seen, and its release date if it had one;
/// its download state and its page count are as they were, unless it was not downloaded
/// and now is.
pub open spec fn continues(v: ReadingUnit, u: ReadingUnit) -> bool {
    &&& v.id == u.id
    &&& v.publication_id == u.publication_id
    &&& v.source_key == u.source_key
    &&& v.scanlator == u.scanlator
    &&& v.fetched_at == u.fetched_at
    &&& u.published_at is Some ==> v.published_at is Some
    &&& v.download == u.download || (!(u.download is Downloaded) && v.download is Downloaded)
    &&& v.page_count == u.page_count || (!(u.download is Downloaded) && v.download is Downloaded)
    &&& v.read == u.read
}

/// `v` is recognizably the same chapter as `u`: it has the same number, or the same
/// title where neither has a number.
pub open spec fn alike(v: ReadingUnit, u: ReadingUnit) -> bool {
    &&& v.publication_id == u.publication_id
    &&& match u.number {
        Some(n) => v.number == Some(n),
        None => v.number is None && v.title@ == u.title@,
    }
}

/// Everything needed to speak of settling the stale rows of a publication.
spec fn settling(
    s: SyncState,
    publication_id: Uuid,
    listing: Seq<ChapterRef>,
    stale: ReadingUnit,
) -> bool {
    &&& units_distinct(s.units)
    &&& s.units.contains(stale)
    &&& is_stale(stale, publication_id, listing)
}

/// One row through one settling step: gone if it is the stale one and that is
/// merged or dropped, else there, changed at most by a hand-over.
proof fn lemma_row_through(
    s: SyncState,
    publication_id: Uuid,
    listing: Seq<ChapterRef>,
    stale: ReadingUnit,
    u: ReadingUnit,
) -> (v: ReadingUnit)
    requires
        settling(s, publication_id, listing, stale),
        s.units.contains(u),
        u.id != stale.id,
    ensures
        settled(s, publication_id, listing, stale).units.contains(v),
        continues(v, u),
        v.number == u.number,
        v.title == u.title,
        v.published_at == u.published_at,
        v.source_order == u.source_order,
        v != u ==> listed(listing, u.source_key@) && u.publication_id == publication_id && settled(
            s,
            publication_id,
            listing,
            stale,
        ).merged.contains(u.id),
{
    let p = |w: ReadingUnit| w.id != stale.id;
    let k = choose|k: int| 0 <= k < s.units.len() && s.units[k] == u;
    if has_only_twin(s.units, stale, publication_id, listing) {
        let t = only_twin(s.units, stale, publication_id, listing);
        let ti = choose|i: int| is_only_twin(s.units, stale, publication_id, listing, i);
        assert(s.units[ti] == t);
        let f = |w: ReadingUnit| after_hand_over(w, stale, t);
        let m = s.units.map_values(f);
        assert(m[k] == f(u));
        assert(m.contains(f(u)));
        lemma_filter_contains(m, p);
        if u.id == t.id {
            assert(k == ti);
        }
        let out = settled(s, publication_id, listing, stale);
        assert(out.merged.last() == t.id);
        f(u)
    } else {
        if nothing_saved(stale) {
            lemma_filter_contains(s.units, p);
        }
        u
    }
}

/// The other way round: every row after a step comes from a row before it.
proof fn lemma_row_from(
    s: SyncState,
    publication_id: Uuid,
    listing: Seq<ChapterRef>,
    stale: ReadingUnit,
    v: ReadingUnit,
) -> (u: ReadingUnit)
    requires
        settling(s, publication_id, listing, stale),
        settled(s, publication_id, listing, stale).units.contains(v),
    ensures
        s.units.contains(u),
        continues(v, u),
        v.number == u.number,
        v.title == u.title,
        v != u ==> listed(listing, u.source_key@) && u.publication_id == publication_id,
        v.id == stale.id ==> !has_only_twin(s.units, stale, publication_id, listing) && !nothing_saved(
            stale,
        ),
{
    let p = |w: ReadingUnit| w.id != stale.id;
    if has_only_twin(s.units, stale, publication_id, listing) {
        let t = only_twin(s.units, stale, publication_id, listing);
        let ti = choose|i: int| is_only_twin(s.units, stale, publication_id, listing, i);
        assert(s.units[ti] == t);
        let f = |w: ReadingUnit| after_hand_over(w, stale, t);
        let m = s.units.map_values(f);
        lemma_filter_contains(m, p);
        let k = choose|k: int| 0 <= k < m.len() && m[k] == v;
        if s.units[k].id == t.id {
            assert(k == ti);
        }
        s.units[k]
    } else {
        if nothing_saved(stale) {
            lemma_filter_contains(s.units, p);
        }
        v
    }
}

/// A sync with an empty listing changes nothing: a source that answers with nothing
/// cannot wipe a publication.
pub proof fn law_empty_listing_changes_nothing(
    db: DbView,
    publication_id: Uuid,
    listing: Seq<ChapterRef>,
    ids: Seq<Uuid>,
    now: Timestamp,
)
    requires
        listing.len() == 0,
    ensures
        synced(db, publication_id, listing, ids, now).units == db.units,
        synced(db, publication_id, listing, ids, now).marks == db.marks,
        synced(db, publication_id, listing, ids, now).journal == db.journal,
        synced(db, publication_id, listing, ids, now).ops.len() == 0,
{
    assert(upserted(db.units, publication_id, listing, ids, now) =~= db.units);
}

/// What the rows look like once the first `n` stale ones are settled, and what that
/// takes.
proof fn lemma_ready(
    db: DbView,
    publication_id: Uuid,
    listing: Seq<ChapterRef>,
    ids: Seq<Uuid>,
    now: Timestamp,
    n: int,
)
    requires
        db.wf(),
        sync_allowed(db, publication_id, listing, ids),
        0 <= n <= db.units.filter(|u: ReadingUnit| is_stale(u, publication_id, listing)).len(),
    ensures
        ({
            let stale = db.units.filter(|u: ReadingUnit| is_stale(u, publication_id, listing));
            let start = before_settling(db, publication_id, listing, ids, now);
            let s = all_settled(start, publication_id, listing, stale.take(n));
            &&& sound(s, db.publications)
            &&& n < stale.len() ==> settling(s, publication_id, listing, stale[n])
            &&& n < stale.len() ==> db.units.contains(stale[n])
            &&& n > 0 ==> s == settled(
                all_settled(start, publication_id, listing, stale.take(n - 1)),
                publication_id,
                listing,
                stale[n - 1],
            )
            &&& forall|i: int, j: int|
                0 <= i < j < stale.len() ==> (#[trigger] stale[i]).id != (#[trigger] stale[j]).id
            &&& forall|i: int|
                0 <= i < stale.len() ==> is_stale(#[trigger] stale[i], publication_id, listing)
                    && db.units.contains(stale[i])
        }),
{
    let stale = db.units.filter(|u: ReadingUnit| is_stale(u, publication_id, listing));
    let start = before_settling(db, publication_id, listing, ids, now);
    lemma_upserted(db.units, db.publications, publication_id, listing, ids, now);
    assert forall|i: int| 0 <= i < start.marks.len() implies has_unit(
        start.units,
        (#[trigger] start.marks[i]).unit_id,
    ) by {
        assert(has_unit(db.units, db.marks[i].unit_id));
    }
    lemma_stale_rows(db.units, publication_id, listing, ids, now);
    lemma_all_settled(start, db.publications, publication_id, listing, stale, n);
    if n > 0 {
        assert(stale.take(n).drop_last() =~= stale.take(n - 1));
    }
}

/// A row of the tables after the listing was merged in, before anything is settled.
proof fn lemma_row_at_start(
    db: DbView,
    publication_id: Uuid,
    listing: Seq<ChapterRef>,
    ids: Seq<Uuid>,
    now: Timestamp,
    u: ReadingUnit,
)
    requires
        db.units.contains(u),
    ensures
        before_settling(db, publication_id, listing, ids, now).units.contains(
            refreshed_row(u, publication_id, listing),
        ),
        continues(refreshed_row(u, publication_id, listing), u),
{
    let k = choose|k: int| 0 <= k < db.units.len() && db.units[k] == u;
    let all = upserted(db.units, publication_id, listing, ids, now);
    assert(all[k] == refreshed_row(u, publication_id, listing));
}

/// A unit that the listing has, or that is of another publication, stays through
/// the settling of the first `n` stale ones.
proof fn lemma_stays(
    db: DbView,
    publication_id: Uuid,
    listing: Seq<ChapterRef>,
    ids: Seq<Uuid>,
    now: Timestamp,
    u: ReadingUnit,
    n: int,
) -> (v: ReadingUnit)
    requires
        db.wf(),
        sync_allowed(db, publication_id, listing, ids),
        db.units.contains(u),
        !is_stale(u, publication_id, listing),
        0 <= n <= db.units.filter(|u: ReadingUnit| is_stale(u, publication_id, listing)).len(),
    ensures
        all_settled(
            before_settling(db, publication_id, listing, ids, now),
            publication_id,
            listing,
            db.units.filter(|u: ReadingUnit| is_stale(u, publication_id, listing)).take(n),
        ).units.contains(v),
        continues(v, u),
        v.number == refreshed_row(u, publication_id, listing).number,
        v.title == refreshed_row(u, publication_id, listing).title,
        v.source_order == refreshed_row(u, publication_id, listing).source_order,
        v.published_at == refreshed_row(u, publication_id, listing).published_at,
        u.publication_id != publication_id ==> v == u,
    decreases n,
{
    let stale = db.units.filter(|u: ReadingUnit| is_stale(u, publication_id, listing));
    let start = before_settling(db, publication_id, listing, ids, now);
    lemma_ready(db, publication_id, listing, ids, now, n);
    if n == 0 {
        assert(stale.take(0) =~= Seq::empty());
        lemma_row_at_start(db, publication_id, listing, ids, now, u);
        refreshed_row(u, publication_id, listing)
    } else {
        let w = lemma_stays(db, publication_id, listing, ids, now, u, n - 1);
        lemma_ready(db, publication_id, listing, ids, now, n - 1);
        let s = all_settled(start, publication_id, listing, stale.take(n - 1));
        assert(w.id != stale[n - 1].id) by {
            let a = choose|a: int| 0 <= a < s.units.len() && s.units[a] == w;
            let b = choose|b: int| 0 <= b < s.units.len() && s.units[b] == stale[n - 1];
            if w.id == stale[n - 1].id {
                assert(s.units[a].id == s.units[b].id);
                assert(a == b);
            }
        }
        let v = lemma_row_through(s, publication_id, listing, stale[n - 1], w);
        v
    }
}

/// A unit that the listing still has keeps its identifier, its key, its group, the
/// time it was first seen and its release date; its download state changes only
/// where it takes over a re-uploaded unit's pages.
pub proof fn law_listed_units_stay(
    db: DbView,
    publication_id: Uuid,
    listing: Seq<ChapterRef>,
    ids: Seq<Uuid>,
    now: Timestamp,
    u: ReadingUnit,
)
    requires
        db.wf(),
        sync_allowed(db, publication_id, listing, ids),
        db.units.contains(u),
        u.publication_id == publication_id,
        listed(listing, u.source_key@),
    ensures
        exists|v: ReadingUnit|
            #[trigger] synced(db, publication_id, listing, ids, now).units.contains(v) && continues(v, u)
                && v.number == refreshed_row(u, publication_id, listing).number && v.title
                == refreshed_row(u, publication_id, listing).title,
{
    let stale = db.units.filter(|u: ReadingUnit| is_stale(u, publication_id, listing));
    let v = lemma_stays(db, publication_id, listing, ids, now, u, stale.len() as int);
    assert(stale.take(stale.len() as int) =~= stale);
    assert(synced(db, publication_id, listing, ids, now).units.contains(v));
}

/// A sync of one publication leaves the units of all others as they are.
pub proof fn law_other_publications_unchanged(
    db: DbView,
    publication_id: Uuid,
    listing: Seq<ChapterRef>,
    ids: Seq<Uuid>,
    now: Timestamp,
    u: ReadingUnit,
)
    requires
        db.wf(),
        sync_allowed(db, publication_id, listing, ids),
        u.publication_id != publication_id,
    ensures
        synced(db, publication_id, listing, ids, now).units.contains(u) <==> db.units.contains(u),
{
    let stale = db.units.filter(|u: ReadingUnit| is_stale(u, publication_id, listing));
    assert(stale.take(stale.len() as int) =~= stale);
    if db.units.contains(u) {
        if listing.len() == 0 {
            law_empty_listing_changes_nothing(db, publication_id, listing, ids, now);
        } else {
            let v = lemma_stays(db, publication_id, listing, ids, now, u, stale.len() as int);
        }
    }
    if synced(db, publication_id, listing, ids, now).units.contains(u) {
        if listing.len() == 0 {
            law_empty_listing_changes_nothing(db, publication_id, listing, ids, now);
        } else {
            lemma_comes_from(db, publication_id, listing, ids, now, u, stale.len() as int);
        }
    }
}

/// A row of another publication was there from the start.
proof fn lemma_comes_from(
    db: DbView,
    publication_id: Uuid,
    listing: Seq<ChapterRef>,
    ids: Seq<Uuid>,
    now: Timestamp,
    v: ReadingUnit,
    n: int,
)
    requires
        db.wf(),
        sync_allowed(db, publication_id, listing, ids),
        v.publication_id != publication_id,
        0 <= n <= db.units.filter(|u: ReadingUnit| is_stale(u, publication_id, listing)).len(),
        all_settled(
            before_settling(db, publication_id, listing, ids, now),
            publication_id,
            listing,
            db.units.filter(|u: ReadingUnit| is_stale(u, publication_id, listing)).take(n),
        ).units.contains(v),
    ensures
        db.units.contains(v),
    decreases n,
{
    let stale = db.units.filter(|u: ReadingUnit| is_stale(u, publication_id, listing));
    let start = before_settling(db, publication_id, listing, ids, now);
    lemma_ready(db, publication_id, listing, ids, now, n);
    if n == 0 {
        assert(stale.take(0) =~= Seq::empty());
        let all = upserted(db.units, publication_id, listing, ids, now);
        let k = choose|k: int| 0 <= k < all.len() && all[k] == v;
        lemma_fresh_units(db.units, publication_id, listing, ids, now);
        if k < db.units.len() {
            assert(all[k] == refreshed_row(db.units[k], publication_id, listing));
            assert(db.units[k] == v);
        } else {
            assert(all[k] == fresh_units(db.units, publication_id, listing, ids, now)[k - db.units.len()]);
        }
    } else {
        lemma_ready(db, publication_id, listing, ids, now, n - 1);
        let s = all_settled(start, publication_id, listing, stale.take(n - 1));
        let u = lemma_row_from(s, publication_id, listing, stale[n - 1], v);
        lemma_comes_from(db, publication_id, listing, ids, now, v, n - 1);
    }
}

/// What is downloaded is never lost: a unit that was downloaded is still there and
/// downloaded, or the same chapter under a new key is.
pub proof fn law_downloads_survive(
    db: DbView,
    publication_id: Uuid,
    listing: Seq<ChapterRef>,
    ids: Seq<Uuid>,
    now: Timestamp,
    u: ReadingUnit,
)
    requires
        db.wf(),
        sync_allowed(db, publication_id, listing, ids),
        db.units.contains(u),
        u.download is Downloaded,
    ensures
        exists|v: ReadingUnit|
            #[trigger] synced(db, publication_id, listing, ids, now).units.contains(v)
                && v.download is Downloaded && (v.id == u.id || alike(v, u)),
{
    let stale = db.units.filter(|u: ReadingUnit| is_stale(u, publication_id, listing));
    assert(stale.take(stale.len() as int) =~= stale);
    if listing.len() == 0 {
        law_empty_listing_changes_nothing(db, publication_id, listing, ids, now);
        assert(synced(db, publication_id, listing, ids, now).units.contains(u));
    } else if is_stale(u, publication_id, listing) {
        let v = lemma_download_kept(db, publication_id, listing, ids, now, u, stale.len() as int);
        assert(synced(db, publication_id, listing, ids, now).units.contains(v));
    } else {
        let v = lemma_stays(db, publication_id, listing, ids, now, u, stale.len() as int);
        assert(synced(db, publication_id, listing, ids, now).units.contains(v));
    }
}

/// A stale downloaded unit through the settling of the first `n` stale ones.
proof fn lemma_download_kept(
    db: DbView,
    publication_id: Uuid,
    listing: Seq<ChapterRef>,
    ids: Seq<Uuid>,
    now: Timestamp,
    u: ReadingUnit,
    n: int,
) -> (v: ReadingUnit)
    requires
        db.wf(),
        sync_allowed(db, publication_id, listing, ids),
        db.units.contains(u),
        u.download is Downloaded,
        is_stale(u, publication_id, listing),
        0 <= n <= db.units.filter(|u: ReadingUnit| is_stale(u, publication_id, listing)).len(),
    ensures
        all_settled(
            before_settling(db, publication_id, listing, ids, now),
            publication_id,
            listing,
            db.units.filter(|u: ReadingUnit| is_stale(u, publication_id, listing)).take(n),
        ).units.contains(v),
        v.download is Downloaded,
        v == u || (alike(v, u) && listed(listing, v.source_key@)),
    decreases n,
{
    let stale = db.units.filter(|u: ReadingUnit| is_stale(u, publication_id, listing));
    let start = before_settling(db, publication_id, listing, ids, now);
    lemma_ready(db, publication_id, listing, ids, now, n);
    if n == 0 {
        assert(stale.take(0) =~= Seq::empty());
        lemma_row_at_start(db, publication_id, listing, ids, now, u);
        u
    } else {
        let w = lemma_download_kept(db, publication_id, listing, ids, now, u, n - 1);
        lemma_ready(db, publication_id, listing, ids, now, n - 1);
        let s = all_settled(start, publication_id, listing, stale.take(n - 1));
        let x = stale[n - 1];
        if w.id != x.id {
            lemma_row_through(s, publication_id, listing, x, w)
        } else {
            let a = choose|a: int| 0 <= a < s.units.len() && s.units[a] == w;
            let b = choose|b: int| 0 <= b < s.units.len() && s.units[b] == x;
            assert(s.units[a].id == s.units[b].id);
            assert(a == b);
            assert(w == u && x == u);
            if has_only_twin(s.units, x, publication_id, listing) {
                let t = only_twin(s.units, x, publication_id, listing);
                let ti = choose|i: int| is_only_twin(s.units, x, publication_id, listing, i);
                assert(s.units[ti] == t);
                let f = |w: ReadingUnit| after_hand_over(w, x, t);
                let p = |w: ReadingUnit| w.id != x.id;
                let m = s.units.map_values(f);
                assert(m[ti] == f(t));
                assert(m.contains(f(t)));
                assert(t.id != x.id) by {
                    if t.id == x.id {
                        assert(ti == b);
                    }
                }
                lemma_filter_contains(m, p);
                f(t)
            } else {
                w
            }
        }
    }
}

/// Where a stale unit is merged into its twin, every reader who had read either has
/// read the twin, the journal of the stale unit is the twin's, and nothing else in
/// the journal changes.
pub proof fn law_reading_follows_the_twin(s: SyncState, stale: ReadingUnit, twin: ReadingUnit)
    requires
        marks_distinct(s.marks),
        stale.id != twin.id,
    ensures
        forall|user: Uuid|
            #[trigger] marked(merged_into(s, stale, twin).marks, user, twin.id) <==> marked(
                s.marks,
                user,
                twin.id,
            ) || marked(s.marks, user, stale.id),
        forall|user: Uuid, other: Uuid|
            other != stale.id && other != twin.id ==> (#[trigger] marked(
                merged_into(s, stale, twin).marks,
                user,
                other,
            ) <==> marked(s.marks, user, other)),
        merged_into(s, stale, twin).journal.len() == s.journal.len(),
        forall|i: int|
            0 <= i < s.journal.len() ==> {
                let e = #[trigger] merged_into(s, stale, twin).journal[i];
                &&& e.event.unit_id == (if s.journal[i].event.unit_id == stale.id {
                    twin.id
                } else {
                    s.journal[i].event.unit_id
                })
                &&& e.seq == s.journal[i].seq
                &&& e.user_id == s.journal[i].user_id
                &&& e.event.id == s.journal[i].event.id
                &&& e.event.page == s.journal[i].event.page
                &&& e.event.at == s.journal[i].event.at
            },
{
    lemma_moved_marks(s.marks, stale.id, twin.id);
}

/// The unit whose page directory an operation takes away.
pub open spec fn vacated(op: UnitFileOp) -> Uuid {
    match op {
        UnitFileOp::Remove { unit } => unit,
        UnitFileOp::Rename { from, .. } => from,
    }
}

/// Page directories are only ever taken from units that fell out of the listing.
pub proof fn law_only_stale_pages_move(
    db: DbView,
    publication_id: Uuid,
    listing: Seq<ChapterRef>,
    ids: Seq<Uuid>,
    now: Timestamp,
    i: int,
)
    requires
        db.wf(),
        sync_allowed(db, publication_id, listing, ids),
        0 <= i < synced(db, publication_id, listing, ids, now).ops.len(),
    ensures
        exists|u: ReadingUnit|
            #[trigger] db.units.contains(u) && is_stale(u, publication_id, listing) && vacated(
                synced(db, publication_id, listing, ids, now).ops[i],
            ) == u.id,
{
    let stale = db.units.filter(|u: ReadingUnit| is_stale(u, publication_id, listing));
    assert(stale.take(stale.len() as int) =~= stale);
    lemma_ops(db, publication_id, listing, ids, now, stale.len() as int, i);
}

/// The operations of the first `n` stale units.
proof fn lemma_ops(
    db: DbView,
    publication_id: Uuid,
    listing: Seq<ChapterRef>,
    ids: Seq<Uuid>,
    now: Timestamp,
    n: int,
    i: int,
)
    requires
        db.wf(),
        sync_allowed(db, publication_id, listing, ids),
        0 <= n <= db.units.filter(|u: ReadingUnit| is_stale(u, publication_id, listing)).len(),
        0 <= i < all_settled(
            before_settling(db, publication_id, listing, ids, now),
            publication_id,
            listing,
            db.units.filter(|u: ReadingUnit| is_stale(u, publication_id, listing)).take(n),
        ).ops.len(),
    ensures
        exists|u: ReadingUnit|
            #[trigger] db.units.contains(u) && is_stale(u, publication_id, listing) && vacated(
                all_settled(
                    before_settling(db, publication_id, listing, ids, now),
                    publication_id,
                    listing,
                    db.units.filter(|u: ReadingUnit| is_stale(u, publication_id, listing)).take(n),
                ).ops[i],
            ) == u.id,
    decreases n,
{
    let stale = db.units.filter(|u: ReadingUnit| is_stale(u, publication_id, listing));
    let start = before_settling(db, publication_id, listing, ids, now);
    lemma_ready(db, publication_id, listing, ids, now, n);
    if n == 0 {
        assert(stale.take(0) =~= Seq::empty());
    } else {
        let s = all_settled(start, publication_id, listing, stale.take(n - 1));
        if i < s.ops.len() {
            lemma_ops(db, publication_id, listing, ids, now, n - 1, i);
        } else {
            assert(db.units.contains(stale[n - 1]));
        }
    }
}

/// A new unit that took no other's place stays as it was made.
proof fn lemma_fresh_kept(
    db: DbView,
    publication_id: Uuid,
    listing: Seq<ChapterRef>,
    ids: Seq<Uuid>,
    now: Timestamp,
    u: ReadingUnit,
    n: int,
)
    requires
        db.wf(),
        sync_allowed(db, publication_id, listing, ids),
        fresh_units(db.units, publication_id, listing, ids, now).contains(u),
        0 <= n <= db.units.filter(|u: ReadingUnit| is_stale(u, publication_id, listing)).len(),
        !all_settled(
            before_settling(db, publication_id, listing, ids, now),
            publication_id,
            listing,
            db.units.filter(|u: ReadingUnit| is_stale(u, publication_id, listing)).take(n),
        ).merged.contains(u.id),
    ensures
        all_settled(
            before_settling(db, publication_id, listing, ids, now),
            publication_id,
            listing,
            db.units.filter(|u: ReadingUnit| is_stale(u, publication_id, listing)).take(n),
        ).units.contains(u),
    decreases n,
{
    let stale = db.units.filter(|u: ReadingUnit| is_stale(u, publication_id, listing));
    let start = before_settling(db, publication_id, listing, ids, now);
    let fresh = fresh_units(db.units, publication_id, listing, ids, now);
    lemma_ready(db, publication_id, listing, ids, now, n);
    lemma_fresh_units(db.units, publication_id, listing, ids, now);
    let f = choose|f: int| 0 <= f < fresh.len() && fresh[f] == u;
    if n == 0 {
        assert(stale.take(0) =~= Seq::empty());
        let all = upserted(db.units, publication_id, listing, ids, now);
        assert(all[db.units.len() + f] == u);
    } else {
        lemma_ready(db, publication_id, listing, ids, now, n - 1);
        let s = all_settled(start, publication_id, listing, stale.take(n - 1));
        let x = stale[n - 1];
        let out = settled(s, publication_id, listing, x);
        assert(!s.merged.contains(u.id)) by {
            if s.merged.contains(u.id) {
                let k = choose|k: int| 0 <= k < s.merged.len() && s.merged[k] == u.id;
                assert(out.merged[k] == u.id);
            }
        }
        lemma_fresh_kept(db, publication_id, listing, ids, now, u, n - 1);
        let a = choose|a: int| 0 <= a < s.units.len() && s.units[a] == u;
        let b = choose|b: int| 0 <= b < s.units.len() && s.units[b] == x;
        assert(u.id != x.id) by {
            if u.id == x.id {
                assert(s.units[a].id == s.units[b].id);
                assert(a == b);
            }
        }
        let v = lemma_row_through(s, publication_id, listing, x, u);
    }
}

/// A unit reported as new was not known before, is listed, and is in the tables.
pub proof fn law_new_units_are_new(
    db: DbView,
    publication_id: Uuid,
    listing: Seq<ChapterRef>,
    ids: Seq<Uuid>,
    now: Timestamp,
    u: ReadingUnit,
)
    requires
        db.wf(),
        sync_allowed(db, publication_id, listing, ids),
        fresh_units(db.units, publication_id, listing, ids, now).contains(u),
        !synced(db, publication_id, listing, ids, now).merged.contains(u.id),
    ensures
        !has_key(db.units, publication_id, u.source_key@),
        listed(listing, u.source_key@),
        synced(db, publication_id, listing, ids, now).units.contains(u),
{
    let stale = db.units.filter(|u: ReadingUnit| is_stale(u, publication_id, listing));
    let fresh = fresh_units(db.units, publication_id, listing, ids, now);
    assert(stale.take(stale.len() as int) =~= stale);
    assert(stale.take(0) =~= Seq::empty());
    lemma_fresh_units(db.units, publication_id, listing, ids, now);
    let f = choose|f: int| 0 <= f < fresh.len() && fresh[f] == u;
    assert(listing.len() > 0);
    lemma_fresh_kept(db, publication_id, listing, ids, now, u, stale.len() as int);
}

/// Settling one stale unit gives no other one a single twin that it did not have.
proof fn lemma_twins_unchanged(
    s: SyncState,
    publication_id: Uuid,
    listing: Seq<ChapterRef>,
    x: ReadingUnit,
    y: ReadingUnit,
)
    requires
        settling(s, publication_id, listing, x),
        units_distinct(settled(s, publication_id, listing, x).units),
        has_only_twin(settled(s, publication_id, listing, x).units, y, publication_id, listing),
    ensures
        has_only_twin(s.units, y, publication_id, listing),
{
    let out = settled(s, publication_id, listing, x);
    let i = choose|i: int| is_only_twin(out.units, y, publication_id, listing, i);
    let v = out.units[i];
    assert(out.units.contains(v));
    let u = lemma_row_from(s, publication_id, listing, x, v);
    let k = choose|k: int| 0 <= k < s.units.len() && s.units[k] == u;
    assert forall|j: int|
        0 <= j < s.units.len() && is_twin(#[trigger] s.units[j], y, publication_id, listing) implies j
        == k by {
        let w = s.units[j];
        assert(s.units.contains(w));
        let b = choose|b: int| 0 <= b < s.units.len() && s.units[b] == x;
        assert(w.id != x.id) by {
            if w.id == x.id {
                assert(s.units[j].id == s.units[b].id);
                assert(j == b);
            }
        }
        let w2 = lemma_row_through(s, publication_id, listing, x, w);
        let m = choose|m: int| 0 <= m < out.units.len() && out.units[m] == w2;
        assert(is_twin(out.units[m], y, publication_id, listing));
        assert(m == i);
        assert(s.units[j].id == s.units[k].id);
    }
    assert(is_only_twin(s.units, y, publication_id, listing, k));
}

/// Once the first `n` stale units are settled, those of them that are left have
/// something saved and no single twin.
proof fn lemma_leftovers(
    db: DbView,
    publication_id: Uuid,
    listing: Seq<ChapterRef>,
    ids: Seq<Uuid>,
    now: Timestamp,
    n: int,
    j: int,
)
    requires
        db.wf(),
        sync_allowed(db, publication_id, listing, ids),
        0 <= j < n <= db.units.filter(|u: ReadingUnit| is_stale(u, publication_id, listing)).len(),
    ensures
        ({
            let stale = db.units.filter(|u: ReadingUnit| is_stale(u, publication_id, listing));
            let s = all_settled(
                before_settling(db, publication_id, listing, ids, now),
                publication_id,
                listing,
                stale.take(n),
            );
            has_unit(s.units, stale[j].id) ==> !nothing_saved(stale[j]) && !has_only_twin(
                s.units,
                stale[j],
                publication_id,
                listing,
            )
        }),
    decreases n,
{
    let stale = db.units.filter(|u: ReadingUnit| is_stale(u, publication_id, listing));
    let start = before_settling(db, publication_id, listing, ids, now);
    lemma_ready(db, publication_id, listing, ids, now, n);
    lemma_ready(db, publication_id, listing, ids, now, n - 1);
    let s = all_settled(start, publication_id, listing, stale.take(n - 1));
    let x = stale[n - 1];
    let out = settled(s, publication_id, listing, x);
    if has_unit(out.units, stale[j].id) {
        let i = choose|i: int| 0 <= i < out.units.len() && (#[trigger] out.units[i]).id == stale[j].id;
        assert(out.units.contains(out.units[i]));
        let u = lemma_row_from(s, publication_id, listing, x, out.units[i]);
        let k = choose|k: int| 0 <= k < s.units.len() && s.units[k] == u;
        assert(s.units[k].id == stale[j].id);
        if has_only_twin(out.units, stale[j], publication_id, listing) {
            lemma_twins_unchanged(s, publication_id, listing, x, stale[j]);
        }
        if j < n - 1 {
            lemma_leftovers(db, publication_id, listing, ids, now, n - 1, j);
        }
    }
}

/// No recognizable duplicate is left behind: a unit of the publication that the
/// listing does not have, and that is still there after a sync, has something
/// saved and no single twin in the listing.
pub proof fn law_no_duplicates_left(
    db: DbView,
    publication_id: Uuid,
    listing: Seq<ChapterRef>,
    ids: Seq<Uuid>,
    now: Timestamp,
    u: ReadingUnit,
)
    requires
        db.wf(),
        sync_allowed(db, publication_id, listing, ids),
        listing.len() > 0,
        db.units.contains(u),
        is_stale(u, publication_id, listing),
        has_unit(synced(db, publication_id, listing, ids, now).units, u.id),
    ensures
        !nothing_saved(u),
        !has_only_twin(
            synced(db, publication_id, listing, ids, now).units,
            u,
            publication_id,
            listing,
        ),
{
    let p = |u: ReadingUnit| is_stale(u, publication_id, listing);
    let stale = db.units.filter(p);
    assert(stale.take(stale.len() as int) =~= stale);
    lemma_filter_contains(db.units, p);
    assert(stale.contains(u));
    let j = choose|j: int| 0 <= j < stale.len() && stale[j] == u;
    lemma_leftovers(db, publication_id, listing, ids, now, stale.len() as int, j);
}

// ---- what becomes of each chapter, by the listing itself ----

/// Entry `k` of a listing is the first with its key.
pub open spec fn first_of_key(listing: Seq<ChapterRef>, k: int) -> bool {
    &&& 0 <= k < listing.len()
    &&& forall|j: int| 0 <= j < k ==> (#[trigger] listing[j]).key@ != listing[k].key@
}

/// No entry of a listing has the key.
pub open spec fn unlisted(listing: Seq<ChapterRef>, key: Seq<char>) -> bool {
    forall|j: int| 0 <= j < listing.len() ==> (#[trigger] listing[j]).key@ != key
}

/// The first entry of its key is the one that is found.
pub(crate) proof fn lemma_first_of_key(listing: Seq<ChapterRef>, k: int)
    requires
        first_of_key(listing, k),
    ensures
        first_entry(listing, listing[k].key@) == Some(k),
    decreases listing.len(),
{
    let d = listing.drop_last();
    if k < d.len() {
        assert(d[k] == listing[k]);
        assert forall|j: int| 0 <= j < k implies (#[trigger] d[j]).key@ != d[k].key@ by {
            assert(d[j] == listing[j]);
        }
        lemma_first_of_key(d, k);
    } else {
        lemma_unlisted(d, listing[k].key@);
    }
}

/// A key that no entry has is not found.
proof fn lemma_unlisted(listing: Seq<ChapterRef>, key: Seq<char>)
    ensures
        unlisted(listing, key) ==> first_entry(listing, key) is None,
    decreases listing.len(),
{
    if listing.len() > 0 {
        let d = listing.drop_last();
        if unlisted(listing, key) {
            assert forall|j: int| 0 <= j < d.len() implies (#[trigger] d[j]).key@ != key by {
                assert(d[j] == listing[j]);
            }
            assert(listing[listing.len() - 1].key@ != key);
        }
        lemma_unlisted(d, key);
    }
}

/// A known chapter takes over what the listing says of it: after a sync the unit with its
/// identifier has the title, the number and the place of the first entry with its key, and
/// that entry's release date where it has one. Its identifier, publication, key, group and
/// the time it was first seen stay, and so do its download and its page count, unless it
/// took over pages that were downloaded under another key.
pub proof fn law_known_chapters_take_the_listing(
    before: DbView,
    publication_id: Uuid,
    listing: Seq<ChapterRef>,
    ids: Seq<Uuid>,
    now: Timestamp,
    after: DbView,
    sync: UnitSync,
    u: ReadingUnit,
    k: int,
)
    requires
        before.wf(),
        sync_outcome(before, publication_id, listing, ids, now, after, Ok(sync)),
        before.units.contains(u),
        u.publication_id == publication_id,
        first_of_key(listing, k),
        listing[k].key@ == u.source_key@,
    ensures
        exists|v: ReadingUnit|
            {
                &&& #[trigger] after.units.contains(v)
                &&& v.id == u.id
                &&& v.title == listing[k].title
                &&& v.number == listing[k].number
                &&& v.source_order == listing[k].source_order
                &&& v.published_at == (if listing[k].published_at is Some {
                    listing[k].published_at
                } else {
                    u.published_at
                })
                &&& v.publication_id == u.publication_id
                &&& v.source_key == u.source_key
                &&& v.scanlator == u.scanlator
                &&& v.fetched_at == u.fetched_at
                &&& v.read == u.read
                &&& (v.download == u.download && v.page_count == u.page_count) || (!(
                u.download is Downloaded) && v.download is Downloaded)
            },
{
    lemma_first_of_key(listing, k);
    let stale = before.units.filter(|u: ReadingUnit| is_stale(u, publication_id, listing));
    let v = lemma_stays(before, publication_id, listing, ids, now, u, stale.len() as int);
    assert(stale.take(stale.len() as int) =~= stale);
    assert(after.units.contains(v));
}

/// An entry whose key is new makes a unit among the new ones.
pub(crate) proof fn lemma_entry_made(
    known: Seq<ReadingUnit>,
    publication_id: Uuid,
    listing: Seq<ChapterRef>,
    ids: Seq<Uuid>,
    now: Timestamp,
    k: int,
)
    requires
        first_of_key(listing, k),
        !has_key(known, publication_id, listing[k].key@),
    ensures
        fresh_units(known, publication_id, listing, ids, now).contains(
            unit_from(listing[k], ids[k], publication_id, now),
        ),
    decreases listing.len(),
{
    let d = listing.drop_last();
    let before = fresh_units(known, publication_id, d, ids, now);
    let all = fresh_units(known, publication_id, listing, ids, now);
    if k < d.len() {
        assert(d[k] == listing[k]);
        assert forall|j: int| 0 <= j < k implies (#[trigger] d[j]).key@ != d[k].key@ by {
            assert(d[j] == listing[j]);
        }
        lemma_entry_made(known, publication_id, d, ids, now, k);
        let x = unit_from(listing[k], ids[k], publication_id, now);
        let n = choose|n: int| 0 <= n < before.len() && before[n] == x;
        assert(all[n] == x);
    } else {
        lemma_unlisted(d, listing[k].key@);
        assert(all.last() == unit_from(listing[k], ids[k], publication_id, now));
        assert(all[all.len() - 1] == all.last());
    }
}

/// A new unit that is not the place of another stays through settling, and one that is has
/// all that it was made with but the download.
proof fn lemma_fresh_through(
    db: DbView,
    publication_id: Uuid,
    listing: Seq<ChapterRef>,
    ids: Seq<Uuid>,
    now: Timestamp,
    u: ReadingUnit,
    n: int,
) -> (v: ReadingUnit)
    requires
        db.wf(),
        sync_allowed(db, publication_id, listing, ids),
        fresh_units(db.units, publication_id, listing, ids, now).contains(u),
        0 <= n <= db.units.filter(|u: ReadingUnit| is_stale(u, publication_id, listing)).len(),
    ensures
        all_settled(
            before_settling(db, publication_id, listing, ids, now),
            publication_id,
            listing,
            db.units.filter(|u: ReadingUnit| is_stale(u, publication_id, listing)).take(n),
        ).units.contains(v),
        continues(v, u),
        v.number == u.number,
        v.title == u.title,
        v.published_at == u.published_at,
        v.source_order == u.source_order,
    decreases n,
{
    let stale = db.units.filter(|u: ReadingUnit| is_stale(u, publication_id, listing));
    let start = before_settling(db, publication_id, listing, ids, now);
    let fresh = fresh_units(db.units, publication_id, listing, ids, now);
    lemma_ready(db, publication_id, listing, ids, now, n);
    lemma_fresh_units(db.units, publication_id, listing, ids, now);
    let f = choose|f: int| 0 <= f < fresh.len() && fresh[f] == u;
    if n == 0 {
        assert(stale.take(0) =~= Seq::empty());
        let all = upserted(db.units, publication_id, listing, ids, now);
        assert(all[db.units.len() + f] == u);
        u
    } else {
        lemma_ready(db, publication_id, listing, ids, now, n - 1);
        let s = all_settled(start, publication_id, listing, stale.take(n - 1));
        let x = stale[n - 1];
        let w = lemma_fresh_through(db, publication_id, listing, ids, now, u, n - 1);
        let a = choose|a: int| 0 <= a < s.units.len() && s.units[a] == w;
        let b = choose|b: int| 0 <= b < s.units.len() && s.units[b] == x;
        assert(w.id != x.id) by {
            if w.id == x.id {
                assert(s.units[a].id == s.units[b].id);
                assert(a == b);
            }
        }
        lemma_row_through(s, publication_id, listing, x, w)
    }
}

/// A chapter that the publication did not have becomes a unit: it has the identifier at
/// hand for its entry, the entry's key, title, number, place, group and release date, is
/// first seen now, and nobody has read it. Nothing of it is downloaded, unless it took over
/// pages that were downloaded under another key.
pub proof fn law_unknown_chapters_become_units(
    before: DbView,
    publication_id: Uuid,
    listing: Seq<ChapterRef>,
    ids: Seq<Uuid>,
    now: Timestamp,
    after: DbView,
    sync: UnitSync,
    k: int,
)
    requires
        before.wf(),
        sync_outcome(before, publication_id, listing, ids, now, after, Ok(sync)),
        first_of_key(listing, k),
        forall|i: int|
            0 <= i < before.units.len() && (#[trigger] before.units[i]).publication_id == publication_id
                ==> before.units[i].source_key@ != listing[k].key@,
    ensures
        exists|v: ReadingUnit|
            {
                &&& #[trigger] after.units.contains(v)
                &&& v.id == ids[k]
                &&& v.publication_id == publication_id
                &&& v.source_key == listing[k].key
                &&& v.title == listing[k].title
                &&& v.number == listing[k].number
                &&& v.source_order == listing[k].source_order
                &&& v.scanlator == listing[k].scanlator
                &&& v.published_at == listing[k].published_at
                &&& v.fetched_at == now
                &&& !v.read
                &&& (v.download is Absent && v.page_count is None) || v.download is Downloaded
            },
{
    let u = unit_from(listing[k], ids[k], publication_id, now);
    assert(!has_key(before.units, publication_id, listing[k].key@));
    lemma_entry_made(before.units, publication_id, listing, ids, now, k);
    let stale = before.units.filter(|u: ReadingUnit| is_stale(u, publication_id, listing));
    let v = lemma_fresh_through(before, publication_id, listing, ids, now, u, stale.len() as int);
    assert(stale.take(stale.len() as int) =~= stale);
    assert(after.units.contains(v));
}

/// Where every chapter of the publication is still listed, a sync only adds: exactly the
/// chapters whose keys were not there are reported as new, no page directory is touched,
/// and neither a read mark nor the journal changes.
pub proof fn law_a_complete_listing_only_adds(
    before: DbView,
    publication_id: Uuid,
    listing: Seq<ChapterRef>,
    ids: Seq<Uuid>,
    now: Timestamp,
    after: DbView,
    sync: UnitSync,
    k: int,
)
    requires
        before.wf(),
        sync_outcome(before, publication_id, listing, ids, now, after, Ok(sync)),
        forall|i: int|
            0 <= i < before.units.len() && (#[trigger] before.units[i]).publication_id == publication_id
                ==> exists|j: int| 0 <= j < listing.len() && (#[trigger] listing[j]).key@
                == before.units[i].source_key@,
        first_of_key(listing, k),
    ensures
        sync.file_ops@.len() == 0,
        after.marks == before.marks,
        after.journal == before.journal,
        (exists|n: int| 0 <= n < sync.new_units@.len() && (#[trigger] sync.new_units@[n]).id == ids[k]) <==> (
        forall|i: int|
            0 <= i < before.units.len() && (#[trigger] before.units[i]).publication_id == publication_id
                ==> before.units[i].source_key@ != listing[k].key@),
{
    let p = |u: ReadingUnit| is_stale(u, publication_id, listing);
    let stale = before.units.filter(p);
    assert(stale.len() == 0) by {
        if stale.len() > 0 {
            lemma_filter_contains(before.units, p);
            assert(stale.contains(stale[0]));
            assert(before.units.contains(stale[0]));
            let i = choose|i: int| 0 <= i < before.units.len() && before.units[i] == stale[0];
            let j = choose|j: int|
                0 <= j < listing.len() && (#[trigger] listing[j]).key@ == before.units[i].source_key@;
            lemma_found(listing, before.units[i].source_key@);
            assert(listed(listing, before.units[i].source_key@));
        }
    }
    let s = synced(before, publication_id, listing, ids, now);
    assert(s.merged.len() == 0);
    let fresh = fresh_units(before.units, publication_id, listing, ids, now);
    let q = |u: ReadingUnit| !s.merged.contains(u.id);
    lemma_filter_contains(fresh, q);
    lemma_fresh_units(before.units, publication_id, listing, ids, now);
    if !has_key(before.units, publication_id, listing[k].key@) {
        lemma_entry_made(before.units, publication_id, listing, ids, now, k);
        let u = unit_from(listing[k], ids[k], publication_id, now);
        assert(sync.new_units@.contains(u));
        let n = choose|n: int| 0 <= n < sync.new_units@.len() && sync.new_units@[n] == u;
        assert(sync.new_units@[n].id == ids[k]);
    } else if exists|n: int| 0 <= n < sync.new_units@.len() && (#[trigger] sync.new_units@[n]).id == ids[k] {
        let n = choose|n: int| 0 <= n < sync.new_units@.len() && (#[trigger] sync.new_units@[n]).id == ids[k];
        let u = sync.new_units@[n];
        assert(sync.new_units@.contains(u));
        assert(fresh.contains(u));
        lemma_made_from(before.units, publication_id, listing, ids, now, u, k);
        assert(!has_key(before.units, publication_id, u.source_key@));
    }
}

/// A key that an entry has is found.
proof fn lemma_found(listing: Seq<ChapterRef>, key: Seq<char>)
    ensures
        first_entry(listing, key) is Some <==> exists|j: int|
            0 <= j < listing.len() && (#[trigger] listing[j]).key@ == key,
    decreases listing.len(),
{
    if listing.len() > 0 {
        let d = listing.drop_last();
        lemma_found(d, key);
        if exists|j: int| 0 <= j < listing.len() && (#[trigger] listing[j]).key@ == key {
            let j = choose|j: int| 0 <= j < listing.len() && (#[trigger] listing[j]).key@ == key;
            if j < d.len() {
                assert(d[j].key@ == key);
            }
        }
        if first_entry(d, key) is Some {
            let j = choose|j: int| 0 <= j < d.len() && (#[trigger] d[j]).key@ == key;
            assert(listing[j].key@ == key);
        } else if listing.last().key@ == key {
            assert(listing[listing.len() - 1].key@ == key);
        }
    }
}

/// A new unit with the identifier at hand for an entry was made from that entry.
proof fn lemma_made_from(
    known: Seq<ReadingUnit>,
    publication_id: Uuid,
    listing: Seq<ChapterRef>,
    ids: Seq<Uuid>,
    now: Timestamp,
    u: ReadingUnit,
    k: int,
)
    requires
        listing.len() <= ids.len(),
        forall|i: int, j: int| 0 <= i < j < ids.len() && j < listing.len() ==> #[trigger] ids[i] != #[trigger] ids[j],
        fresh_units(known, publication_id, listing, ids, now).contains(u),
        0 <= k < ids.len(),
        k < listing.len() || forall|i: int| 0 <= i < listing.len() ==> #[trigger] ids[i] != ids[k],
        u.id == ids[k],
    ensures
        k < listing.len(),
        u == unit_from(listing[k], ids[k], publication_id, now),
    decreases listing.len(),
{
    if listing.len() > 0 {
        let d = listing.drop_last();
        let before = fresh_units(known, publication_id, d, ids, now);
        let all = fresh_units(known, publication_id, listing, ids, now);
        let n = choose|n: int| 0 <= n < all.len() && all[n] == u;
        if n < before.len() {
            assert(before[n] == u);
            assert(before.contains(u));
            if k == d.len() {
                assert forall|i: int| 0 <= i < d.len() implies #[trigger] ids[i] != ids[k] by {}
            }
            lemma_made_from(known, publication_id, d, ids, now, u, k);
            assert(d[k] == listing[k]);
        } else {
            assert(u.id == ids[listing.len() - 1]);
        }
    }
}

/// A chapter that fell out of a listing, and of which nothing is kept, is gone after the
/// sync, and so are the marks on it.
pub proof fn law_unlisted_chapters_with_nothing_kept_go(
    before: DbView,
    publication_id: Uuid,
    listing: Seq<ChapterRef>,
    ids: Seq<Uuid>,
    now: Timestamp,
    after: DbView,
    sync: UnitSync,
    u: ReadingUnit,
)
    requires
        before.wf(),
        after.wf(),
        sync_outcome(before, publication_id, listing, ids, now, after, Ok(sync)),
        listing.len() > 0,
        before.units.contains(u),
        u.publication_id == publication_id,
        unlisted(listing, u.source_key@),
        u.download is Absent || u.download is Failed,
    ensures
        forall|i: int| 0 <= i < after.units.len() ==> (#[trigger] after.units[i]).id != u.id,
        forall|i: int| 0 <= i < after.marks.len() ==> (#[trigger] after.marks[i]).unit_id != u.id,
{
    lemma_unlisted(listing, u.source_key@);
    if has_unit(after.units, u.id) {
        law_no_duplicates_left(before, publication_id, listing, ids, now, u);
    }
    assert forall|i: int| 0 <= i < after.marks.len() implies (#[trigger] after.marks[i]).unit_id != u.id by {
        assert(has_unit(after.units, after.marks[i].unit_id));
    }
}

/// A listed row stays listed, and the same chapter, from one settling step to a later one.
proof fn lemma_onward(
    db: DbView,
    publication_id: Uuid,
    listing: Seq<ChapterRef>,
    ids: Seq<Uuid>,
    now: Timestamp,
    w: ReadingUnit,
    n: int,
    m: int,
) -> (v: ReadingUnit)
    requires
        db.wf(),
        sync_allowed(db, publication_id, listing, ids),
        0 <= n <= m <= db.units.filter(|u: ReadingUnit| is_stale(u, publication_id, listing)).len(),
        all_settled(
            before_settling(db, publication_id, listing, ids, now),
            publication_id,
            listing,
            db.units.filter(|u: ReadingUnit| is_stale(u, publication_id, listing)).take(n),
        ).units.contains(w),
        w.publication_id == publication_id,
        listed(listing, w.source_key@),
    ensures
        all_settled(
            before_settling(db, publication_id, listing, ids, now),
            publication_id,
            listing,
            db.units.filter(|u: ReadingUnit| is_stale(u, publication_id, listing)).take(m),
        ).units.contains(v),
        continues(v, w),
        v.number == w.number,
        v.title == w.title,
    decreases m - n,
{
    if n == m {
        w
    } else {
        let stale = db.units.filter(|u: ReadingUnit| is_stale(u, publication_id, listing));
        let start = before_settling(db, publication_id, listing, ids, now);
        let x = lemma_onward(db, publication_id, listing, ids, now, w, n, m - 1);
        lemma_ready(db, publication_id, listing, ids, now, m - 1);
        lemma_ready(db, publication_id, listing, ids, now, m);
        let s = all_settled(start, publication_id, listing, stale.take(m - 1));
        assert(x.id != stale[m - 1].id) by {
            let a = choose|a: int| 0 <= a < s.units.len() && s.units[a] == x;
            let b = choose|b: int| 0 <= b < s.units.len() && s.units[b] == stale[m - 1];
            if x.id == stale[m - 1].id {
                assert(s.units[a].id == s.units[b].id);
                assert(a == b);
            }
        }
        lemma_row_through(s, publication_id, listing, stale[m - 1], x)
    }
}

/// One settling step leaves the reading of every other unit where it is.
proof fn lemma_reading_elsewhere(
    s: SyncState,
    publication_id: Uuid,
    listing: Seq<ChapterRef>,
    x: ReadingUnit,
    user: Uuid,
    unit_id: Uuid,
    i: int,
)
    requires
        settling(s, publication_id, listing, x),
        marks_distinct(s.marks),
        unit_id != x.id,
    ensures
        marked(s.marks, user, unit_id) ==> marked(
            settled(s, publication_id, listing, x).marks,
            user,
            unit_id,
        ),
        settled(s, publication_id, listing, x).journal.len() == s.journal.len(),
        0 <= i < s.journal.len() && s.journal[i].event.unit_id == unit_id ==> settled(
            s,
            publication_id,
            listing,
            x,
        ).journal[i].event.unit_id == unit_id,
        s.ops.len() <= settled(s, publication_id, listing, x).ops.len(),
        settled(s, publication_id, listing, x).ops.take(s.ops.len() as int) == s.ops,
{
    let out = settled(s, publication_id, listing, x);
    if has_only_twin(s.units, x, publication_id, listing) {
        let t = only_twin(s.units, x, publication_id, listing);
        let ti = choose|k: int| is_only_twin(s.units, x, publication_id, listing, k);
        let xi = choose|k: int| 0 <= k < s.units.len() && s.units[k] == x;
        assert(t.id != x.id) by {
            if t.id == x.id {
                assert(s.units[ti].id == s.units[xi].id);
                assert(ti == xi);
            }
        }
        law_reading_follows_the_twin(s, x, t);
        assert(out.ops.take(s.ops.len() as int) =~= s.ops);
        if 0 <= i < s.journal.len() {
            assert(out.journal[i].event.unit_id == (if s.journal[i].event.unit_id == x.id {
                t.id
            } else {
                s.journal[i].event.unit_id
            }));
        }
    } else if nothing_saved(x) {
        assert(out.ops.take(s.ops.len() as int) =~= s.ops);
        if marked(s.marks, user, unit_id) {
            let k = choose|k: int|
                0 <= k < s.marks.len() && (#[trigger] s.marks[k]).user_id == user && s.marks[k].unit_id
                    == unit_id;
            let p = |m: ReadMark| m.unit_id != x.id;
            lemma_filter_contains(s.marks, p);
            assert(s.marks.contains(s.marks[k]));
            assert(out.marks.contains(s.marks[k]));
            let j = choose|j: int| 0 <= j < out.marks.len() && out.marks[j] == s.marks[k];
            assert(out.marks[j].user_id == user);
        }
    } else {
        assert(out.ops.take(s.ops.len() as int) =~= s.ops);
    }
}

/// The reading of a unit stays where it is through settling steps that are not its own.
proof fn lemma_reading_onward(
    db: DbView,
    publication_id: Uuid,
    listing: Seq<ChapterRef>,
    ids: Seq<Uuid>,
    now: Timestamp,
    unit_id: Uuid,
    user: Uuid,
    i: int,
    n: int,
    m: int,
    stale: Seq<ReadingUnit>,
)
    requires
        db.wf(),
        sync_allowed(db, publication_id, listing, ids),
        stale == db.units.filter(|u: ReadingUnit| is_stale(u, publication_id, listing)),
        0 <= n <= m <= stale.len(),
        forall|j: int| n <= j < m ==> (#[trigger] stale[j]).id != unit_id,
    ensures
        ({
            let start = before_settling(db, publication_id, listing, ids, now);
            let a = all_settled(start, publication_id, listing, stale.take(n));
            let b = all_settled(start, publication_id, listing, stale.take(m));
            &&& marked(a.marks, user, unit_id) ==> marked(b.marks, user, unit_id)
            &&& a.journal.len() == db.journal.len()
            &&& b.journal.len() == db.journal.len()
            &&& 0 <= i < db.journal.len() && a.journal[i].event.unit_id == unit_id
                ==> b.journal[i].event.unit_id == unit_id
            &&& a.ops.len() <= b.ops.len()
            &&& b.ops.take(a.ops.len() as int) == a.ops
        }),
    decreases m,
{
    let start = before_settling(db, publication_id, listing, ids, now);
    let a = all_settled(start, publication_id, listing, stale.take(n));
    if m == 0 {
        assert(stale.take(0) =~= Seq::empty());
        assert(a.ops.take(a.ops.len() as int) =~= a.ops);
    } else if n == m {
        lemma_ready(db, publication_id, listing, ids, now, m - 1);
        lemma_ready(db, publication_id, listing, ids, now, m);
        lemma_journal_len(db, publication_id, listing, ids, now, m);
        assert(a.ops.take(a.ops.len() as int) =~= a.ops);
    } else {
        lemma_reading_onward(db, publication_id, listing, ids, now, unit_id, user, i, n, m - 1, stale);
        lemma_ready(db, publication_id, listing, ids, now, m - 1);
        lemma_ready(db, publication_id, listing, ids, now, m);
        let s = all_settled(start, publication_id, listing, stale.take(m - 1));
        lemma_reading_elsewhere(s, publication_id, listing, stale[m - 1], user, unit_id, i);
        let b = all_settled(start, publication_id, listing, stale.take(m));
        assert(b.ops.take(a.ops.len() as int) =~= a.ops) by {
            assert forall|k: int| 0 <= k < a.ops.len() implies b.ops[k] == a.ops[k] by {
                assert(b.ops.take(s.ops.len() as int)[k] == s.ops[k]);
                assert(s.ops.take(a.ops.len() as int)[k] == a.ops[k]);
            }
        }
    }
}

/// Settling keeps the journal as long as it was.
proof fn lemma_journal_len(
    db: DbView,
    publication_id: Uuid,
    listing: Seq<ChapterRef>,
    ids: Seq<Uuid>,
    now: Timestamp,
    n: int,
)
    requires
        0 <= n <= db.units.filter(|u: ReadingUnit| is_stale(u, publication_id, listing)).len(),
    ensures
        all_settled(
            before_settling(db, publication_id, listing, ids, now),
            publication_id,
            listing,
            db.units.filter(|u: ReadingUnit| is_stale(u, publication_id, listing)).take(n),
        ).journal.len() == db.journal.len(),
    decreases n,
{
    let stale = db.units.filter(|u: ReadingUnit| is_stale(u, publication_id, listing));
    if n > 0 {
        lemma_journal_len(db, publication_id, listing, ids, now, n - 1);
        assert(stale.take(n).drop_last() =~= stale.take(n - 1));
    } else {
        assert(stale.take(0) =~= Seq::empty());
    }
}

/// A unit that has one twin after settling had it all along.
proof fn lemma_one_twin_throughout(
    db: DbView,
    publication_id: Uuid,
    listing: Seq<ChapterRef>,
    ids: Seq<Uuid>,
    now: Timestamp,
    u: ReadingUnit,
    n: int,
    m: int,
)
    requires
        db.wf(),
        sync_allowed(db, publication_id, listing, ids),
        0 <= n <= m <= db.units.filter(|u: ReadingUnit| is_stale(u, publication_id, listing)).len(),
        has_only_twin(
            all_settled(
                before_settling(db, publication_id, listing, ids, now),
                publication_id,
                listing,
                db.units.filter(|u: ReadingUnit| is_stale(u, publication_id, listing)).take(m),
            ).units,
            u,
            publication_id,
            listing,
        ),
    ensures
        has_only_twin(
            all_settled(
                before_settling(db, publication_id, listing, ids, now),
                publication_id,
                listing,
                db.units.filter(|u: ReadingUnit| is_stale(u, publication_id, listing)).take(n),
            ).units,
            u,
            publication_id,
            listing,
        ),
    decreases m - n,
{
    if n < m {
        let stale = db.units.filter(|u: ReadingUnit| is_stale(u, publication_id, listing));
        let start = before_settling(db, publication_id, listing, ids, now);
        lemma_ready(db, publication_id, listing, ids, now, m);
        lemma_ready(db, publication_id, listing, ids, now, m - 1);
        let s = all_settled(start, publication_id, listing, stale.take(m - 1));
        lemma_twins_unchanged(s, publication_id, listing, stale[m - 1], u);
        lemma_one_twin_throughout(db, publication_id, listing, ids, now, u, n, m - 1);
    }
}

/// A chapter that was uploaded again under another key is one chapter after the sync. Where
/// exactly one listed unit has the number of a unit that fell out of the listing, or its
/// title where neither has a number, the old unit is gone; whoever had read it has read the
/// new one; every entry of the journal on it is on the new one; pages that were downloaded
/// are the new one's; the old unit's page directory is moved to the new one, or dropped; and
/// the new one is not reported as new.
pub proof fn law_reuploaded_chapters_are_one(
    before: DbView,
    publication_id: Uuid,
    listing: Seq<ChapterRef>,
    ids: Seq<Uuid>,
    now: Timestamp,
    after: DbView,
    sync: UnitSync,
    u: ReadingUnit,
    t: int,
)
    requires
        before.wf(),
        after.wf(),
        sync_outcome(before, publication_id, listing, ids, now, after, Ok(sync)),
        listing.len() > 0,
        before.units.contains(u),
        u.publication_id == publication_id,
        unlisted(listing, u.source_key@),
        0 <= t < after.units.len(),
        alike(after.units[t], u),
        !unlisted(listing, after.units[t].source_key@),
        forall|i: int|
            0 <= i < after.units.len() && i != t && alike(#[trigger] after.units[i], u) ==> unlisted(
                listing,
                after.units[i].source_key@,
            ),
    ensures
        forall|i: int| 0 <= i < after.units.len() ==> (#[trigger] after.units[i]).id != u.id,
        forall|user: Uuid|
            #[trigger] marked(before.marks, user, u.id) ==> marked(after.marks, user, after.units[t].id),
        after.journal.len() == before.journal.len(),
        forall|i: int|
            0 <= i < before.journal.len() && (#[trigger] before.journal[i]).event.unit_id == u.id
                ==> after.journal[i].event.unit_id == after.units[t].id,
        u.download is Downloaded ==> after.units[t].download is Downloaded,
        sync.file_ops@.contains(UnitFileOp::Rename { from: u.id, to: after.units[t].id })
            || sync.file_ops@.contains(UnitFileOp::Remove { unit: u.id }),
        forall|n: int|
            0 <= n < sync.new_units@.len() ==> (#[trigger] sync.new_units@[n]).id != after.units[t].id,
{
    let p = |u: ReadingUnit| is_stale(u, publication_id, listing);
    let stale = before.units.filter(p);
    let len = stale.len() as int;
    let start = before_settling(before, publication_id, listing, ids, now);
    let end = synced(before, publication_id, listing, ids, now);
    assert(stale.take(len) =~= stale);
    lemma_unlisted(listing, u.source_key@);
    lemma_filter_contains(before.units, p);
    assert(stale.contains(u));
    let j = choose|j: int| 0 <= j < len && stale[j] == u;
    let twin = after.units[t];
    lemma_found(listing, twin.source_key@);
    assert(is_twin(twin, u, publication_id, listing));
    assert forall|i: int| 0 <= i < after.units.len() && is_twin(#[trigger] after.units[i], u, publication_id, listing) implies i
        == t by {
        if i != t {
            assert(alike(after.units[i], u));
            lemma_unlisted(listing, after.units[i].source_key@);
        }
    }
    assert(is_only_twin(after.units, u, publication_id, listing, t));
    if has_unit(after.units, u.id) {
        law_no_duplicates_left(before, publication_id, listing, ids, now, u);
    }
    // At its own step the unit is merged: were it not, it would be there, or have no twin.
    lemma_ready(before, publication_id, listing, ids, now, j);
    lemma_ready(before, publication_id, listing, ids, now, j + 1);
    lemma_ready(before, publication_id, listing, ids, now, len);
    let s = all_settled(start, publication_id, listing, stale.take(j));
    let out = all_settled(start, publication_id, listing, stale.take(j + 1));
    lemma_one_twin_throughout(before, publication_id, listing, ids, now, u, j, len);
    assert(has_only_twin(s.units, u, publication_id, listing));
    let w = only_twin(s.units, u, publication_id, listing);
    let wi = choose|k: int| is_only_twin(s.units, u, publication_id, listing, k);
    assert(s.units[wi] == w);
    let ui = choose|k: int| 0 <= k < s.units.len() && s.units[k] == u;
    assert(w.id != u.id) by {
        if w.id == u.id {
            assert(s.units[wi].id == s.units[ui].id);
            assert(wi == ui);
        }
    }
    let w2 = after_hand_over(w, u, w);
    let f = |x: ReadingUnit| after_hand_over(x, u, w);
    let q = |x: ReadingUnit| x.id != u.id;
    assert(s.units.map_values(f)[wi] == w2);
    lemma_filter_contains(s.units.map_values(f), q);
    assert(s.units.map_values(f).contains(w2));
    assert(out.units.contains(w2));
    let v = lemma_onward(before, publication_id, listing, ids, now, w2, j + 1, len);
    let vi = choose|k: int| 0 <= k < after.units.len() && after.units[k] == v;
    assert(is_twin(after.units[vi], u, publication_id, listing));
    assert(vi == t);
    law_reading_follows_the_twin(s, u, w);
    assert forall|k: int| 0 <= k < len && k != j implies (#[trigger] stale[k]).id != u.id by {
        assert(stale[j].id == u.id);
    }
    assert forall|k: int| j < k < len implies (#[trigger] stale[k]).id != w.id by {
        lemma_ready(before, publication_id, listing, ids, now, k);
        let x = lemma_onward(before, publication_id, listing, ids, now, w2, j + 1, k);
        let here = all_settled(start, publication_id, listing, stale.take(k));
        let a = choose|a: int| 0 <= a < here.units.len() && here.units[a] == x;
        let b = choose|b: int| 0 <= b < here.units.len() && here.units[b] == stale[k];
        if stale[k].id == w.id {
            assert(here.units[a].id == here.units[b].id);
            assert(a == b);
        }
    }
    assert(stale.take(0) =~= Seq::empty());
    assert forall|user: Uuid| #[trigger] marked(before.marks, user, u.id) implies marked(
        after.marks,
        user,
        twin.id,
    ) by {
        lemma_reading_onward(before, publication_id, listing, ids, now, u.id, user, -1, 0, j, stale);
        assert(marked(s.marks, user, u.id));
        assert(marked(out.marks, user, w.id));
        lemma_reading_onward(before, publication_id, listing, ids, now, w.id, user, -1, j + 1, len, stale);
    }
    lemma_journal_len(before, publication_id, listing, ids, now, len);
    assert forall|i: int| 0 <= i < before.journal.len() && (#[trigger] before.journal[i]).event.unit_id == u.id implies after.journal[i].event.unit_id
        == twin.id by {
        lemma_reading_onward(before, publication_id, listing, ids, now, u.id, u.id, i, 0, j, stale);
        assert(s.journal[i].event.unit_id == u.id);
        let e = merged_into(s, u, w).journal[i];
        assert(out.journal[i].event.unit_id == w.id);
        lemma_reading_onward(before, publication_id, listing, ids, now, w.id, u.id, i, j + 1, len, stale);
    }
    lemma_reading_onward(before, publication_id, listing, ids, now, w.id, u.id, -1, j + 1, len, stale);
    assert(out.ops.last() == sync.file_ops@[out.ops.len() - 1]) by {
        assert(end.ops.take(out.ops.len() as int)[out.ops.len() - 1] == out.ops[out.ops.len() - 1]);
    }
    assert(out.merged[out.merged.len() - 1] == w.id);
    lemma_merged_onward(start, publication_id, listing, stale, w.id, j + 1, len);
    let fresh = fresh_units(before.units, publication_id, listing, ids, now);
    let unmerged = |x: ReadingUnit| !end.merged.contains(x.id);
    lemma_filter_contains(fresh, unmerged);
    assert forall|n: int| 0 <= n < sync.new_units@.len() implies (#[trigger] sync.new_units@[n]).id != twin.id by {
        assert(sync.new_units@.contains(sync.new_units@[n]));
        assert(unmerged(sync.new_units@[n]));
    }
}

/// What took the place of a stale unit once has done so at every later step.
proof fn lemma_merged_onward(
    start: SyncState,
    publication_id: Uuid,
    listing: Seq<ChapterRef>,
    stale: Seq<ReadingUnit>,
    id: Uuid,
    n: int,
    m: int,
)
    requires
        0 <= n <= m <= stale.len(),
        all_settled(start, publication_id, listing, stale.take(n)).merged.contains(id),
    ensures
        all_settled(start, publication_id, listing, stale.take(m)).merged.contains(id),
    decreases m - n,
{
    if n < m {
        lemma_merged_onward(start, publication_id, listing, stale, id, n, m - 1);
        let s = all_settled(start, publication_id, listing, stale.take(m - 1));
        let b = all_settled(start, publication_id, listing, stale.take(m));
        assert(stale.take(m).drop_last() =~= stale.take(m - 1));
        let k = choose|k: int| 0 <= k < s.merged.len() && s.merged[k] == id;
        assert(b.merged[k] == id);
    }
}

/// Where no stale unit is alike, a new unit takes nobody's place.
proof fn lemma_not_merged(
    db: DbView,
    publication_id: Uuid,
    listing: Seq<ChapterRef>,
    ids: Seq<Uuid>,
    now: Timestamp,
    u: ReadingUnit,
    n: int,
)
    requires
        db.wf(),
        sync_allowed(db, publication_id, listing, ids),
        fresh_units(db.units, publication_id, listing, ids, now).contains(u),
        u.publication_id == publication_id,
        0 <= n <= db.units.filter(|u: ReadingUnit| is_stale(u, publication_id, listing)).len(),
        forall|i: int|
            0 <= i < db.units.len() && is_stale(#[trigger] db.units[i], publication_id, listing) ==> !alike(
                u,
                db.units[i],
            ),
    ensures
        !all_settled(
            before_settling(db, publication_id, listing, ids, now),
            publication_id,
            listing,
            db.units.filter(|u: ReadingUnit| is_stale(u, publication_id, listing)).take(n),
        ).merged.contains(u.id),
    decreases n,
{
    let p = |u: ReadingUnit| is_stale(u, publication_id, listing);
    let stale = db.units.filter(p);
    let start = before_settling(db, publication_id, listing, ids, now);
    if n == 0 {
        assert(stale.take(0) =~= Seq::empty());
    } else {
        lemma_not_merged(db, publication_id, listing, ids, now, u, n - 1);
        lemma_ready(db, publication_id, listing, ids, now, n - 1);
        lemma_ready(db, publication_id, listing, ids, now, n);
        let s = all_settled(start, publication_id, listing, stale.take(n - 1));
        let b = all_settled(start, publication_id, listing, stale.take(n));
        let x = stale[n - 1];
        let v = lemma_fresh_through(db, publication_id, listing, ids, now, u, n - 1);
        let vi = choose|k: int| 0 <= k < s.units.len() && s.units[k] == v;
        lemma_filter_contains(db.units, p);
        assert(stale.contains(x));
        let xi = choose|k: int| 0 <= k < db.units.len() && db.units[k] == x;
        assert(is_stale(db.units[xi], publication_id, listing));
        if has_only_twin(s.units, x, publication_id, listing) {
            let ti = choose|k: int| is_only_twin(s.units, x, publication_id, listing, k);
            let t = s.units[ti];
            assert(t == only_twin(s.units, x, publication_id, listing));
            if t.id == u.id {
                assert(s.units[ti].id == s.units[vi].id);
                assert(ti == vi);
                assert(alike(u, db.units[xi]));
            }
        }
        if b.merged.contains(u.id) {
            let k = choose|k: int| 0 <= k < b.merged.len() && b.merged[k] == u.id;
            if k < s.merged.len() {
                assert(s.merged[k] == u.id);
            }
        }
    }
}

/// A chapter whose key the publication did not have is reported as new, unless a unit that fell
/// out of the listing is recognizably the same: it has its number, or its title where neither
/// has a number.
pub proof fn law_new_chapters_are_reported(
    before: DbView,
    publication_id: Uuid,
    listing: Seq<ChapterRef>,
    ids: Seq<Uuid>,
    now: Timestamp,
    after: DbView,
    sync: UnitSync,
    k: int,
)
    requires
        before.wf(),
        sync_outcome(before, publication_id, listing, ids, now, after, Ok(sync)),
        first_of_key(listing, k),
        forall|i: int|
            0 <= i < before.units.len() && (#[trigger] before.units[i]).publication_id == publication_id
                ==> before.units[i].source_key@ != listing[k].key@,
        forall|i: int|
            0 <= i < before.units.len() && (#[trigger] before.units[i]).publication_id == publication_id
                && unlisted(listing, before.units[i].source_key@) ==> if before.units[i].number is Some {
                listing[k].number != before.units[i].number
            } else {
                listing[k].number is Some || listing[k].title@ != before.units[i].title@
            },
    ensures
        exists|n: int|
            {
                &&& 0 <= n < sync.new_units@.len()
                &&& (#[trigger] sync.new_units@[n]).id == ids[k]
                &&& sync.new_units@[n].title == listing[k].title
                &&& sync.new_units@[n].number == listing[k].number
                &&& sync.new_units@[n].source_key == listing[k].key
            },
{
    let u = unit_from(listing[k], ids[k], publication_id, now);
    assert(!has_key(before.units, publication_id, listing[k].key@));
    lemma_entry_made(before.units, publication_id, listing, ids, now, k);
    let stale = before.units.filter(|u: ReadingUnit| is_stale(u, publication_id, listing));
    let len = stale.len() as int;
    assert(stale.take(len) =~= stale);
    assert forall|i: int|
        0 <= i < before.units.len() && is_stale(#[trigger] before.units[i], publication_id, listing) implies !alike(
        u,
        before.units[i],
    ) by {
        if !unlisted(listing, before.units[i].source_key@) {
            lemma_found(listing, before.units[i].source_key@);
        }
    }
    lemma_not_merged(before, publication_id, listing, ids, now, u, len);
    let end = synced(before, publication_id, listing, ids, now);
    let fresh = fresh_units(before.units, publication_id, listing, ids, now);
    let unmerged = |x: ReadingUnit| !end.merged.contains(x.id);
    lemma_filter_contains(fresh, unmerged);
    assert(unmerged(u));
    assert(sync.new_units@ == fresh.filter(unmerged));
    assert(sync.new_units@.contains(u));
    let n = choose|n: int| 0 <= n < sync.new_units@.len() && sync.new_units@[n] == u;
    assert(sync.new_units@[n].id == ids[k]);
}

/// Where a unit is merged into another, its pages go to the other where it alone has them: the
/// other then has its download and its number of pages, and the directory is moved. Else the
/// rows stay as they are and the directory is dropped. The merged row goes, and no other.
pub proof fn law_pages_go_where_they_are_missing(s: SyncState, stale: ReadingUnit, twin: ReadingUnit, k: int)
    requires
        stale.id != twin.id,
        0 <= k < s.units.len(),
        s.units[k].id != stale.id,
    ensures
        ({
            let out = merged_into(s, stale, twin);
            let goes = stale.download is Downloaded && !(twin.download is Downloaded);
            let x = s.units[k];
            &&& out.ops.len() == s.ops.len() + 1
            &&& goes ==> out.ops[s.ops.len() as int] == (UnitFileOp::Rename { from: stale.id, to: twin.id })
            &&& !goes ==> out.ops[s.ops.len() as int] == (UnitFileOp::Remove { unit: stale.id })
            &&& x.id != twin.id || !goes ==> out.units.contains(x)
            &&& x.id == twin.id && goes ==> out.units.contains(
                ReadingUnit { download: stale.download, page_count: stale.page_count, ..x },
            )
            &&& forall|i: int| 0 <= i < out.units.len() ==> (#[trigger] out.units[i]).id != stale.id
        }),
{
    let f = |u: ReadingUnit| after_hand_over(u, stale, twin);
    let q = |u: ReadingUnit| u.id != stale.id;
    let out = merged_into(s, stale, twin);
    lemma_filter_contains(s.units.map_values(f), q);
    let y = f(s.units[k]);
    assert(s.units.map_values(f)[k] == y);
    assert(s.units.map_values(f).contains(y));
    assert(out.units.contains(y));
    assert forall|i: int| 0 <= i < out.units.len() implies (#[trigger] out.units[i]).id != stale.id by {
        assert(out.units.contains(out.units[i]));
        assert(q(out.units[i]));
    }
}

/// A unit that is dropped goes with its marks and its page directory, and with nothing else.
pub proof fn law_dropped_units_leave_nothing(s: SyncState, stale: ReadingUnit, x: ReadingUnit, m: ReadMark)
    ensures
        ({
            let out = dropped(s, stale);
            &&& out.units.contains(x) <==> s.units.contains(x) && x.id != stale.id
            &&& out.marks.contains(m) <==> s.marks.contains(m) && m.unit_id != stale.id
            &&& out.journal == s.journal
            &&& out.ops == s.ops.push(UnitFileOp::Remove { unit: stale.id })
        }),
{
    lemma_filter_contains(s.units, |u: ReadingUnit| u.id != stale.id);
    lemma_filter_contains(s.marks, |m: ReadMark| m.unit_id != stale.id);
}

/// A row that is not listed stays as it is through settling, as long as its own step leaves
/// it.
proof fn lemma_unlisted_stays(
    db: DbView,
    publication_id: Uuid,
    listing: Seq<ChapterRef>,
    ids: Seq<Uuid>,
    now: Timestamp,
    u: ReadingUnit,
    j: int,
    n: int,
    stale: Seq<ReadingUnit>,
)
    requires
        db.wf(),
        sync_allowed(db, publication_id, listing, ids),
        stale == db.units.filter(|u: ReadingUnit| is_stale(u, publication_id, listing)),
        0 <= j < stale.len(),
        stale[j] == u,
        !nothing_saved(u),
        0 <= n <= stale.len(),
        n > j ==> !has_only_twin(
            all_settled(
                before_settling(db, publication_id, listing, ids, now),
                publication_id,
                listing,
                stale.take(j),
            ).units,
            u,
            publication_id,
            listing,
        ),
    ensures
        all_settled(
            before_settling(db, publication_id, listing, ids, now),
            publication_id,
            listing,
            stale.take(n),
        ).units.contains(u),
    decreases n,
{
    let start = before_settling(db, publication_id, listing, ids, now);
    lemma_ready(db, publication_id, listing, ids, now, n);
    if n == 0 {
        assert(stale.take(0) =~= Seq::empty());
        assert(db.units.contains(stale[j]));
        lemma_row_at_start(db, publication_id, listing, ids, now, u);
        assert(is_stale(stale[j], publication_id, listing));
    } else {
        lemma_unlisted_stays(db, publication_id, listing, ids, now, u, j, n - 1, stale);
        lemma_ready(db, publication_id, listing, ids, now, n - 1);
        let s = all_settled(start, publication_id, listing, stale.take(n - 1));
        assert(is_stale(stale[j], publication_id, listing));
        if n - 1 != j {
            assert(stale[n - 1].id != stale[j].id);
            let v = lemma_row_through(s, publication_id, listing, stale[n - 1], u);
        }
    }
}

/// A chapter that fell out of a listing stays as it is while something of it is kept or on
/// its way, unless a listed one is recognizably the same.
pub proof fn law_kept_chapters_without_a_twin_stay(
    before: DbView,
    publication_id: Uuid,
    listing: Seq<ChapterRef>,
    ids: Seq<Uuid>,
    now: Timestamp,
    after: DbView,
    sync: UnitSync,
    u: ReadingUnit,
)
    requires
        before.wf(),
        sync_outcome(before, publication_id, listing, ids, now, after, Ok(sync)),
        listing.len() > 0,
        before.units.contains(u),
        u.publication_id == publication_id,
        unlisted(listing, u.source_key@),
        !(u.download is Absent) && !(u.download is Failed),
        forall|i: int|
            0 <= i < after.units.len() && alike(#[trigger] after.units[i], u) ==> unlisted(
                listing,
                after.units[i].source_key@,
            ),
    ensures
        after.units.contains(u),
{
    let p = |u: ReadingUnit| is_stale(u, publication_id, listing);
    let stale = before.units.filter(p);
    let len = stale.len() as int;
    let start = before_settling(before, publication_id, listing, ids, now);
    assert(stale.take(len) =~= stale);
    lemma_unlisted(listing, u.source_key@);
    lemma_filter_contains(before.units, p);
    assert(stale.contains(u));
    let j = choose|j: int| 0 <= j < len && stale[j] == u;
    let s = all_settled(start, publication_id, listing, stale.take(j));
    if has_only_twin(s.units, u, publication_id, listing) {
        let k = choose|k: int| is_only_twin(s.units, u, publication_id, listing, k);
        let w = s.units[k];
        assert(s.units.contains(w));
        let v = lemma_onward(before, publication_id, listing, ids, now, w, j, len);
        let i = choose|i: int| 0 <= i < after.units.len() && after.units[i] == v;
        assert(alike(after.units[i], u));
        lemma_unlisted(listing, v.source_key@);
    }
    lemma_unlisted_stays(before, publication_id, listing, ids, now, u, j, len, stale);
}

}
