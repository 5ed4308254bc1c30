//! What the sums over a publication's units say.

use vstd::prelude::*;

use crate::clock::Timestamp;
use crate::db::plain::{has_read, same_unit, sooner};
use crate::db::publications::{latest_seen, rollup_of, unread_for};
use crate::db::{units_distinct, DbView, ReadMark};
use crate::domain::publication::ReadingUnit;
use crate::ids::Uuid;
use crate::tables::{lemma_filter_contains, lemma_filter_len, lemma_filter_push};

verus! {

/// Picking twice is picking by both conditions.
proof fn lemma_filter_twice<T>(s: Seq<T>, p: spec_fn(T) -> bool, q: spec_fn(T) -> bool)
    ensures
        s.filter(p).filter(q) == s.filter(|x: T| p(x) && q(x)),
    decreases s.len(),
{
    reveal(Seq::filter);
    if s.len() > 0 {
        let init = s.drop_last();
        lemma_filter_twice(init, p, q);
        assert(s =~= init.push(s.last()));
        lemma_filter_push(init, s.last(), p);
        lemma_filter_push(init.filter(p), s.last(), q);
        lemma_filter_push(init, s.last(), |x: T| p(x) && q(x));
    }
}

/// How many items a condition picks after one item was replaced.
proof fn lemma_filter_update<T>(s: Seq<T>, k: int, x: T, p: spec_fn(T) -> bool)
    requires
        0 <= k < s.len(),
    ensures
        s.update(k, x).filter(p).len() == s.filter(p).len() + (if p(x) {
            1int
        } else {
            0
        }) - (if p(s[k]) {
            1int
        } else {
            0
        }),
    decreases s.len(),
{
    let t = s.update(k, x);
    let init = s.drop_last();
    assert(s =~= init.push(s.last()));
    lemma_filter_push(init, s.last(), p);
    if k == s.len() - 1 {
        assert(t =~= init.push(x));
        lemma_filter_push(init, x, p);
    } else {
        lemma_filter_update(init, k, x, p);
        assert(t =~= init.update(k, x).push(s.last()));
        lemma_filter_push(init.update(k, x), s.last(), p);
    }
}

/// Conditions that agree on all items pick the same.
proof fn lemma_filter_alike<T>(s: Seq<T>, p: spec_fn(T) -> bool, q: spec_fn(T) -> bool)
    requires
        forall|i: int| 0 <= i < s.len() ==> p(#[trigger] s[i]) == q(s[i]),
    ensures
        s.filter(p) == s.filter(q),
    decreases s.len(),
{
    reveal(Seq::filter);
    if s.len() > 0 {
        assert forall|i: int| 0 <= i < s.drop_last().len() implies p(#[trigger] s.drop_last()[i]) == q(
            s.drop_last()[i],
        ) by {
            assert(s.drop_last()[i] == s[i]);
        }
        lemma_filter_alike(s.drop_last(), p, q);
    }
}

/// The sums as counts over all units.
proof fn lemma_sums(db: DbView, reader: Option<Uuid>, publication_id: Uuid)
    requires
        db.units.len() < 0x1_0000_0000,
    ensures
        ({
            let r = rollup_of(db, reader, publication_id);
            &&& r.unit_count == db.units.filter(
                |u: ReadingUnit| u.publication_id == publication_id,
            ).len()
            &&& r.downloaded_count == db.units.filter(
                |u: ReadingUnit| u.publication_id == publication_id && u.download is Downloaded,
            ).len()
            &&& r.unread_count == db.units.filter(
                |u: ReadingUnit|
                    u.publication_id == publication_id && unread_for(db.marks, reader, u),
            ).len()
        }),
{
    let p = |u: ReadingUnit| u.publication_id == publication_id;
    let d = |u: ReadingUnit| u.download is Downloaded;
    let n = |u: ReadingUnit| unread_for(db.marks, reader, u);
    lemma_filter_len(db.units, p);
    lemma_filter_len(db.units.filter(p), d);
    lemma_filter_len(db.units.filter(p), n);
    lemma_filter_twice(db.units, p, d);
    lemma_filter_twice(db.units, p, n);
    lemma_filter_alike(
        db.units,
        |u: ReadingUnit| p(u) && d(u),
        |u: ReadingUnit| u.publication_id == publication_id && u.download is Downloaded,
    );
    lemma_filter_alike(
        db.units,
        |u: ReadingUnit| p(u) && n(u),
        |u: ReadingUnit| u.publication_id == publication_id && unread_for(db.marks, reader, u),
    );
}

/// A condition that picks no fewer items than a wider one picks them all, and one that picks
/// none holds of none.
proof fn lemma_filter_narrower<T>(s: Seq<T>, p: spec_fn(T) -> bool, q: spec_fn(T) -> bool)
    requires
        forall|i: int| 0 <= i < s.len() && q(#[trigger] s[i]) ==> p(s[i]),
    ensures
        s.filter(q).len() <= s.filter(p).len(),
        s.filter(q).len() == s.filter(p).len() <==> forall|i: int|
            0 <= i < s.len() && p(#[trigger] s[i]) ==> q(s[i]),
        s.filter(q).len() == 0 <==> forall|i: int| 0 <= i < s.len() ==> !q(#[trigger] s[i]),
    decreases s.len(),
{
    reveal(Seq::filter);
    if s.len() > 0 {
        let init = s.drop_last();
        assert forall|i: int| 0 <= i < init.len() && q(#[trigger] init[i]) implies p(init[i]) by {
            assert(init[i] == s[i]);
        }
        lemma_filter_narrower(init, p, q);
        assert(forall|i: int| 0 <= i < init.len() ==> #[trigger] init[i] == s[i]);
        assert(forall|i: int| 0 <= i < init.len() ==> init[i] == #[trigger] s[i]);
        assert(s.last() == s[s.len() - 1]);
        let narrow_everywhere = forall|i: int| 0 <= i < s.len() && p(#[trigger] s[i]) ==> q(s[i]);
        let narrow_before = forall|i: int| 0 <= i < init.len() && p(#[trigger] init[i]) ==> q(init[i]);
        assert(narrow_everywhere <==> narrow_before && (p(s.last()) ==> q(s.last()))) by {
            if narrow_before && (p(s.last()) ==> q(s.last())) {
                assert forall|i: int| 0 <= i < s.len() && p(#[trigger] s[i]) implies q(s[i]) by {
                    if i < init.len() {
                        assert(init[i] == s[i]);
                    }
                }
            }
        }
        let none_everywhere = forall|i: int| 0 <= i < s.len() ==> !q(#[trigger] s[i]);
        let none_before = forall|i: int| 0 <= i < init.len() ==> !q(#[trigger] init[i]);
        assert(none_everywhere <==> none_before && !q(s.last())) by {
            if none_before && !q(s.last()) {
                assert forall|i: int| 0 <= i < s.len() implies !q(#[trigger] s[i]) by {
                    if i < init.len() {
                        assert(init[i] == s[i]);
                    }
                }
            }
        }
    }
}

/// A publication has as many downloaded units as units exactly where all of them are
/// downloaded, none exactly where none of them is, and never more than it has units.
pub proof fn law_downloads_are_counted(db: DbView, reader: Option<Uuid>, publication_id: Uuid)
    requires
        db.units.len() < 0x1_0000_0000,
    ensures
        ({
            let r = rollup_of(db, reader, publication_id);
            &&& r.downloaded_count <= r.unit_count
            &&& r.downloaded_count == 0 <==> forall|i: int|
                0 <= i < db.units.len() && (#[trigger] db.units[i]).publication_id == publication_id
                    ==> !(db.units[i].download is Downloaded)
            &&& r.downloaded_count == r.unit_count <==> forall|i: int|
                0 <= i < db.units.len() && (#[trigger] db.units[i]).publication_id == publication_id
                    ==> db.units[i].download is Downloaded
        }),
{
    lemma_sums(db, reader, publication_id);
    let p = |u: ReadingUnit| u.publication_id == publication_id;
    let q = |u: ReadingUnit| u.publication_id == publication_id && u.download is Downloaded;
    lemma_filter_narrower(db.units, p, q);
    let s = db.units;
    if forall|i: int| 0 <= i < s.len() ==> !q(#[trigger] s[i]) {
        assert forall|i: int|
            0 <= i < s.len() && (#[trigger] s[i]).publication_id == publication_id implies !(
        s[i].download is Downloaded) by {
            assert(!q(s[i]));
        }
    }
    if forall|i: int| 0 <= i < s.len() && p(#[trigger] s[i]) ==> q(s[i]) {
        assert forall|i: int|
            0 <= i < s.len() && (#[trigger] s[i]).publication_id == publication_id implies
        s[i].download is Downloaded by {
            assert(p(s[i]));
        }
    }
}

/// One more of a publication's units downloaded raises the number of its downloads by one,
/// and changes no other sum.
pub proof fn law_one_more_download(
    db: DbView,
    reader: Option<Uuid>,
    publication_id: Uuid,
    k: int,
    u: ReadingUnit,
)
    requires
        db.units.len() < 0x1_0000_0000,
        0 <= k < db.units.len(),
        db.units[k].publication_id == publication_id,
        !(db.units[k].download is Downloaded),
        same_unit(db.units[k], u),
        u.download is Downloaded,
    ensures
        ({
            let before = rollup_of(db, reader, publication_id);
            let after = rollup_of(
                DbView { units: db.units.update(k, u), ..db },
                reader,
                publication_id,
            );
            &&& after.downloaded_count == before.downloaded_count + 1
            &&& after.unit_count == before.unit_count
            &&& after.unread_count == before.unread_count
        }),
{
    let next = DbView { units: db.units.update(k, u), ..db };
    lemma_sums(db, reader, publication_id);
    lemma_sums(next, reader, publication_id);
    lemma_filter_update(db.units, k, u, |u: ReadingUnit| u.publication_id == publication_id);
    lemma_filter_update(
        db.units,
        k,
        u,
        |u: ReadingUnit| u.publication_id == publication_id && u.download is Downloaded,
    );
    lemma_filter_update(
        db.units,
        k,
        u,
        |u: ReadingUnit| u.publication_id == publication_id && unread_for(db.marks, reader, u),
    );
}

/// One more unit of a publication is one more in its sums: among the downloads where it is
/// downloaded, and among the unread where the reader has not read it. A unit of another
/// publication changes none of them.
pub proof fn law_one_more_unit(
    db: DbView,
    reader: Option<Uuid>,
    publication_id: Uuid,
    u: ReadingUnit,
)
    requires
        db.units.len() + 1 < 0x1_0000_0000,
    ensures
        ({
            let before = rollup_of(db, reader, publication_id);
            let after = rollup_of(DbView { units: db.units.push(u), ..db }, reader, publication_id);
            if u.publication_id == publication_id {
                &&& after.unit_count == before.unit_count + 1
                &&& after.downloaded_count == before.downloaded_count + if u.download is Downloaded {
                    1int
                } else {
                    0
                }
                &&& after.unread_count == before.unread_count + if reader is Some && has_read(
                    db.marks,
                    reader->0,
                    u.id,
                ) {
                    0int
                } else {
                    1
                }
            } else {
                after == before
            }
        }),
        db.units.len() == 0 ==> rollup_of(db, reader, publication_id).unit_count == 0,
{
    let next = DbView { units: db.units.push(u), ..db };
    lemma_sums(db, reader, publication_id);
    lemma_sums(next, reader, publication_id);
    let p = |u: ReadingUnit| u.publication_id == publication_id;
    lemma_filter_len(db.units, p);
    lemma_filter_push(db.units, u, p);
    lemma_filter_push(
        db.units,
        u,
        |u: ReadingUnit| u.publication_id == publication_id && u.download is Downloaded,
    );
    lemma_filter_push(
        db.units,
        u,
        |u: ReadingUnit| u.publication_id == publication_id && unread_for(db.marks, reader, u),
    );
}

/// All units are unread for nobody in particular. For a reader, none is exactly where the
/// reader has read all of them, and all are exactly where the reader has read none.
pub proof fn law_unread_units_are_counted(db: DbView, reader: Uuid, publication_id: Uuid)
    requires
        db.units.len() < 0x1_0000_0000,
    ensures
        ({
            let nobody = rollup_of(db, None, publication_id);
            let r = rollup_of(db, Some(reader), publication_id);
            &&& nobody.unread_count == nobody.unit_count
            &&& nobody.unit_count == r.unit_count
            &&& nobody.downloaded_count == r.downloaded_count
            &&& r.unread_count == 0 <==> forall|i: int|
                0 <= i < db.units.len() && (#[trigger] db.units[i]).publication_id == publication_id
                    ==> has_read(db.marks, reader, db.units[i].id)
            &&& r.unread_count == r.unit_count <==> forall|i: int|
                0 <= i < db.units.len() && (#[trigger] db.units[i]).publication_id == publication_id
                    ==> !has_read(db.marks, reader, db.units[i].id)
        }),
{
    let s = db.units;
    lemma_sums(db, None, publication_id);
    lemma_sums(db, Some(reader), publication_id);
    let p = |u: ReadingUnit| u.publication_id == publication_id;
    let n = |u: ReadingUnit|
        u.publication_id == publication_id && unread_for(db.marks, None, u);
    let q = |u: ReadingUnit|
        u.publication_id == publication_id && unread_for(db.marks, Some(reader), u);
    lemma_filter_alike(s, p, n);
    lemma_filter_narrower(s, p, q);
    assert forall|i: int| 0 <= i < s.len() implies q(#[trigger] s[i]) == (s[i].publication_id
        == publication_id && !has_read(db.marks, reader, s[i].id)) by {}
    if forall|i: int| 0 <= i < s.len() ==> !q(#[trigger] s[i]) {
        assert forall|i: int|
            0 <= i < s.len() && (#[trigger] s[i]).publication_id == publication_id implies has_read(
            db.marks,
            reader,
            s[i].id,
        ) by {
            assert(!q(s[i]));
        }
    }
    if forall|i: int| 0 <= i < s.len() && p(#[trigger] s[i]) ==> q(s[i]) {
        assert forall|i: int|
            0 <= i < s.len() && (#[trigger] s[i]).publication_id == publication_id implies !has_read(
            db.marks,
            reader,
            s[i].id,
        ) by {
            assert(p(s[i]));
        }
    }
}

/// Reading one more of a publication's units lowers the number of its unread units by one,
/// and changes no other sum.
pub proof fn law_one_more_read(
    db: DbView,
    reader: Uuid,
    publication_id: Uuid,
    k: int,
    at: Timestamp,
)
    requires
        db.wf(),
        db.units.len() < 0x1_0000_0000,
        0 <= k < db.units.len(),
        db.units[k].publication_id == publication_id,
        !has_read(db.marks, reader, db.units[k].id),
    ensures
        ({
            let before = rollup_of(db, Some(reader), publication_id);
            let mark = ReadMark { user_id: reader, unit_id: db.units[k].id, at };
            let after = rollup_of(
                DbView { marks: db.marks.push(mark), ..db },
                Some(reader),
                publication_id,
            );
            &&& after.unread_count == before.unread_count - 1
            &&& after.unit_count == before.unit_count
            &&& after.downloaded_count == before.downloaded_count
            &&& after.latest_unit_at == before.latest_unit_at
        }),
{
    let s = db.units;
    let mark = ReadMark { user_id: reader, unit_id: s[k].id, at };
    let next = DbView { marks: db.marks.push(mark), ..db };
    lemma_sums(db, Some(reader), publication_id);
    lemma_sums(next, Some(reader), publication_id);
    let q = |u: ReadingUnit|
        u.publication_id == publication_id && unread_for(db.marks, Some(reader), u);
    let r = |u: ReadingUnit|
        u.publication_id == publication_id && unread_for(next.marks, Some(reader), u);
    // With the unit moved to another publication both counts agree.
    let away = ReadingUnit { publication_id: if publication_id == 0 { 1 } else { 0 }, ..s[k] };
    let t = s.update(k, away);
    lemma_filter_update(s, k, away, q);
    lemma_filter_update(s, k, away, r);
    assert(has_read(next.marks, reader, s[k].id)) by {
        assert(next.marks[db.marks.len() as int] == mark);
    }
    assert forall|i: int| 0 <= i < t.len() implies q(#[trigger] t[i]) == r(t[i]) by {
        if i != k {
            assert(t[i] == s[i]);
            assert(s[i].id != s[k].id) by {
                assert(units_distinct(s));
                if i < k {
                    assert(s[i].id != s[k].id);
                } else {
                    assert(s[k].id != s[i].id);
                }
            }
            assert(has_read(next.marks, reader, s[i].id) <==> has_read(db.marks, reader, s[i].id)) by {
                if has_read(db.marks, reader, s[i].id) {
                    let m = choose|m: int|
                        0 <= m < db.marks.len() && (#[trigger] db.marks[m]).user_id == reader
                            && db.marks[m].unit_id == s[i].id;
                    assert(next.marks[m] == db.marks[m]);
                }
                if has_read(next.marks, reader, s[i].id) {
                    let m = choose|m: int|
                        0 <= m < next.marks.len() && (#[trigger] next.marks[m]).user_id == reader
                            && next.marks[m].unit_id == s[i].id;
                    assert(db.marks[m] == next.marks[m]);
                }
            }
        }
    }
    lemma_filter_alike(t, q, r);
}

/// The latest time of a publication is that at which one of its units was first seen, and
/// none of them was first seen after it. There is one exactly where the publication has a
/// unit.
pub proof fn law_the_latest_unit_is_the_latest(db: DbView, reader: Option<Uuid>, publication_id: Uuid, k: int)
    requires
        0 <= k < db.units.len(),
        db.units[k].publication_id == publication_id,
    ensures
        ({
            let r = rollup_of(db, reader, publication_id).latest_unit_at;
            &&& r is Some
            &&& !sooner(r->0, db.units[k].fetched_at)
            &&& exists|i: int|
                0 <= i < db.units.len() && (#[trigger] db.units[i]).publication_id == publication_id
                    && db.units[i].fetched_at == r->0
        }),
{
    let p = |u: ReadingUnit| u.publication_id == publication_id;
    let own = db.units.filter(p);
    lemma_filter_contains(db.units, p);
    assert(db.units.contains(db.units[k]));
    assert(own.contains(db.units[k]));
    let j = choose|j: int| 0 <= j < own.len() && own[j] == db.units[k];
    lemma_latest(own, j);
    let m = choose|m: int| 0 <= m < own.len() && (#[trigger] own[m]).fetched_at == latest_seen(own)->0;
    assert(own.contains(own[m]));
    let i = choose|i: int| 0 <= i < db.units.len() && db.units[i] == own[m];
    assert(p(own[m]));
    assert(db.units[i].publication_id == publication_id);
}

/// The latest time is one of the times, and none is later.
proof fn lemma_latest(own: Seq<ReadingUnit>, j: int)
    requires
        0 <= j < own.len(),
    ensures
        latest_seen(own) is Some,
        !sooner(latest_seen(own)->0, own[j].fetched_at),
        exists|m: int| 0 <= m < own.len() && (#[trigger] own[m]).fetched_at == latest_seen(own)->0,
    decreases own.len(),
{
    let init = own.drop_last();
    assert(own[own.len() - 1] == own.last());
    if init.len() > 0 {
        lemma_latest(init, if j < init.len() { j } else { 0 });
        let m = choose|m: int| 0 <= m < init.len() && (#[trigger] init[m]).fetched_at == latest_seen(init)->0;
        assert(own[m] == init[m]);
        if j < init.len() {
            assert(own[j] == init[j]);
        }
    } else {
        assert(latest_seen(init) is None);
    }
}

/// A publication without units has no latest time, and nothing to count.
pub proof fn law_nothing_to_sum(db: DbView, reader: Option<Uuid>, publication_id: Uuid)
    requires
        forall|i: int| 0 <= i < db.units.len() ==> (#[trigger] db.units[i]).publication_id != publication_id,
    ensures
        ({
            let r = rollup_of(db, reader, publication_id);
            r.unit_count == 0 && r.downloaded_count == 0 && r.unread_count == 0 && r.latest_unit_at is None
        }),
{
    let p = |u: ReadingUnit| u.publication_id == publication_id;
    let own = db.units.filter(p);
    lemma_filter_contains(db.units, p);
    if own.len() > 0 {
        assert(own.contains(own[0]));
        assert(db.units.contains(own[0]));
    }
    lemma_filter_len(own, |u: ReadingUnit| u.download is Downloaded);
    lemma_filter_len(own, |u: ReadingUnit| unread_for(db.marks, reader, u));
}

}
