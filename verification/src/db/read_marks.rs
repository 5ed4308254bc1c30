//! Read marks: which reader has read which unit.

use vstd::prelude::*;

use crate::clock::{utc_now, Timestamp};
use crate::db::plain::has_read;
use crate::db::units::marked;
use crate::db::{has_unit, marks_distinct, marks_placed, Db, DbError, DbView, ReadMark};
use crate::domain::publication::ReadingUnit;
use crate::ids::{hyphenated_text, uuid_text, Uuid};
use crate::tables::{
    any, count32, includes, kept_places, lemma_filter_contains, lemma_filter_len, lemma_filter_none, lemma_filter_take, lemma_kept_places,
    retain, to_count,
};
use crate::text::join2;

verus! {

/// The first of the identifiers that is of no unit.
pub open spec fn first_unknown(units: Seq<ReadingUnit>, ids: Seq<Uuid>) -> Option<Uuid>
    decreases ids.len(),
{
    if ids.len() == 0 {
        None
    } else {
        match first_unknown(units, ids.drop_last()) {
            Some(id) => Some(id),
            None => if has_unit(units, ids.last()) {
                None
            } else {
                Some(ids.last())
            },
        }
    }
}

/// The marks with each of the units marked for the reader; a mark that is there
/// stays as it is.
pub open spec fn with_marks(
    marks: Seq<ReadMark>,
    user_id: Uuid,
    ids: Seq<Uuid>,
    now: Timestamp,
) -> Seq<ReadMark>
    decreases ids.len(),
{
    if ids.len() == 0 {
        marks
    } else {
        let before = with_marks(marks, user_id, ids.drop_last(), now);
        if marked(before, user_id, ids.last()) {
            before
        } else {
            before.push(ReadMark { user_id, unit_id: ids.last(), at: now })
        }
    }
}

/// The marks without the reader's on the units.
pub open spec fn without_marks(marks: Seq<ReadMark>, user_id: Uuid, ids: Seq<Uuid>) -> Seq<ReadMark> {
    marks.filter(|m: ReadMark| !(m.user_id == user_id && ids.contains(m.unit_id)))
}

/// The unit is one of the publication's.
pub open spec fn unit_of(units: Seq<ReadingUnit>, unit_id: Uuid, publication_id: Uuid) -> bool {
    exists|i: int|
        0 <= i < units.len() && (#[trigger] units[i]).id == unit_id && units[i].publication_id
            == publication_id
}

/// The units that marks are on.
pub open spec fn marked_units(marks: Seq<ReadMark>) -> Seq<Uuid> {
    marks.map_values(|m: ReadMark| m.unit_id)
}

/// Marking keeps marks distinct and on units; afterwards each named unit is marked
/// for the reader, and no other mark has come or gone.
pub proof fn lemma_with_marks(
    marks: Seq<ReadMark>,
    units: Seq<ReadingUnit>,
    user_id: Uuid,
    ids: Seq<Uuid>,
    now: Timestamp,
)
    requires
        marks_distinct(marks),
        marks_placed(marks, units),
        forall|i: int| 0 <= i < ids.len() ==> has_unit(units, #[trigger] ids[i]),
    ensures
        marks_distinct(with_marks(marks, user_id, ids, now)),
        marks_placed(with_marks(marks, user_id, ids, now), units),
        with_marks(marks, user_id, ids, now).len() >= marks.len(),
        with_marks(marks, user_id, ids, now).len() <= marks.len() + ids.len(),
        forall|u: Uuid, x: Uuid|
            #[trigger] marked(with_marks(marks, user_id, ids, now), u, x) <==> marked(marks, u, x) || (u
                == user_id && ids.contains(x)),
    decreases ids.len(),
{
    if ids.len() > 0 {
        let init = ids.drop_last();
        assert forall|i: int| 0 <= i < init.len() implies has_unit(units, #[trigger] init[i]) by {
            assert(init[i] == ids[i]);
        }
        lemma_with_marks(marks, units, user_id, init, now);
        let before = with_marks(marks, user_id, init, now);
        let out = with_marks(marks, user_id, ids, now);
        let x0 = ids.last();
        assert(has_unit(units, ids[ids.len() - 1]));
        assert(ids =~= init.push(x0));
        assert forall|u: Uuid, x: Uuid| #[trigger] marked(out, u, x) <==> marked(marks, u, x) || (u
            == user_id && ids.contains(x)) by {
            assert(ids.contains(x) <==> init.contains(x) || x == x0) by {
                if init.contains(x) {
                    let k = choose|k: int| 0 <= k < init.len() && init[k] == x;
                    assert(ids[k] == x);
                }
                if x == x0 {
                    assert(ids[ids.len() - 1] == x);
                }
            }
            if marked(out, u, x) {
                let k = choose|k: int|
                    0 <= k < out.len() && (#[trigger] out[k]).user_id == u && out[k].unit_id == x;
                if k < before.len() {
                    assert(before[k].user_id == u);
                    assert(marked(before, u, x));
                }
            }
            if marked(before, u, x) {
                let k = choose|k: int|
                    0 <= k < before.len() && (#[trigger] before[k]).user_id == u && before[k].unit_id
                        == x;
                assert(out[k].user_id == u);
            }
            if u == user_id && x == x0 && !marked(before, user_id, x0) {
                assert(out[out.len() - 1].user_id == u);
            }
        }
        if !marked(before, user_id, x0) {
            assert forall|i: int, j: int|
                0 <= i < out.len() && 0 <= j < out.len() && (#[trigger] out[i]).user_id == (
                #[trigger] out[j]).user_id && out[i].unit_id == out[j].unit_id implies i == j by {
                if i < before.len() && j < before.len() {
                    assert(before[i].user_id == before[j].user_id);
                } else if i < before.len() {
                    assert(before[i].user_id == user_id);
                } else if j < before.len() {
                    assert(before[j].user_id == user_id);
                }
            }
            assert forall|i: int| 0 <= i < out.len() implies has_unit(
                units,
                (#[trigger] out[i]).unit_id,
            ) by {
                if i < before.len() {
                    assert(out[i] == before[i]);
                }
            }
        }
    } else {
        assert(forall|x: Uuid| !ids.contains(x));
    }
}

/// Taking marks away keeps the rest distinct and on units.
pub proof fn lemma_without_marks(
    marks: Seq<ReadMark>,
    units: Seq<ReadingUnit>,
    p: spec_fn(ReadMark) -> bool,
)
    requires
        marks_distinct(marks),
        marks_placed(marks, units),
    ensures
        marks_distinct(marks.filter(p)),
        marks_placed(marks.filter(p), units),
{
    lemma_kept_places(marks, p);
    let at = kept_places(marks, p);
    let out = marks.filter(p);
    assert forall|i: int, j: int|
        0 <= i < out.len() && 0 <= j < out.len() && (#[trigger] out[i]).user_id == (
        #[trigger] out[j]).user_id && out[i].unit_id == out[j].unit_id implies i == j by {
        assert(marks[at[i]] == out[i] && marks[at[j]] == out[j]);
        assert(at[i] == at[j]);
        assert(at[i] < at[j] || at[j] < at[i] || i == j);
    }
    assert forall|i: int| 0 <= i < out.len() implies has_unit(units, (#[trigger] out[i]).unit_id) by {
        assert(marks[at[i]] == out[i]);
    }
}

/// Marking again what is marked changes nothing.
pub proof fn law_marking_settles(
    marks: Seq<ReadMark>,
    user_id: Uuid,
    ids: Seq<Uuid>,
    now: Timestamp,
)
    requires
        forall|i: int| 0 <= i < ids.len() ==> marked(marks, user_id, #[trigger] ids[i]),
    ensures
        with_marks(marks, user_id, ids, now) == marks,
    decreases ids.len(),
{
    if ids.len() > 0 {
        let init = ids.drop_last();
        assert forall|i: int| 0 <= i < init.len() implies marked(marks, user_id, #[trigger] init[i]) by {
            assert(init[i] == ids[i]);
        }
        law_marking_settles(marks, user_id, init, now);
        assert(marked(marks, user_id, ids[ids.len() - 1]));
    }
}

/// One reader's marks are no business of another: marking and unmarking for one
/// leaves what the other has read as it is.
pub proof fn law_readers_are_apart(
    db: DbView,
    user_id: Uuid,
    other: Uuid,
    ids: Seq<Uuid>,
    now: Timestamp,
    unit_id: Uuid,
)
    requires
        db.wf(),
        user_id != other,
        first_unknown(db.units, ids) is None,
    ensures
        marked(with_marks(db.marks, user_id, ids, now), other, unit_id) <==> marked(
            db.marks,
            other,
            unit_id,
        ),
        marked(without_marks(db.marks, user_id, ids), other, unit_id) <==> marked(
            db.marks,
            other,
            unit_id,
        ),
{
    lemma_first_unknown(db.units, ids);
    lemma_with_marks(db.marks, db.units, user_id, ids, now);
    law_unmarking_unmarks(db.marks, user_id, ids, other, unit_id);
}

/// After unmarking, exactly the named units are no longer marked for the reader.
pub proof fn law_unmarking_unmarks(
    marks: Seq<ReadMark>,
    user_id: Uuid,
    ids: Seq<Uuid>,
    who: Uuid,
    unit_id: Uuid,
)
    ensures
        marked(without_marks(marks, user_id, ids), who, unit_id) <==> marked(marks, who, unit_id) && !(who
            == user_id && ids.contains(unit_id)),
{
    let p = |m: ReadMark| !(m.user_id == user_id && ids.contains(m.unit_id));
    let out = without_marks(marks, user_id, ids);
    lemma_filter_contains(marks, p);
    if marked(out, who, unit_id) {
        let k = choose|k: int|
            0 <= k < out.len() && (#[trigger] out[k]).user_id == who && out[k].unit_id == unit_id;
        assert(out.contains(out[k]));
        let m = choose|m: int| 0 <= m < marks.len() && marks[m] == out[k];
        assert(marks[m].user_id == who);
    }
    if marked(marks, who, unit_id) && !(who == user_id && ids.contains(unit_id)) {
        let k = choose|k: int|
            0 <= k < marks.len() && (#[trigger] marks[k]).user_id == who && marks[k].unit_id == unit_id;
        assert(marks.contains(marks[k]));
        assert(out.contains(marks[k]));
        let m = choose|m: int| 0 <= m < out.len() && out[m] == marks[k];
        assert(out[m].user_id == who);
    }
}

/// Where no identifier is unknown, all are known.
pub proof fn lemma_first_unknown(units: Seq<ReadingUnit>, ids: Seq<Uuid>)
    ensures
        first_unknown(units, ids) is None <==> forall|i: int|
            0 <= i < ids.len() ==> has_unit(units, #[trigger] ids[i]),
        first_unknown(units, ids) matches Some(id) ==> exists|i: int|
            0 <= i < ids.len() && ids[i] == id && !has_unit(units, id) && forall|j: int|
                0 <= j < i ==> has_unit(units, #[trigger] ids[j]),
    decreases ids.len(),
{
    if ids.len() > 0 {
        let init = ids.drop_last();
        lemma_first_unknown(units, init);
        assert(forall|i: int| 0 <= i < init.len() ==> init[i] == ids[i]);
        if first_unknown(units, init) is None {
            if !has_unit(units, ids.last()) {
                let i = ids.len() - 1;
                assert(ids[i] == ids.last());
                assert forall|j: int| 0 <= j < i implies has_unit(units, #[trigger] ids[j]) by {
                    assert(has_unit(units, init[j]));
                }
            } else {
                assert forall|i: int| 0 <= i < ids.len() implies has_unit(units, #[trigger] ids[i]) by {
                    if i < init.len() {
                        assert(has_unit(units, init[i]));
                    }
                }
            }
        } else {
            let id = first_unknown(units, init)->0;
            let i = choose|i: int|
                0 <= i < init.len() && init[i] == id && !has_unit(units, id) && forall|j: int|
                    0 <= j < i ==> has_unit(units, #[trigger] init[j]);
            assert(ids[i] == id);
            assert forall|j: int| 0 <= j < i implies has_unit(units, #[trigger] ids[j]) by {
                assert(has_unit(units, init[j]));
            }
        }
    }
}

/// The units of the marks that a condition picks.
proof fn lemma_read_of(marks: Seq<ReadMark>, p: spec_fn(ReadMark) -> bool)
    ensures
        forall|id: Uuid|
            #[trigger] marked_units(marks.filter(p)).contains(id) <==> exists|k: int|
                0 <= k < marks.len() && p(#[trigger] marks[k]) && marks[k].unit_id == id,
{
    let kept = marks.filter(p);
    let out = marked_units(kept);
    lemma_filter_contains(marks, p);
    assert forall|id: Uuid| #[trigger] out.contains(id) <==> exists|k: int|
        0 <= k < marks.len() && p(#[trigger] marks[k]) && marks[k].unit_id == id by {
        if out.contains(id) {
            let n = choose|n: int| 0 <= n < out.len() && out[n] == id;
            assert(kept.contains(kept[n]));
            assert(marks.contains(kept[n]));
            let k = choose|k: int| 0 <= k < marks.len() && marks[k] == kept[n];
            assert(p(marks[k]));
        }
        if exists|k: int| 0 <= k < marks.len() && p(#[trigger] marks[k]) && marks[k].unit_id == id {
            let k = choose|k: int| 0 <= k < marks.len() && p(#[trigger] marks[k]) && marks[k].unit_id == id;
            assert(marks.contains(marks[k]));
            assert(kept.contains(marks[k]));
            let n = choose|n: int| 0 <= n < kept.len() && kept[n] == marks[k];
            assert(out[n] == id);
        }
    }
}

/// The marks that meet a condition, by their units.
fn pick_marked<F: Fn(&ReadMark) -> bool>(
    rows: &Vec<ReadMark>,
    test: F,
    Ghost(p): Ghost<spec_fn(ReadMark) -> bool>,
) -> (r: Vec<Uuid>)
    requires
        crate::tables::decides(test, p),
    ensures
        r@ == marked_units(rows@.filter(p)),
{
    let mut out: Vec<Uuid> = Vec::new();
    let mut i: usize = 0;
    proof {
        lemma_filter_none(rows@.take(0), p);
        assert(marked_units(rows@.take(0).filter(p)) =~= Seq::empty());
    }
    while i < rows.len()
        invariant
            crate::tables::decides(test, p),
            i <= rows@.len(),
            out@ == marked_units(rows@.take(i as int).filter(p)),
        decreases rows@.len() - i,
    {
        proof {
            lemma_filter_take(rows@, i as int, p);
        }
        if test(&rows[i]) {
            out.push(rows[i].unit_id);
            assert(out@ =~= marked_units(rows@.take(i + 1).filter(p)));
        }
        i += 1;
    }
    assert(rows@.take(rows@.len() as int) =~= rows@);
    out
}

impl Db {
    /// Marks units read for a reader; says how many were not marked before. Where one
    /// of them is unknown, nothing is marked and the first such one is named.
    pub fn mark_read_at(&mut self, user_id: Uuid, unit_ids: &Vec<Uuid>, now: Timestamp) -> (r: Result<
        u32,
        DbError,
    >)
        requires
            old(self).wf(),
        ensures
            final(self).wf(),
            match first_unknown(old(self)@.units, unit_ids@) {
                None => {
                    &&& final(self)@ == (DbView {
                        marks: with_marks(old(self)@.marks, user_id, unit_ids@, now),
                        ..old(self)@
                    })
                    &&& r == Ok::<u32, DbError>(
                        count32(final(self)@.marks.len() - old(self)@.marks.len()),
                    )
                },
                Some(id) => {
                    &&& final(self)@ == old(self)@
                    &&& r matches Err(DbError::Constraint(m)) && m@ == "unknown chapter "@
                        + hyphenated_text(id)
                },
            },
    {
        let mut k: usize = 0;
        assert(unit_ids@.take(0) =~= Seq::empty());
        while k < unit_ids.len()
            invariant
                k <= unit_ids@.len(),
                self.wf(),
                self@ == old(self)@,
                first_unknown(self@.units, unit_ids@.take(k as int)) is None,
            decreases unit_ids@.len() - k,
        {
            assert(unit_ids@.take(k + 1).drop_last() =~= unit_ids@.take(k as int));
            if !self.knows_unit(unit_ids[k]) {
                proof {
                    lemma_first_unknown(self@.units, unit_ids@);
                    lemma_first_unknown(self@.units, unit_ids@.take(k as int));
                    let id = first_unknown(self@.units, unit_ids@)->0;
                    let i = choose|i: int|
                        0 <= i < unit_ids@.len() && unit_ids@[i] == id && !has_unit(self@.units, id)
                            && forall|j: int| 0 <= j < i ==> has_unit(self@.units, #[trigger] unit_ids@[j]);
                    if i < k {
                        assert(unit_ids@.take(k as int)[i] == id);
                    }
                    assert(i == k);
                }
                return Err(
                    DbError::Constraint(join2("unknown chapter ", uuid_text(unit_ids[k]).as_str())),
                );
            }
            k += 1;
        }
        assert(unit_ids@.take(unit_ids@.len() as int) =~= unit_ids@);
        let ghost before = self@;
        proof {
            lemma_first_unknown(before.units, unit_ids@);
            lemma_with_marks(before.marks, before.units, user_id, unit_ids@, now);
        }
        let had: usize = self.marks.len();
        let mut k: usize = 0;
        while k < unit_ids.len()
            invariant
                k <= unit_ids@.len(),
                self@ == (DbView {
                    marks: with_marks(before.marks, user_id, unit_ids@.take(k as int), now),
                    ..before
                }),
            decreases unit_ids@.len() - k,
        {
            assert(unit_ids@.take(k + 1).drop_last() =~= unit_ids@.take(k as int));
            let id = unit_ids[k];
            let hit = |m: &ReadMark| -> (b: bool)
                ensures b == (m.user_id == user_id && m.unit_id == id)
            { m.user_id == user_id && m.unit_id == id };
            let there = any(
                &self.marks,
                hit,
                Ghost(|m: ReadMark| m.user_id == user_id && m.unit_id == id),
            );
            assert(there == marked(self@.marks, user_id, id));
            if !there {
                self.marks.push(ReadMark { user_id, unit_id: id, at: now });
            }
            assert(self@ =~= (DbView {
                marks: with_marks(before.marks, user_id, unit_ids@.take(k + 1), now),
                ..before
            }));
            k += 1;
        }
        assert(unit_ids@.take(unit_ids@.len() as int) =~= unit_ids@);
        Ok(to_count(self.marks.len() - had))
    }

    /// Marks units read for a reader, as of now.
    pub fn mark_read(&mut self, user_id: Uuid, unit_ids: &Vec<Uuid>) -> (r: Result<u32, DbError>)
        requires
            old(self).wf(),
        ensures
            final(self).wf(),
            exists|now: Timestamp|
                crate::clock::is_reading(now) && match first_unknown(old(self)@.units, unit_ids@) {
                    None => {
                        &&& final(self)@ == (DbView {
                            marks: #[trigger] with_marks(old(self)@.marks, user_id, unit_ids@, now),
                            ..old(self)@
                        })
                        &&& r == Ok::<u32, DbError>(
                            count32(final(self)@.marks.len() - old(self)@.marks.len()),
                        )
                    },
                    Some(id) => {
                        &&& final(self)@ == old(self)@
                        &&& r matches Err(DbError::Constraint(m)) && m@ == "unknown chapter "@
                            + hyphenated_text(id)
                    },
                },
    {
        let now = utc_now();
        let r = self.mark_read_at(user_id, unit_ids, now);
        let ghost _seen = with_marks(old(self)@.marks, user_id, unit_ids@, now);
        r
    }

    /// Takes a reader's marks off units; says how many there were.
    pub fn mark_unread(&mut self, user_id: Uuid, unit_ids: &Vec<Uuid>) -> (r: u32)
        requires
            old(self).wf(),
        ensures
            final(self).wf(),
            final(self)@ == (DbView {
                marks: without_marks(old(self)@.marks, user_id, unit_ids@),
                ..old(self)@
            }),
            r == count32(old(self)@.marks.len() - final(self)@.marks.len()),
    {
        let had: usize = self.marks.len();
        let keep = |m: &ReadMark| -> (b: bool)
            ensures b == !(m.user_id == user_id && unit_ids@.contains(m.unit_id))
        { !(m.user_id == user_id && includes(unit_ids, m.unit_id)) };
        let ghost p = |m: ReadMark| !(m.user_id == user_id && unit_ids@.contains(m.unit_id));
        proof {
            lemma_without_marks(self@.marks, self@.units, p);
            lemma_filter_len(self@.marks, p);
        }
        retain(&mut self.marks, keep, Ghost(p));
        to_count(had - self.marks.len())
    }

    /// The units of a publication that a reader has read.
    pub fn read_ids(&self, user_id: Uuid, publication_id: Uuid) -> (r: Vec<Uuid>)
        ensures
            r@ == marked_units(
                self@.marks.filter(
                    |m: ReadMark| m.user_id == user_id && unit_of(self@.units, m.unit_id, publication_id),
                ),
            ),
            forall|id: Uuid|
                #[trigger] r@.contains(id) <==> has_read(self@.marks, user_id, id) && exists|k: int|
                    0 <= k < self@.units.len() && (#[trigger] self@.units[k]).id == id
                        && self@.units[k].publication_id == publication_id,
    {
        proof {
            lemma_read_of(
                self@.marks,
                |m: ReadMark| m.user_id == user_id && unit_of(self@.units, m.unit_id, publication_id),
            );
        }
        let hit = |m: &ReadMark| -> (b: bool)
            ensures b == (m.user_id == user_id && unit_of(self@.units, m.unit_id, publication_id))
        { m.user_id == user_id && self.is_unit_of(m.unit_id, publication_id) };
        pick_marked(
            &self.marks,
            hit,
            Ghost(
                |m: ReadMark| m.user_id == user_id && unit_of(self@.units, m.unit_id, publication_id),
            ),
        )
    }

    /// Whether a unit is one of a publication's.
    fn is_unit_of(&self, unit_id: Uuid, publication_id: Uuid) -> (r: bool)
        ensures
            r == unit_of(self@.units, unit_id, publication_id),
    {
        let hit = |u: &ReadingUnit| -> (b: bool)
            ensures b == (u.id == unit_id && u.publication_id == publication_id)
        { u.id == unit_id && u.publication_id == publication_id };
        any(
            &self.units,
            hit,
            Ghost(|u: ReadingUnit| u.id == unit_id && u.publication_id == publication_id),
        )
    }

    /// Every unit that a reader has read.
    pub fn read_all_ids(&self, user_id: Uuid) -> (r: Vec<Uuid>)
        ensures
            r@ == marked_units(self@.marks.filter(|m: ReadMark| m.user_id == user_id)),
            forall|id: Uuid| #[trigger] r@.contains(id) <==> has_read(self@.marks, user_id, id),
    {
        proof {
            lemma_read_of(self@.marks, |m: ReadMark| m.user_id == user_id);
        }
        let hit = |m: &ReadMark| -> (b: bool)
            ensures b == (m.user_id == user_id)
        { m.user_id == user_id };
        pick_marked(&self.marks, hit, Ghost(|m: ReadMark| m.user_id == user_id))
    }
}

}
