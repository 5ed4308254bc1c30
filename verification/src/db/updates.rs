//! What checks have found, newest first.

use vstd::prelude::*;

use crate::clock::Timestamp;
use crate::db::plain::sooner;
use crate::db::publications::publication_of;
use crate::db::{has_publication, Db, DbView, UpdateRow};
use crate::domain::api::UpdateEvent;
use crate::domain::publication::{PublicationView, ReadingUnit};
use crate::ids::Uuid;
use crate::order::{sort_by, sorted};
use crate::tables::{count32, lemma_filter_contains, lemma_filter_none, retain, to_count};

verus! {

/// What one check found for a publication.
pub open spec fn update_row(publication_id: Uuid, units: Seq<ReadingUnit>, now: Timestamp) -> UpdateRow {
    UpdateRow {
        publication_id,
        unit_count: count32(units.len() as int),
        first_title: units[0].title,
        last_title: units.last().title,
        created_at: now,
    }
}

/// A find newer than `since`, of a publication that is still there.
pub open spec fn is_shown_update(u: UpdateRow, publications: Seq<PublicationView>, since: Timestamp) -> bool {
    since.lt(u.created_at) && has_publication(publications, u.publication_id)
}

/// Newer finds first.
pub open spec fn newer_first(a: UpdateRow, b: UpdateRow) -> bool {
    b.created_at.le(a.created_at)
}

/// The finds newer than `since`, newest first; of two as new, the later one first.
pub open spec fn updates_after(db: DbView, since: Timestamp) -> Seq<UpdateRow> {
    sorted(
        db.updates.filter(|u: UpdateRow| is_shown_update(u, db.publications, since)).reverse(),
        |a: UpdateRow, b: UpdateRow| newer_first(a, b),
    )
}

/// At most `limit` rows; all of them where it is negative.
pub open spec fn limited<T>(s: Seq<T>, limit: int) -> Seq<T> {
    if limit < 0 || limit >= s.len() {
        s
    } else {
        s.take(limit)
    }
}

/// A find as it is shown, with its publication's title.
pub open spec fn shown_update(u: UpdateRow, publications: Seq<PublicationView>) -> UpdateEvent {
    UpdateEvent {
        publication_id: u.publication_id,
        publication_title: publication_of(publications, u.publication_id).title,
        unit_count: u.unit_count,
        first_title: u.first_title,
        last_title: u.last_title,
        created_at: u.created_at,
    }
}

impl Db {
    /// Records what a check found for a publication: how many units, and the first and
    /// the last of them. Finding nothing is not recorded.
    pub fn add_update(&mut self, publication_id: Uuid, units: &Vec<ReadingUnit>, now: Timestamp)
        requires
            old(self).wf(),
        ensures
            final(self).wf(),
            final(self)@ == if units@.len() == 0 {
                old(self)@
            } else {
                DbView {
                    updates: old(self)@.updates.push(update_row(publication_id, units@, now)),
                    ..old(self)@
                }
            },
    {
        if units.len() > 0 {
            self.updates.push(
                UpdateRow {
                    publication_id,
                    unit_count: to_count(units.len()),
                    first_title: units[0].title.clone(),
                    last_title: units[units.len() - 1].title.clone(),
                    created_at: now,
                },
            );
        }
    }

    /// What checks have found since a time, newest first.
    pub fn updates_since(&self, since: Timestamp, limit: i64) -> (r: Vec<UpdateEvent>)
        requires
            self.wf(),
        ensures
            r@ == limited(updates_after(self@, since), limit as int).map_values(
                |u: UpdateRow| shown_update(u, self@.publications),
            ),
    {
        let ghost p = |u: UpdateRow| is_shown_update(u, self@.publications, since);
        let ghost all = self.updates@;
        let mut rows: Vec<UpdateRow> = Vec::new();
        let mut i: usize = self.updates.len();
        proof {
            lemma_filter_none(all.skip(all.len() as int), p);
            assert(all.skip(all.len() as int).filter(p).reverse() =~= Seq::empty());
        }
        while i > 0
            invariant
                i <= all.len(),
                all == self.updates@,
                p == (|u: UpdateRow| is_shown_update(u, self@.publications, since)),
                rows@ == all.skip(i as int).filter(p).reverse(),
            decreases i,
        {
            i -= 1;
            proof {
                lemma_filter_front(all, i as int, p);
            }
            let u = &self.updates[i];
            if since.before(&u.created_at) && self.knows_publication(u.publication_id) {
                let ghost had = all.skip(i + 1).filter(p);
                rows.push(u.clone());
                assert(rows@ =~= (seq![all[i as int]] + had).reverse());
            }
        }
        assert(all.skip(0) =~= all);
        let newer = |a: &UpdateRow, b: &UpdateRow| -> (r: bool)
            ensures r == newer_first(*a, *b)
        { b.created_at.not_after(&a.created_at) };
        let rows = sort_by(rows, newer, Ghost(|a: UpdateRow, b: UpdateRow| newer_first(a, b)));
        let ghost found = updates_after(self@, since);
        proof {
            crate::order::lemma_sorted(
                all.filter(p).reverse(),
                |a: UpdateRow, b: UpdateRow| newer_first(a, b),
            );
            crate::tables::lemma_filter_contains(all, p);
            let kept = all.filter(p);
            assert(crate::order::is_ranking(|a: UpdateRow, b: UpdateRow| newer_first(a, b)));
            assert forall|j: int| 0 <= j < rows@.len() implies p(#[trigger] rows@[j]) by {
                assert(rows@.contains(rows@[j]));
                assert(kept.reverse().contains(rows@[j]));
                let k = choose|k: int| 0 <= k < kept.reverse().len() && kept.reverse()[k] == rows@[j];
                assert(kept[kept.len() - 1 - k] == rows@[j]);
                assert(kept.contains(rows@[j]));
            }
        }
        let n: usize = if limit < 0 || limit as u64 >= rows.len() as u64 {
            rows.len()
        } else {
            limit as usize
        };
        let ghost shown = limited(found, limit as int);
        let ghost f = |u: UpdateRow| shown_update(u, self@.publications);
        let mut out: Vec<UpdateEvent> = Vec::new();
        let mut k: usize = 0;
        assert(shown.len() == n);
        while k < n
            invariant
                k <= n <= rows@.len(),
                self.wf(),
                rows@ == found,
                found == updates_after(self@, since),
                shown.len() == n,
                forall|j: int| 0 <= j < n ==> #[trigger] shown[j] == rows@[j],
                p == (|u: UpdateRow| is_shown_update(u, self@.publications, since)),
                f == (|u: UpdateRow| shown_update(u, self@.publications)),
                forall|j: int| 0 <= j < rows@.len() ==> p(#[trigger] rows@[j]),
                out@ == shown.take(k as int).map_values(f),
            decreases n - k,
        {
            let u = &rows[k];
            assert(p(rows@[k as int]));
            let title = match self.publication_title(u.publication_id) {
                Some(t) => t,
                None => String::new(),
            };
            out.push(
                UpdateEvent {
                    publication_id: u.publication_id,
                    publication_title: title,
                    unit_count: u.unit_count,
                    first_title: u.first_title.clone(),
                    last_title: u.last_title.clone(),
                    created_at: u.created_at,
                },
            );
            assert(shown[k as int] == rows@[k as int]);
            assert(out@ =~= shown.take(k + 1).map_values(f));
            k += 1;
        }
        assert(shown.take(n as int) =~= shown);
        out
    }

    /// Forgets what was found before a time.
    pub fn prune_updates(&mut self, before: Timestamp)
        requires
            old(self).wf(),
        ensures
            final(self).wf(),
            final(self)@ == (DbView {
                updates: old(self)@.updates.filter(|u: UpdateRow| !u.created_at.lt(before)),
                ..old(self)@
            }),
            forall|u: UpdateRow|
                #[trigger] final(self)@.updates.contains(u) <==> old(self)@.updates.contains(u)
                    && !sooner(u.created_at, before),
    {
        proof {
            lemma_filter_contains(self@.updates, |u: UpdateRow| !u.created_at.lt(before));
        }
        let stays = |u: &UpdateRow| -> (b: bool)
            ensures b == !u.created_at.lt(before)
        { !u.created_at.before(&before) };
        retain(&mut self.updates, stays, Ghost(|u: UpdateRow| !u.created_at.lt(before)));
    }
}

/// The filter of a suffix grows in front by the item before it, where that passes.
proof fn lemma_filter_front<T>(s: Seq<T>, i: int, p: spec_fn(T) -> bool)
    requires
        0 <= i < s.len(),
    ensures
        s.skip(i).filter(p) == if p(s[i]) {
            seq![s[i]] + s.skip(i + 1).filter(p)
        } else {
            s.skip(i + 1).filter(p)
        },
    decreases s.len(),
{
    reveal(Seq::filter);
    if i == s.len() - 1 {
        assert(s.skip(i) =~= Seq::<T>::empty().push(s[i]));
        assert(s.skip(i + 1) =~= Seq::<T>::empty());
        crate::tables::lemma_filter_push(Seq::<T>::empty(), s[i], p);
        assert(Seq::<T>::empty().filter(p) =~= Seq::<T>::empty());
        assert(Seq::<T>::empty().push(s[i]) =~= seq![s[i]] + Seq::<T>::empty());
        assert(s.skip(i).filter(p) =~= if p(s[i]) {
            seq![s[i]] + s.skip(i + 1).filter(p)
        } else {
            s.skip(i + 1).filter(p)
        });
    } else {
        let d = s.drop_last();
        lemma_filter_front(d, i, p);
        assert(s.skip(i) =~= d.skip(i).push(s.last()));
        assert(s.skip(i + 1) =~= d.skip(i + 1).push(s.last()));
        crate::tables::lemma_filter_push(d.skip(i), s.last(), p);
        crate::tables::lemma_filter_push(d.skip(i + 1), s.last(), p);
        assert(s.skip(i).filter(p) =~= if p(s[i]) {
            seq![s[i]] + s.skip(i + 1).filter(p)
        } else {
            s.skip(i + 1).filter(p)
        });
    }
}

}
