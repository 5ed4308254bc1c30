//! Units as readers see them.

use vstd::prelude::*;

use crate::db::downloads::pick;
use crate::db::{has_unit, lemma_units_changed, Db, DbError, DbView};
use crate::domain::publication::ReadingUnit;
use crate::ids::Uuid;
use crate::order::{sort_by, sorted};
use crate::tables::{change_all, position};

verus! {

/// Reading order: numbered units by number, then those without one; units alike in
/// that from the bottom of the source's listing up, since sources list the newest
/// first.
pub open spec fn reading_le(a: ReadingUnit, b: ReadingUnit) -> bool {
    match (a.number, b.number) {
        (Some(x), Some(y)) => x.rank < y.rank || (x.rank == y.rank && a.source_order
            >= b.source_order),
        (Some(_), None) => true,
        (None, Some(_)) => false,
        (None, None) => a.source_order >= b.source_order,
    }
}

/// A publication's units in reading order.
pub open spec fn units_of(units: Seq<ReadingUnit>, publication_id: Uuid) -> Seq<ReadingUnit> {
    sorted(
        units.filter(|u: ReadingUnit| u.publication_id == publication_id),
        |a: ReadingUnit, b: ReadingUnit| reading_le(a, b),
    )
}

/// The unit with the identifier.
pub open spec fn unit_with(units: Seq<ReadingUnit>, id: Uuid) -> ReadingUnit {
    units[choose|i: int| 0 <= i < units.len() && (#[trigger] units[i]).id == id]
}

/// All units, publication by publication.
pub open spec fn by_publication(units: Seq<ReadingUnit>) -> Seq<ReadingUnit> {
    sorted(units, |a: ReadingUnit, b: ReadingUnit| a.publication_id <= b.publication_id)
}

/// A unit with its page count set, where it has the identifier.
pub open spec fn counted(u: ReadingUnit, id: Uuid, pages: u32) -> ReadingUnit {
    if u.id == id {
        ReadingUnit { page_count: Some(pages), ..u }
    } else {
        u
    }
}

impl Db {
    /// The unit with an identifier.
    pub fn get_unit(&self, id: Uuid) -> (r: Result<ReadingUnit, DbError>)
        requires
            self.wf(),
        ensures
            r == if has_unit(self@.units, id) {
                Ok::<ReadingUnit, DbError>(unit_with(self@.units, id))
            } else {
                Err::<ReadingUnit, DbError>(DbError::NotFound)
            },
    {
        let is_it = |u: &ReadingUnit| -> (b: bool)
            ensures b == (u.id == id)
        { u.id == id };
        match position(&self.units, is_it, Ghost(|u: ReadingUnit| u.id == id)) {
            Some(i) => {
                proof {
                    assert(self@.units[i as int].id == id);
                    let k = choose|k: int| 0 <= k < self@.units.len() && (#[trigger] self@.units[k]).id == id;
                    assert(k == i);
                }
                Ok(self.units[i].clone())
            },
            None => Err(DbError::NotFound),
        }
    }

    /// A publication's units, in reading order.
    pub fn list_units(&self, publication_id: Uuid) -> (r: Vec<ReadingUnit>)
        ensures
            r@ == units_of(self@.units, publication_id),
    {
        let own = |u: &ReadingUnit| -> (b: bool)
            ensures b == (u.publication_id == publication_id)
        { u.publication_id == publication_id };
        let rows = pick(
            &self.units,
            own,
            Ghost(|u: ReadingUnit| u.publication_id == publication_id),
        );
        let before = |a: &ReadingUnit, b: &ReadingUnit| -> (r: bool)
            ensures r == reading_le(*a, *b)
        { reads_before(a, b) };
        sort_by(rows, before, Ghost(|a: ReadingUnit, b: ReadingUnit| reading_le(a, b)))
    }

    /// All units, publication by publication.
    pub fn export_units(&self) -> (r: Vec<ReadingUnit>)
        ensures
            r@ == by_publication(self@.units),
    {
        let rows = self.units.clone();
        assert(rows@ =~= self.units@);
        let before = |a: &ReadingUnit, b: &ReadingUnit| -> (r: bool)
            ensures r == (a.publication_id <= b.publication_id)
        { a.publication_id <= b.publication_id };
        sort_by(
            rows,
            before,
            Ghost(|a: ReadingUnit, b: ReadingUnit| a.publication_id <= b.publication_id),
        )
    }

    /// Records how many pages a unit has.
    pub fn set_page_count(&mut self, id: Uuid, page_count: u32)
        requires
            old(self).wf(),
        ensures
            final(self).wf(),
            final(self)@ == (DbView {
                units: old(self)@.units.map_values(|u: ReadingUnit| counted(u, id, page_count)),
                ..old(self)@
            }),
            final(self)@.units.len() == old(self)@.units.len(),
            forall|i: int|
                0 <= i < old(self)@.units.len() ==> {
                    let u = old(self)@.units[i];
                    let v = #[trigger] final(self)@.units[i];
                    &&& u.id != id ==> v == u
                    &&& u.id == id ==> v.page_count == Some(page_count) && v == (ReadingUnit {
                        page_count: v.page_count,
                        ..u
                    })
                },
    {
        let ghost f = |u: ReadingUnit| counted(u, id, page_count);
        proof {
            lemma_units_changed(self@, f);
        }
        let step = |u: &ReadingUnit| -> (v: ReadingUnit)
            ensures v == counted(*u, id, page_count)
        {
            let mut v = u.clone();
            if u.id == id {
                v.page_count = Some(page_count);
            }
            v
        };
        change_all(&mut self.units, step, Ghost(f));
    }
}

/// Whether `a` comes before `b` in reading order, or beside it.
fn reads_before(a: &ReadingUnit, b: &ReadingUnit) -> (r: bool)
    ensures
        r == reading_le(*a, *b),
{
    match a.number {
        Some(x) => match b.number {
            Some(y) => x.rank < y.rank || (x.rank == y.rank && a.source_order >= b.source_order),
            None => true,
        },
        None => match b.number {
            Some(_) => false,
            None => a.source_order >= b.source_order,
        },
    }
}

}
